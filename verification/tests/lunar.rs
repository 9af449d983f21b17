use apollo18_renderer::{AnimationCoverageError, InvalidSceneTime, InvalidSunDirection};

#[test]
fn unit_errors_describe_themselves() {
    assert_eq!(InvalidSceneTime.to_string(), "scene time must be non-negative and finite");
    assert_eq!(InvalidSunDirection.to_string(), "Sun direction must be finite and nonzero");
    assert_eq!(
        AnimationCoverageError.to_string(),
        "NASA lunar ephemeris must cover one complete mean synodic month from its first timestamp"
    );
}

#[test]
fn web_errors_name_their_context() {
    let error = apollo18_renderer::web::Error::with_context(
        "could not derive scene time",
        "scene time must be non-negative and finite",
    );
    assert_eq!(
        error.message(),
        "could not derive scene time: scene time must be non-negative and finite"
    );
    assert_eq!(apollo18_renderer::web::Error::new("window is unavailable".to_string()).message(), "window is unavailable");
}
