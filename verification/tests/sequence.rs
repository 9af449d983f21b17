use apollo18_renderer::sequence::{
    frame_file_name, frame_progress, parse_args, parse_nonzero_u32, parse_u32, CliError,
};
use std::path::Path;

const DEFAULT_OUTPUT_DIRECTORY: &str = "target/apollo18/frames";

fn arguments(items: &[&str]) -> Vec<String> {
    items.iter().map(|item| item.to_string()).collect()
}

#[test]
fn cube_sequence_paths_use_fixed_width_frame_numbers() {
    let output_directory = Path::new("frames");

    assert_eq!(
        output_directory.join(frame_file_name(0)),
        output_directory.join("frame-0000.png")
    );
    assert_eq!(
        output_directory.join(frame_file_name(299)),
        output_directory.join("frame-0299.png")
    );
}

#[test]
fn sequence_sequence_paths_use_fixed_width_frame_numbers() {
    let output_directory = Path::new("frames");

    assert_eq!(
        output_directory.join(frame_file_name(0)),
        output_directory.join("frame-0000.png")
    );
    assert_eq!(
        output_directory.join(frame_file_name(299)),
        output_directory.join("frame-0299.png")
    );
}

#[test]
fn frame_numbers_beyond_four_digits_are_not_truncated() {
    assert_eq!(frame_file_name(7), "frame-0007.png");
    assert_eq!(frame_file_name(12_345), "frame-12345.png");
    assert_eq!(frame_file_name(u32::MAX), "frame-4294967295.png");
}

#[test]
fn cli_errors_include_command_specific_usage() {
    let error = CliError::new("lunar-globe", "bad arguments".to_owned());

    assert_eq!(
        error.to_string(),
        "bad arguments\nusage: lunar-globe --fps <FPS> --num-frames <COUNT> [OUTPUT_DIRECTORY]"
    );
}

#[test]
fn required_sequence_options_are_parsed() {
    let options = parse_args(
        &arguments(&["--fps", "24", "--num-frames", "120", "custom-frames"]),
        DEFAULT_OUTPUT_DIRECTORY,
    )
    .expect("arguments should be valid");

    assert_eq!(options.frames_per_second, 24);
    assert_eq!(options.frame_count, 120);
    assert_eq!(Path::new(&options.output_directory), Path::new("custom-frames"));
}

#[test]
fn default_output_directory_is_used_when_omitted() {
    let options = parse_args(
        &arguments(&["--fps", "24", "--num-frames", "120"]),
        DEFAULT_OUTPUT_DIRECTORY,
    )
    .expect("arguments should be valid");

    assert_eq!(
        Path::new(&options.output_directory),
        Path::new(DEFAULT_OUTPUT_DIRECTORY)
    );
}

#[test]
fn missing_zero_duplicate_and_unknown_sequence_options_are_rejected() {
    for items in [
        vec!["--fps", "30"],
        vec!["--fps", "0", "--num-frames", "300"],
        vec!["--fps", "30", "--num-frames", "0"],
        vec!["--fps", "30", "--fps", "60", "--num-frames", "300"],
        vec!["--fps", "30", "--num-frames", "300", "--num-frames", "600"],
        vec!["--fps", "30", "--num-frames", "300", "--wat"],
    ] {
        assert!(parse_args(&arguments(&items), DEFAULT_OUTPUT_DIRECTORY).is_err());
    }
}

#[test]
fn each_rejection_names_its_reason() {
    let cases = [
        (vec!["--fps", "30"], "required option --num-frames is missing"),
        (vec!["--num-frames", "30"], "required option --fps is missing"),
        (vec!["--fps"], "--fps requires a value"),
        (vec!["--fps", "0", "--num-frames", "300"], "--fps must be a positive integer"),
        (vec!["--fps", "30", "--num-frames", "-3"], "--num-frames must be a positive integer"),
        (vec!["--fps", "30", "--fps", "60"], "--fps may only be supplied once"),
        (
            vec!["--fps", "30", "--num-frames", "3", "--num-frames", "6"],
            "--num-frames may only be supplied once",
        ),
        (vec!["--fps", "30", "--num-frames", "300", "--wat"], "unknown option: --wat"),
        (vec!["a", "b"], "only one output directory may be supplied"),
    ];
    for (items, expected) in cases {
        assert_eq!(
            parse_args(&arguments(&items), DEFAULT_OUTPUT_DIRECTORY),
            Err(expected.to_string())
        );
    }
}

#[test]
fn option_values_may_look_like_options() {
    assert_eq!(
        parse_args(&arguments(&["--fps", "-1"]), DEFAULT_OUTPUT_DIRECTORY),
        Err("--fps must be a positive integer".to_string())
    );
}

#[test]
fn decimal_parsing_matches_std() {
    for text in ["0", "7", "+12", "0042", "4294967295", "4294967296", "", "+", "-1", "1a", " 1", "99999999999"] {
        assert_eq!(parse_u32(text), text.parse::<u32>().ok(), "text {text:?}");
    }
}

#[test]
fn option_values_must_be_positive() {
    assert_eq!(parse_nonzero_u32(Some("24"), "--fps"), Ok(24));
    assert_eq!(parse_nonzero_u32(None, "--fps"), Err("--fps requires a value".to_string()));
    assert_eq!(
        parse_nonzero_u32(Some("0"), "--num-frames"),
        Err("--num-frames must be a positive integer".to_string())
    );
}

#[test]
fn progress_is_reported_after_each_second_of_frames() {
    assert_eq!(frame_progress(0, 30, 300), None);
    assert_eq!(frame_progress(28, 30, 300), None);
    assert_eq!(frame_progress(29, 30, 300), Some("rendered 30/300 frames".to_string()));
    assert_eq!(frame_progress(299, 30, 300), Some("rendered 300/300 frames".to_string()));
    assert_eq!(frame_progress(0, 1, 1), Some("rendered 1/1 frames".to_string()));
}
