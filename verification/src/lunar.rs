use vstd::prelude::*;
use vstd::string::*;

verus! {

/// A Sun direction that is not finite or has no length.
#[derive(Debug, Clone, Copy, PartialEq, Eq, Structural)]
pub struct InvalidSunDirection;

impl InvalidSunDirection {
    pub fn to_string(&self) -> (message: String)
        ensures
            message@ == "Sun direction must be finite and nonzero"@,
    {
        String::from_str("Sun direction must be finite and nonzero")
    }
}

/// Ephemeris data too short for a complete animation cycle.
#[derive(Debug, Clone, Copy, PartialEq, Eq, Structural)]
pub struct AnimationCoverageError;

impl AnimationCoverageError {
    pub fn to_string(&self) -> (message: String)
        ensures
            message@
                == "NASA lunar ephemeris must cover one complete mean synodic month from its first timestamp"@,
    {
        String::from_str(
            "NASA lunar ephemeris must cover one complete mean synodic month from its first timestamp",
        )
    }
}

/// A scene time that is negative or not finite.
#[derive(Debug, Clone, Copy, PartialEq, Eq, Structural)]
pub struct InvalidSceneTime;

impl InvalidSceneTime {
    pub fn to_string(&self) -> (message: String)
        ensures
            message@ == "scene time must be non-negative and finite"@,
    {
        String::from_str("scene time must be non-negative and finite")
    }
}

} // verus!
