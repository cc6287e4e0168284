//! What the running environment allows.

use vstd::prelude::*;

verus! {

/// The platform and privileges the copy runs with.
#[derive(Debug, Clone)]
pub struct RuntimeContext {
    pub os: &'static str,
    pub is_elevated: bool,
    pub raw_disk_access_requires_elevation: bool,
}

/// Why the environment cannot run the copy.
#[derive(Debug, Clone)]
pub enum EnvironmentError {
    ElevationRequired,
}

impl EnvironmentError {
    /// The text shown for the error.
    pub fn message(&self) -> (r: &'static str)
        ensures
            r@ == "Administrative privileges are required for raw block-device access."@,
    {
        match self {
            EnvironmentError::ElevationRequired => "Administrative privileges are required for raw block-device access.",
        }
    }
}

/// The context on platform `os`. `elevation` is whether the process runs
/// elevated, where raw device access requires elevation (Windows), and
/// `None` elsewhere. Where elevation is required and missing, the
/// environment is refused.
pub fn runtime_context(os: &'static str, elevation: Option<bool>) -> (r: Result<RuntimeContext, EnvironmentError>)
    ensures
        match elevation {
            Some(true) => r matches Ok(c) && c.os == os && c.is_elevated
                && c.raw_disk_access_requires_elevation,
            Some(false) => r matches Err(EnvironmentError::ElevationRequired),
            None => r matches Ok(c) && c.os == os && c.is_elevated
                && !c.raw_disk_access_requires_elevation,
        },
{
    match elevation {
        Some(elevated) => {
            let context = RuntimeContext { os, is_elevated: elevated, raw_disk_access_requires_elevation: true };
            if !elevated {
                return Err(EnvironmentError::ElevationRequired);
            }
            Ok(context)
        },
        None => Ok(RuntimeContext { os, is_elevated: true, raw_disk_access_requires_elevation: false }),
    }
}

} // verus!
