use block_duplicator::environment::{runtime_context, EnvironmentError};
use block_duplicator::io::checked_device_length;

#[test]
fn unelevated_windows_is_refused() {
    assert!(matches!(runtime_context("windows", Some(false)), Err(EnvironmentError::ElevationRequired)));
    let c = runtime_context("windows", Some(true)).unwrap();
    assert_eq!(c.os, "windows");
    assert!(c.is_elevated);
    assert!(c.raw_disk_access_requires_elevation);
}

#[test]
fn other_platforms_need_no_elevation() {
    let c = runtime_context("linux", None).unwrap();
    assert_eq!(c.os, "linux");
    assert!(c.is_elevated);
    assert!(!c.raw_disk_access_requires_elevation);
}

#[test]
fn environment_error_message() {
    assert_eq!(
        EnvironmentError::ElevationRequired.message(),
        "Administrative privileges are required for raw block-device access."
    );
}

#[test]
fn negative_device_length_is_refused() {
    assert_eq!(checked_device_length(4096).unwrap(), 4096);
    assert_eq!(checked_device_length(0).unwrap(), 0);
    assert_eq!(checked_device_length(-1).unwrap_err().length, -1);
}
