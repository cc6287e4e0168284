use block_duplicator::cli::{
    infer_backend_kind_from_path, parse_args, parse_backend_kind, resolve_vhdx_size, should_draw_progress,
    unix_operation_requires_root, usage, windows_operation_requests_elevation, BackendKind, CliError, CliFlag,
    DEFAULT_CHUNK_SIZE,
};

fn args(list: &[&str]) -> Vec<String> {
    let mut v = vec!["bd".to_string()];
    v.extend(list.iter().map(|s| s.to_string()));
    v
}

#[test]
fn parses_minimal_command_line_with_defaults() {
    let a = parse_args(args(&["--src", "in.img", "--dst", "out.img"])).unwrap();
    assert_eq!(a.src, "in.img");
    assert_eq!(a.dst, "out.img");
    assert_eq!(a.chunk_size, 1048576);
    assert_eq!(DEFAULT_CHUNK_SIZE, 1024 * 1024);
    assert!(a.src_kind.is_none());
    assert!(a.dst_kind.is_none());
    assert!(a.vhdx_size_bytes.is_none());
    assert!(!a.require_elevation);
    assert!(!a.worker_mode);
    assert!(a.worker_port.is_none());
    assert!(a.worker_token.is_none());
}

#[test]
fn parses_every_option() {
    let a = parse_args(args(&[
        "--src-kind", "block", "--src", "\\\\.\\PhysicalDrive1", "--dst-kind", "vhdx", "--dst", "out.vhdx",
        "--chunk-size", "65536", "--vhdx-size-bytes", "+1024", "--require-elevation", "--bd-worker",
        "--bd-port", "65535", "--bd-token", "18446744073709551615",
    ]))
    .unwrap();
    assert!(matches!(a.src_kind, Some(BackendKind::Block)));
    assert!(matches!(a.dst_kind, Some(BackendKind::Vhdx)));
    assert_eq!(a.chunk_size, 65536);
    assert_eq!(a.vhdx_size_bytes, Some(1024));
    assert!(a.require_elevation);
    assert!(a.worker_mode);
    assert_eq!(a.worker_port, Some(65535));
    assert_eq!(a.worker_token, Some(u64::MAX));
}

#[test]
fn later_options_override_earlier_ones() {
    let a = parse_args(args(&["--src", "a", "--src", "b", "--dst", "c", "--chunk-size", "1", "--chunk-size", "2"]))
        .unwrap();
    assert_eq!(a.src, "b");
    assert_eq!(a.chunk_size, 2);
}

#[test]
fn missing_paths_are_reported() {
    assert!(matches!(parse_args(args(&["--dst", "x"])), Err(CliError::MissingSrc)));
    assert!(matches!(parse_args(args(&["--src", "x"])), Err(CliError::MissingDst)));
    assert!(matches!(parse_args(vec![]), Err(CliError::MissingSrc)));
    // a trailing --src without value clears the source
    assert!(matches!(parse_args(args(&["--src", "x", "--dst", "y", "--src"])), Err(CliError::MissingSrc)));
}

#[test]
fn option_errors_are_reported() {
    assert!(matches!(parse_args(args(&["--chunk-size"])), Err(CliError::MissingValue(CliFlag::ChunkSize))));
    assert!(matches!(parse_args(args(&["--src-kind"])), Err(CliError::MissingValue(CliFlag::SrcKind))));
    assert!(matches!(parse_args(args(&["--bd-token"])), Err(CliError::MissingValue(CliFlag::BdToken))));
    match parse_args(args(&["--chunk-size", "12x"])) {
        Err(CliError::InvalidNumber { flag: CliFlag::ChunkSize, raw }) => assert_eq!(raw, "12x"),
        other => panic!("unexpected {:?}", other),
    }
    match parse_args(args(&["--bd-port", "65536"])) {
        Err(CliError::InvalidNumber { flag: CliFlag::BdPort, raw }) => assert_eq!(raw, "65536"),
        other => panic!("unexpected {:?}", other),
    }
    assert!(matches!(parse_args(args(&["--vhdx-size-bytes", "-1"])), Err(CliError::InvalidNumber { .. })));
    assert!(matches!(parse_args(args(&["--chunk-size", "0"])), Err(CliError::ChunkSizeZero)));
    assert!(matches!(parse_args(args(&["--vhdx-size-bytes", "0"])), Err(CliError::VhdxSizeZero)));
    match parse_args(args(&["--dst-kind", "tape"])) {
        Err(CliError::InvalidBackendKind(raw)) => assert_eq!(raw, "tape"),
        other => panic!("unexpected {:?}", other),
    }
    match parse_args(args(&["--src", "a", "--dst", "b", "--fast"])) {
        Err(CliError::UnknownArgument(a)) => assert_eq!(a, "--fast"),
        other => panic!("unexpected {:?}", other),
    }
}

#[test]
fn backend_kinds_are_named() {
    assert!(matches!(parse_backend_kind("file"), Ok(BackendKind::File)));
    assert!(matches!(parse_backend_kind("block"), Ok(BackendKind::Block)));
    assert!(matches!(parse_backend_kind("vhdx"), Ok(BackendKind::Vhdx)));
    assert!(matches!(parse_backend_kind("network"), Ok(BackendKind::Network)));
    match parse_backend_kind("File") {
        Err(CliError::InvalidBackendKind(raw)) => assert_eq!(raw, "File"),
        _ => panic!("kind names are case-sensitive"),
    }
}

#[test]
fn backend_kind_is_inferred_from_path() {
    assert!(matches!(infer_backend_kind_from_path("\\\\.\\PhysicalDrive0", false), BackendKind::Block));
    assert!(matches!(infer_backend_kind_from_path("/dev/sda", true), BackendKind::Block));
    assert!(matches!(infer_backend_kind_from_path("/dev/sda", false), BackendKind::File));
    assert!(matches!(infer_backend_kind_from_path("tcp://127.0.0.1:9000", false), BackendKind::Network));
    assert!(matches!(infer_backend_kind_from_path("TCP://host:1", false), BackendKind::Network));
    assert!(matches!(infer_backend_kind_from_path("out.vhdx", false), BackendKind::Vhdx));
    assert!(matches!(infer_backend_kind_from_path("OUT.VHDX", false), BackendKind::Vhdx));
    assert!(matches!(infer_backend_kind_from_path("input.img", false), BackendKind::File));
    assert!(matches!(infer_backend_kind_from_path("vhdx", false), BackendKind::File));
    assert!(matches!(infer_backend_kind_from_path("", false), BackendKind::File));
}

#[test]
fn usage_names_the_options() {
    let u = usage();
    assert!(u.starts_with("Usage: block-duplicator --src <path> --dst <path>"));
    assert!(u.contains("prefix \\\\.\\ implies block; tcp:// implies network; .vhdx implies vhdx; otherwise file."));
}

#[test]
fn elevation_is_needed_for_raw_devices() {
    assert!(!windows_operation_requests_elevation(false, BackendKind::File, BackendKind::File));
    assert!(windows_operation_requests_elevation(true, BackendKind::File, BackendKind::File));
    assert!(windows_operation_requests_elevation(false, BackendKind::Block, BackendKind::File));
    assert!(windows_operation_requests_elevation(false, BackendKind::File, BackendKind::Vhdx));
    assert!(!windows_operation_requests_elevation(false, BackendKind::Vhdx, BackendKind::Network));
    assert!(!unix_operation_requires_root(false, BackendKind::File, BackendKind::Vhdx));
    assert!(unix_operation_requires_root(false, BackendKind::File, BackendKind::Block));
}

#[test]
fn vhdx_size_prefers_the_given_size() {
    assert_eq!(resolve_vhdx_size(Some(5), Some(7)), Some(5));
    assert_eq!(resolve_vhdx_size(None, Some(7)), Some(7));
    assert_eq!(resolve_vhdx_size(None, Some(0)), None);
    assert_eq!(resolve_vhdx_size(Some(0), Some(7)), None);
    assert_eq!(resolve_vhdx_size(None, None), None);
}

#[test]
fn progress_is_throttled() {
    assert!(!should_draw_progress(0, 0, 1000));
    assert!(!should_draw_progress(5, 10, 124));
    assert!(should_draw_progress(5, 10, 125));
    assert!(should_draw_progress(10, 10, 0));
}

#[test]
fn worker_command_line_starts_the_worker() {
    let line = block_duplicator::wire::worker_arguments(4242, 77);
    let mut argv = vec!["bd.exe".to_string()];
    argv.extend(line.split(' ').map(|s| s.to_string()));
    let args = parse_args(argv).expect("the worker's command line parses");
    assert!(args.worker_mode);
    assert_eq!(args.worker_port, Some(4242));
    assert_eq!(args.worker_token, Some(77));
}

#[test]
fn cli_errors_have_their_messages() {
    assert_eq!(CliError::MissingValue(CliFlag::ChunkSize).message(), "Missing value for --chunk-size");
    assert_eq!(
        CliError::InvalidBackendKind("tape".to_string()).message(),
        "Invalid backend kind 'tape'. Expected: file|block|vhdx|network"
    );
    assert_eq!(
        CliError::InvalidNumber { flag: CliFlag::BdPort, raw: "x".to_string() }.message(),
        "Invalid --bd-port value: x"
    );
    assert_eq!(CliError::ChunkSizeZero.message(), "--chunk-size must be greater than 0");
    assert_eq!(CliError::VhdxSizeZero.message(), "--vhdx-size-bytes must be greater than 0");
    assert_eq!(CliError::UnknownArgument("--x".to_string()).message(), "Unknown argument: --x");
    assert_eq!(CliError::MissingSrc.message(), "Missing required --src <path>");
    assert_eq!(CliError::MissingDst.message(), "Missing required --dst <path>");
}
