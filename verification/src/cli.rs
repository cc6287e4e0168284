//! Command-line rules: the options, how a backend kind is named or inferred
//! from a path, and the decisions taken before a copy starts.

use vstd::prelude::*;

use crate::text::{
    chars_of, decimal_digits, ends_with, lemma_decimal_roundtrip, lemma_parse_of_decimal, has_prefix, has_prefix_ascii_lowercase, has_suffix_ascii_lowercase,
    lower_all, parse_unsigned, push_text, spec_parse_unsigned, starts_with,
};

verus! {

/// The kinds of backend a path can name.
#[derive(Clone, Copy, Debug)]
pub enum BackendKind {
    File,
    Block,
    Vhdx,
    Network,
}

/// Whether `a` and `b` hold the same characters (`==` on `str`).
pub fn str_eq(a: &str, b: &str) -> (r: bool)
    ensures
        r == (a@ == b@),
{
    let x = chars_of(a);
    let y = chars_of(b);
    if x.len() != y.len() {
        return false;
    }
    let mut i: usize = 0;
    while i < x.len()
        invariant
            i <= x@.len() == y@.len(),
            x@ == a@,
            y@ == b@,
            forall|k: int| 0 <= k < i ==> x@[k] == y@[k],
        decreases x@.len() - i,
    {
        if x[i] != y[i] {
            assert(x@[i as int] != y@[i as int]);
            return false;
        }
        i = i + 1;
    }
    assert(x@ =~= y@);
    true
}

/// The backend kind that a `--src-kind`/`--dst-kind` value names.
pub open spec fn spec_backend_kind(s: Seq<char>) -> Option<BackendKind> {
    if s == "file"@ {
        Some(BackendKind::File)
    } else if s == "block"@ {
        Some(BackendKind::Block)
    } else if s == "vhdx"@ {
        Some(BackendKind::Vhdx)
    } else if s == "network"@ {
        Some(BackendKind::Network)
    } else {
        None
    }
}

fn backend_kind_named(raw: &str) -> (r: Option<BackendKind>)
    ensures
        r == spec_backend_kind(raw@),
{
    if str_eq(raw, "file") {
        Some(BackendKind::File)
    } else if str_eq(raw, "block") {
        Some(BackendKind::Block)
    } else if str_eq(raw, "vhdx") {
        Some(BackendKind::Vhdx)
    } else if str_eq(raw, "network") {
        Some(BackendKind::Network)
    } else {
        None
    }
}

/// The options that take a value.
#[derive(Clone, Copy, Debug)]
pub enum CliFlag {
    SrcKind,
    DstKind,
    ChunkSize,
    VhdxSizeBytes,
    BdPort,
    BdToken,
}

/// Why the command line was refused.
#[derive(Debug)]
pub enum CliError {
    /// An option that takes a value came last.
    MissingValue(CliFlag),
    /// A kind other than `file`, `block`, `vhdx` or `network`.
    InvalidBackendKind(String),
    /// A value that does not parse as the option's number type.
    InvalidNumber { flag: CliFlag, raw: String },
    ChunkSizeZero,
    VhdxSizeZero,
    UnknownArgument(String),
    MissingSrc,
    MissingDst,
}

impl CliFlag {
    /// The option as it is written on the command line.
    pub fn name(&self) -> (r: &'static str)
        ensures
            r@ == self.spec_name(),
    {
        match self {
            CliFlag::SrcKind => "--src-kind",
            CliFlag::DstKind => "--dst-kind",
            CliFlag::ChunkSize => "--chunk-size",
            CliFlag::VhdxSizeBytes => "--vhdx-size-bytes",
            CliFlag::BdPort => "--bd-port",
            CliFlag::BdToken => "--bd-token",
        }
    }

    pub open spec fn spec_name(self) -> Seq<char> {
        match self {
            CliFlag::SrcKind => "--src-kind"@,
            CliFlag::DstKind => "--dst-kind"@,
            CliFlag::ChunkSize => "--chunk-size"@,
            CliFlag::VhdxSizeBytes => "--vhdx-size-bytes"@,
            CliFlag::BdPort => "--bd-port"@,
            CliFlag::BdToken => "--bd-token"@,
        }
    }
}

impl CliError {
    /// The text shown for the error.
    pub fn message(&self) -> (r: String)
        ensures
            r@ == match self {
                CliError::MissingValue(flag) => "Missing value for "@ + flag.spec_name(),
                CliError::InvalidBackendKind(raw) => "Invalid backend kind '"@ + raw@
                    + "'. Expected: file|block|vhdx|network"@,
                CliError::InvalidNumber { flag, raw } => "Invalid "@ + flag.spec_name() + " value: "@
                    + raw@,
                CliError::ChunkSizeZero => "--chunk-size must be greater than 0"@,
                CliError::VhdxSizeZero => "--vhdx-size-bytes must be greater than 0"@,
                CliError::UnknownArgument(arg) => "Unknown argument: "@ + arg@,
                CliError::MissingSrc => "Missing required --src <path>"@,
                CliError::MissingDst => "Missing required --dst <path>"@,
            },
    {
        let mut r = String::new();
        match self {
            CliError::MissingValue(flag) => {
                push_text(&mut r, "Missing value for ");
                push_text(&mut r, flag.name());
            },
            CliError::InvalidBackendKind(raw) => {
                push_text(&mut r, "Invalid backend kind '");
                push_text(&mut r, raw.as_str());
                push_text(&mut r, "'. Expected: file|block|vhdx|network");
            },
            CliError::InvalidNumber { flag, raw } => {
                push_text(&mut r, "Invalid ");
                push_text(&mut r, flag.name());
                push_text(&mut r, " value: ");
                push_text(&mut r, raw.as_str());
            },
            CliError::ChunkSizeZero => {
                push_text(&mut r, "--chunk-size must be greater than 0");
            },
            CliError::VhdxSizeZero => {
                push_text(&mut r, "--vhdx-size-bytes must be greater than 0");
            },
            CliError::UnknownArgument(arg) => {
                push_text(&mut r, "Unknown argument: ");
                push_text(&mut r, arg.as_str());
            },
            CliError::MissingSrc => {
                push_text(&mut r, "Missing required --src <path>");
            },
            CliError::MissingDst => {
                push_text(&mut r, "Missing required --dst <path>");
            },
        }
        r
    }
}

/// Parses a backend kind: `file`, `block`, `vhdx` or `network`.
pub fn parse_backend_kind(raw: &str) -> (r: Result<BackendKind, CliError>)
    ensures
        match spec_backend_kind(raw@) {
            Some(k) => r == Ok::<BackendKind, CliError>(k),
            None => r matches Err(CliError::InvalidBackendKind(s)) && s@ == raw@,
        },
{
    match backend_kind_named(raw) {
        Some(k) => Ok(k),
        None => Err(CliError::InvalidBackendKind(raw.to_owned())),
    }
}

/// The backend a path implies when no kind is given: `\\.\` names a raw
/// device, and so does `/dev/` where `unix_device_paths` holds; `tcp://`
/// (in any ASCII case) names the network; a `.vhdx` ending (in any ASCII
/// case) names a VHDX image; anything else is a file.
pub open spec fn spec_infer_backend_kind(path: Seq<char>, unix_device_paths: bool) -> BackendKind {
    if starts_with(path, "\\\\.\\"@) {
        BackendKind::Block
    } else if unix_device_paths && starts_with(path, "/dev/"@) {
        BackendKind::Block
    } else if starts_with(lower_all(path), "tcp://"@) {
        BackendKind::Network
    } else if ends_with(lower_all(path), ".vhdx"@) {
        BackendKind::Vhdx
    } else {
        BackendKind::File
    }
}

/// Infers the backend kind from a path; `unix_device_paths` says whether
/// `/dev/` paths are raw devices on this platform.
pub fn infer_backend_kind_from_path(path: &str, unix_device_paths: bool) -> (r: BackendKind)
    ensures
        r == spec_infer_backend_kind(path@, unix_device_paths),
{
    if has_prefix(path, "\\\\.\\") {
        BackendKind::Block
    } else if unix_device_paths && has_prefix(path, "/dev/") {
        BackendKind::Block
    } else if has_prefix_ascii_lowercase(path, "tcp://") {
        BackendKind::Network
    } else if has_suffix_ascii_lowercase(path, ".vhdx") {
        BackendKind::Vhdx
    } else {
        BackendKind::File
    }
}

/// The one-line usage text.
pub fn usage() -> (r: &'static str)
    ensures
        r@ == "Usage: block-duplicator --src <path> --dst <path> [--src-kind file|block|network] [--dst-kind file|block|vhdx|network] [--chunk-size <bytes>] [--vhdx-size-bytes <bytes>]\nIf kind is omitted, prefix \\\\.\\ implies block; tcp:// implies network; .vhdx implies vhdx; otherwise file."@,
{
    "Usage: block-duplicator --src <path> --dst <path> [--src-kind file|block|network] [--dst-kind file|block|vhdx|network] [--chunk-size <bytes>] [--vhdx-size-bytes <bytes>]\nIf kind is omitted, prefix \\\\.\\ implies block; tcp:// implies network; .vhdx implies vhdx; otherwise file."
}


/// The parsed command line.
#[derive(Debug)]
pub struct CliArgs {
    pub src: String,
    pub dst: String,
    pub chunk_size: usize,
    pub src_kind: Option<BackendKind>,
    pub dst_kind: Option<BackendKind>,
    pub vhdx_size_bytes: Option<u64>,
    pub require_elevation: bool,
    pub worker_mode: bool,
    pub worker_port: Option<u16>,
    pub worker_token: Option<u64>,
}

/// The options seen so far while the command line is read.
pub struct ArgScan {
    pub src: Option<String>,
    pub dst: Option<String>,
    pub chunk_size: usize,
    pub src_kind: Option<BackendKind>,
    pub dst_kind: Option<BackendKind>,
    pub vhdx_size_bytes: Option<u64>,
    pub require_elevation: bool,
    pub worker_mode: bool,
    pub worker_port: Option<u16>,
    pub worker_token: Option<u64>,
}

/// The default transfer chunk: 1 MiB.
pub const DEFAULT_CHUNK_SIZE: usize = 1048576;

pub open spec fn initial_scan() -> ArgScan {
    ArgScan {
        src: None,
        dst: None,
        chunk_size: DEFAULT_CHUNK_SIZE,
        src_kind: None,
        dst_kind: None,
        vhdx_size_bytes: None,
        require_elevation: false,
        worker_mode: false,
        worker_port: None,
        worker_token: None,
    }
}

/// The argument after position `i`, if there is one.
pub open spec fn value_after(args: Seq<String>, i: int) -> Option<String> {
    if i < args.len() - 1 {
        Some(args[i + 1])
    } else {
        None
    }
}

/// Where reading goes on after an option at `i` that takes a value.
pub open spec fn skip_value(args: Seq<String>, i: int) -> int {
    if i < args.len() - 1 {
        i + 2
    } else {
        args.len() as int
    }
}

/// Reads the options from position `i` on, in order; a later occurrence of
/// an option overrides an earlier one. `--src` and `--dst` as the last
/// argument clear the path they name.
pub open spec fn spec_scan(args: Seq<String>, i: int, st: ArgScan) -> Result<ArgScan, CliError>
    decreases args.len() - i,
{
    if i < 0 || i >= args.len() {
        Ok(st)
    } else {
        let a = args[i]@;
        let j = skip_value(args, i);
        let v = value_after(args, i);
        if a == "--src"@ {
            spec_scan(args, j, ArgScan { src: v, ..st })
        } else if a == "--dst"@ {
            spec_scan(args, j, ArgScan { dst: v, ..st })
        } else if a == "--src-kind"@ || a == "--dst-kind"@ {
            let flag = if a == "--src-kind"@ { CliFlag::SrcKind } else { CliFlag::DstKind };
            match v {
                None => Err(CliError::MissingValue(flag)),
                Some(raw) => match spec_backend_kind(raw@) {
                    None => Err(CliError::InvalidBackendKind(raw)),
                    Some(k) => if a == "--src-kind"@ {
                        spec_scan(args, j, ArgScan { src_kind: Some(k), ..st })
                    } else {
                        spec_scan(args, j, ArgScan { dst_kind: Some(k), ..st })
                    },
                },
            }
        } else if a == "--chunk-size"@ {
            match v {
                None => Err(CliError::MissingValue(CliFlag::ChunkSize)),
                Some(raw) => match spec_parse_unsigned(raw@, usize::MAX as nat) {
                    None => Err(CliError::InvalidNumber { flag: CliFlag::ChunkSize, raw }),
                    Some(n) => if n == 0 {
                        Err(CliError::ChunkSizeZero)
                    } else {
                        spec_scan(args, j, ArgScan { chunk_size: n as usize, ..st })
                    },
                },
            }
        } else if a == "--vhdx-size-bytes"@ {
            match v {
                None => Err(CliError::MissingValue(CliFlag::VhdxSizeBytes)),
                Some(raw) => match spec_parse_unsigned(raw@, u64::MAX as nat) {
                    None => Err(CliError::InvalidNumber { flag: CliFlag::VhdxSizeBytes, raw }),
                    Some(n) => if n == 0 {
                        Err(CliError::VhdxSizeZero)
                    } else {
                        spec_scan(args, j, ArgScan { vhdx_size_bytes: Some(n as u64), ..st })
                    },
                },
            }
        } else if a == "--require-elevation"@ {
            spec_scan(args, i + 1, ArgScan { require_elevation: true, ..st })
        } else if a == "--bd-worker"@ {
            spec_scan(args, i + 1, ArgScan { worker_mode: true, ..st })
        } else if a == "--bd-port"@ {
            match v {
                None => Err(CliError::MissingValue(CliFlag::BdPort)),
                Some(raw) => match spec_parse_unsigned(raw@, u16::MAX as nat) {
                    None => Err(CliError::InvalidNumber { flag: CliFlag::BdPort, raw }),
                    Some(n) => spec_scan(args, j, ArgScan { worker_port: Some(n as u16), ..st }),
                },
            }
        } else if a == "--bd-token"@ {
            match v {
                None => Err(CliError::MissingValue(CliFlag::BdToken)),
                Some(raw) => match spec_parse_unsigned(raw@, u64::MAX as nat) {
                    None => Err(CliError::InvalidNumber { flag: CliFlag::BdToken, raw }),
                    Some(n) => spec_scan(args, j, ArgScan { worker_token: Some(n as u64), ..st }),
                },
            }
        } else {
            Err(CliError::UnknownArgument(args[i]))
        }
    }
}

/// The parsed command line made of the options read and the two paths.
pub open spec fn args_of_scan(st: ArgScan, src: String, dst: String) -> CliArgs {
    CliArgs {
        src,
        dst,
        chunk_size: st.chunk_size,
        src_kind: st.src_kind,
        dst_kind: st.dst_kind,
        vhdx_size_bytes: st.vhdx_size_bytes,
        require_elevation: st.require_elevation,
        worker_mode: st.worker_mode,
        worker_port: st.worker_port,
        worker_token: st.worker_token,
    }
}

/// `path` is the one given, or empty when none was.
pub open spec fn path_or_empty(given: Option<String>, path: String) -> bool {
    match given {
        Some(p) => path == p,
        None => path@ == Seq::<char>::empty(),
    }
}

/// Whether `r` is how `parse_args` reads the command line `args` (the
/// program's name first): the options, then `--src` and `--dst` required,
/// except in worker mode (`--bd-worker`), where a path not given is empty.
pub open spec fn spec_parse_args(args: Seq<String>, r: Result<CliArgs, CliError>) -> bool {
    match spec_scan(args, 1, initial_scan()) {
        Err(e) => r == Err::<CliArgs, CliError>(e),
        Ok(st) => if st.worker_mode {
            &&& r matches Ok(a)
            &&& a == args_of_scan(st, a.src, a.dst)
            &&& path_or_empty(st.src, a.src)
            &&& path_or_empty(st.dst, a.dst)
        } else {
            match st.src {
                None => r == Err::<CliArgs, CliError>(CliError::MissingSrc),
                Some(src) => match st.dst {
                    None => r == Err::<CliArgs, CliError>(CliError::MissingDst),
                    Some(dst) => r == Ok::<CliArgs, CliError>(args_of_scan(st, src, dst)),
                },
            }
        },
    }
}

fn value_at(args: &Vec<String>, i: usize) -> (r: Option<String>)
    requires
        i < args@.len(),
    ensures
        r == value_after(args@, i as int),
{
    if i < args.len() - 1 {
        Some(args[i + 1].clone())
    } else {
        None
    }
}

fn skip_at(args: &Vec<String>, i: usize) -> (r: usize)
    requires
        i < args@.len(),
    ensures
        r == skip_value(args@, i as int),
{
    if i < args.len() - 1 {
        i + 2
    } else {
        args.len()
    }
}

/// Reads the command line; the first argument is the program's name.
pub fn parse_args(args: Vec<String>) -> (r: Result<CliArgs, CliError>)
    ensures
        spec_parse_args(args@, r),
{
    let mut st = ArgScan {
        src: None,
        dst: None,
        chunk_size: DEFAULT_CHUNK_SIZE,
        src_kind: None,
        dst_kind: None,
        vhdx_size_bytes: None,
        require_elevation: false,
        worker_mode: false,
        worker_port: None,
        worker_token: None,
    };
    let n = args.len();
    let mut i: usize = 1;
    if n < 1 {
        i = n;
    }
    while i < n
        invariant
            n == args@.len(),
            i <= n,
            spec_scan(args@, 1, initial_scan()) == spec_scan(args@, i as int, st),
        decreases n - i,
    {
        let a = args[i].as_str();
        let j = skip_at(&args, i);
        let v = value_at(&args, i);
        if str_eq(a, "--src") {
            st.src = v;
            i = j;
        } else if str_eq(a, "--dst") {
            st.dst = v;
            i = j;
        } else if str_eq(a, "--src-kind") || str_eq(a, "--dst-kind") {
            let is_src = str_eq(a, "--src-kind");
            let raw = match v {
                None => {
                    return Err(CliError::MissingValue(if is_src { CliFlag::SrcKind } else { CliFlag::DstKind }));
                },
                Some(raw) => raw,
            };
            match backend_kind_named(raw.as_str()) {
                None => {
                    return Err(CliError::InvalidBackendKind(raw));
                },
                Some(k) => {
                    if is_src {
                        st.src_kind = Some(k);
                    } else {
                        st.dst_kind = Some(k);
                    }
                },
            }
            i = j;
        } else if str_eq(a, "--chunk-size") {
            let raw = match v {
                None => {
                    return Err(CliError::MissingValue(CliFlag::ChunkSize));
                },
                Some(raw) => raw,
            };
            match parse_unsigned(raw.as_str(), usize::MAX as u64) {
                None => {
                    return Err(CliError::InvalidNumber { flag: CliFlag::ChunkSize, raw });
                },
                Some(v) => {
                    if v == 0 {
                        return Err(CliError::ChunkSizeZero);
                    }
                    st.chunk_size = v as usize;
                },
            }
            i = j;
        } else if str_eq(a, "--vhdx-size-bytes") {
            let raw = match v {
                None => {
                    return Err(CliError::MissingValue(CliFlag::VhdxSizeBytes));
                },
                Some(raw) => raw,
            };
            match parse_unsigned(raw.as_str(), u64::MAX) {
                None => {
                    return Err(CliError::InvalidNumber { flag: CliFlag::VhdxSizeBytes, raw });
                },
                Some(v) => {
                    if v == 0 {
                        return Err(CliError::VhdxSizeZero);
                    }
                    st.vhdx_size_bytes = Some(v);
                },
            }
            i = j;
        } else if str_eq(a, "--require-elevation") {
            st.require_elevation = true;
            i = i + 1;
        } else if str_eq(a, "--bd-worker") {
            st.worker_mode = true;
            i = i + 1;
        } else if str_eq(a, "--bd-port") {
            let raw = match v {
                None => {
                    return Err(CliError::MissingValue(CliFlag::BdPort));
                },
                Some(raw) => raw,
            };
            match parse_unsigned(raw.as_str(), u16::MAX as u64) {
                None => {
                    return Err(CliError::InvalidNumber { flag: CliFlag::BdPort, raw });
                },
                Some(v) => {
                    st.worker_port = Some(v as u16);
                },
            }
            i = j;
        } else if str_eq(a, "--bd-token") {
            let raw = match v {
                None => {
                    return Err(CliError::MissingValue(CliFlag::BdToken));
                },
                Some(raw) => raw,
            };
            match parse_unsigned(raw.as_str(), u64::MAX) {
                None => {
                    return Err(CliError::InvalidNumber { flag: CliFlag::BdToken, raw });
                },
                Some(v) => {
                    st.worker_token = Some(v);
                },
            }
            i = j;
        } else {
            return Err(CliError::UnknownArgument(args[i].clone()));
        }
    }
    if st.worker_mode {
        let src = match st.src {
            Some(s) => s,
            None => String::new(),
        };
        let dst = match st.dst {
            Some(d) => d,
            None => String::new(),
        };
        return Ok(
            CliArgs {
                src,
                dst,
                chunk_size: st.chunk_size,
                src_kind: st.src_kind,
                dst_kind: st.dst_kind,
                vhdx_size_bytes: st.vhdx_size_bytes,
                require_elevation: st.require_elevation,
                worker_mode: st.worker_mode,
                worker_port: st.worker_port,
                worker_token: st.worker_token,
            },
        );
    }
    let src = match st.src {
        None => {
            return Err(CliError::MissingSrc);
        },
        Some(s) => s,
    };
    let dst = match st.dst {
        None => {
            return Err(CliError::MissingDst);
        },
        Some(d) => d,
    };
    Ok(
        CliArgs {
            src,
            dst,
            chunk_size: st.chunk_size,
            src_kind: st.src_kind,
            dst_kind: st.dst_kind,
            vhdx_size_bytes: st.vhdx_size_bytes,
            require_elevation: st.require_elevation,
            worker_mode: st.worker_mode,
            worker_port: st.worker_port,
            worker_token: st.worker_token,
        },
    )
}

/// On Windows, whether the operation must run elevated: when asked to, or
/// when it reads a raw device, or writes a raw device or a VHDX image.
pub fn windows_operation_requests_elevation(require_elevation: bool, src: BackendKind, dst: BackendKind) -> (r: bool)
    ensures
        r == (require_elevation || src is Block || dst is Block || dst is Vhdx),
{
    require_elevation || matches!(src, BackendKind::Block) || matches!(dst, BackendKind::Block | BackendKind::Vhdx)
}

/// On Unix, whether the operation needs root: when asked to, or when either
/// end is a raw device.
pub fn unix_operation_requires_root(require_elevation: bool, src: BackendKind, dst: BackendKind) -> (r: bool)
    ensures
        r == (require_elevation || src is Block || dst is Block),
{
    require_elevation || matches!(src, BackendKind::Block) || matches!(dst, BackendKind::Block)
}

/// The size of a VHDX image to create: the one given on the command line,
/// else the source's length when it could be measured; none when that is
/// missing or zero.
pub fn resolve_vhdx_size(requested: Option<u64>, source_len: Option<u64>) -> (r: Option<u64>)
    ensures
        r == (match (if requested is Some { requested } else { source_len }) {
            Some(v) => if v > 0 { Some(v) } else { None },
            None => None,
        }),
{
    let chosen = match requested {
        Some(v) => Some(v),
        None => source_len,
    };
    match chosen {
        Some(v) => if v > 0 { Some(v) } else { None },
        None => None,
    }
}

/// Whether the progress line is redrawn: never for an empty source; at most
/// every 125 ms while the copy runs; always for the final report.
pub fn should_draw_progress(copied: u64, total: u64, millis_since_last_draw: u128) -> (r: bool)
    ensures
        r == (total != 0 && (millis_since_last_draw >= 125 || copied >= total)),
{
    if total == 0 {
        return false;
    }
    if millis_since_last_draw < 125 && copied < total {
        return false;
    }
    true
}


/// The command line the elevated worker is started with,
/// `--bd-worker --bd-port <port> --bd-token <token>`, is read as worker mode
/// with that port and token, and no paths.
pub proof fn lemma_worker_command_line(args: Seq<String>, port: u16, token: u64)
    requires
        args.len() == 6,
        args[1]@ == "--bd-worker"@,
        args[2]@ == "--bd-port"@,
        args[3]@ == decimal_digits(port as nat),
        args[4]@ == "--bd-token"@,
        args[5]@ == decimal_digits(token as nat),
    ensures
        forall|r: Result<CliArgs, CliError>| #[trigger] spec_parse_args(args, r) ==> (r matches Ok(a)
            && a.worker_mode && a.worker_port == Some(port) && a.worker_token == Some(token)
            && a.src@ == Seq::<char>::empty() && a.dst@ == Seq::<char>::empty()),
{
    reveal_strlit("--src");
    reveal_strlit("--dst");
    reveal_strlit("--src-kind");
    reveal_strlit("--dst-kind");
    reveal_strlit("--chunk-size");
    reveal_strlit("--vhdx-size-bytes");
    reveal_strlit("--require-elevation");
    reveal_strlit("--bd-worker");
    reveal_strlit("--bd-port");
    reveal_strlit("--bd-token");
    lemma_parse_of_decimal(port as nat, u16::MAX as nat);
    lemma_parse_of_decimal(token as nat, u64::MAX as nat);
    lemma_decimal_roundtrip(port as nat);
    lemma_decimal_roundtrip(token as nat);
    let d1 = decimal_digits(port as nat);
    let d2 = decimal_digits(token as nat);
    assert(!(d1 == "--src"@) && !(d1 == "--dst"@) && !(d1 == "--src-kind"@) && !(d1 == "--dst-kind"@));
    assert("--bd-worker"@.len() == 11);
    assert("--bd-token"@.len() == 10);
    assert("--src"@.len() == 5 && "--dst"@.len() == 5 && "--chunk-size"@.len() == 12);
    assert("--vhdx-size-bytes"@.len() == 17 && "--require-elevation"@.len() == 19);
    assert("--bd-token"@ != "--src-kind"@) by {
        assert("--bd-token"@[2] != "--src-kind"@[2]);
    };
    assert("--bd-token"@ != "--dst-kind"@) by {
        assert("--bd-token"@[2] != "--dst-kind"@[2]);
    };
    assert("--bd-token"@ != "--bd-port"@) by {
        assert("--bd-token"@.len() != "--bd-port"@.len());
    };
    let st1 = ArgScan { worker_mode: true, ..initial_scan() };
    let st2 = ArgScan { worker_port: Some(port), ..st1 };
    let st3 = ArgScan { worker_token: Some(token), ..st2 };
    assert(spec_scan(args, 6, st3) == Ok::<ArgScan, CliError>(st3));
    assert(spec_scan(args, 4, st2) == spec_scan(args, 6, st3));
    assert(spec_scan(args, 2, st1) == spec_scan(args, 4, st2));
    assert(spec_scan(args, 1, initial_scan()) == spec_scan(args, 2, st1));
}


pub open spec fn scan_wf(st: ArgScan) -> bool {
    st.chunk_size >= 1 && st.vhdx_size_bytes != Some(0u64)
}

proof fn lemma_scan_keeps_wf(args: Seq<String>, i: int, st: ArgScan)
    requires
        scan_wf(st),
    ensures
        spec_scan(args, i, st) matches Ok(end) ==> scan_wf(end),
    decreases args.len() - i,
{
    if 0 <= i < args.len() {
        let a = args[i]@;
        let j = skip_value(args, i);
        let v = value_after(args, i);
        if a == "--src"@ {
            lemma_scan_keeps_wf(args, j, ArgScan { src: v, ..st });
        } else if a == "--dst"@ {
            lemma_scan_keeps_wf(args, j, ArgScan { dst: v, ..st });
        } else if a == "--src-kind"@ || a == "--dst-kind"@ {
            if let Some(raw) = v {
                if let Some(k) = spec_backend_kind(raw@) {
                    lemma_scan_keeps_wf(args, j, ArgScan { src_kind: Some(k), ..st });
                    lemma_scan_keeps_wf(args, j, ArgScan { dst_kind: Some(k), ..st });
                }
            }
        } else if a == "--chunk-size"@ {
            if let Some(raw) = v {
                if let Some(n) = spec_parse_unsigned(raw@, usize::MAX as nat) {
                    if n != 0 {
                        lemma_scan_keeps_wf(args, j, ArgScan { chunk_size: n as usize, ..st });
                    }
                }
            }
        } else if a == "--vhdx-size-bytes"@ {
            if let Some(raw) = v {
                if let Some(n) = spec_parse_unsigned(raw@, u64::MAX as nat) {
                    if n != 0 {
                        lemma_scan_keeps_wf(args, j, ArgScan { vhdx_size_bytes: Some(n as u64), ..st });
                    }
                }
            }
        } else if a == "--require-elevation"@ {
            lemma_scan_keeps_wf(args, i + 1, ArgScan { require_elevation: true, ..st });
        } else if a == "--bd-worker"@ {
            lemma_scan_keeps_wf(args, i + 1, ArgScan { worker_mode: true, ..st });
        } else if a == "--bd-port"@ {
            if let Some(raw) = v {
                if let Some(n) = spec_parse_unsigned(raw@, u16::MAX as nat) {
                    lemma_scan_keeps_wf(args, j, ArgScan { worker_port: Some(n as u16), ..st });
                }
            }
        } else if a == "--bd-token"@ {
            if let Some(raw) = v {
                if let Some(n) = spec_parse_unsigned(raw@, u64::MAX as nat) {
                    lemma_scan_keeps_wf(args, j, ArgScan { worker_token: Some(n as u64), ..st });
                }
            }
        }
    }
}

/// Whatever the command line, an accepted one has a chunk size of at least
/// one byte and never a zero image size.
pub proof fn lemma_parsed_options_are_usable(args: Seq<String>, r: Result<CliArgs, CliError>)
    requires
        spec_parse_args(args, r),
    ensures
        r matches Ok(a) ==> a.chunk_size >= 1 && a.vhdx_size_bytes != Some(0u64),
{
    lemma_scan_keeps_wf(args, 1, initial_scan());
}

/// An argument that names no option, where an option is expected, refuses
/// the command line.
pub proof fn lemma_unknown_argument_refused(args: Seq<String>, i: int, st: ArgScan)
    requires
        0 <= i < args.len(),
        args[i]@ != "--src"@,
        args[i]@ != "--dst"@,
        args[i]@ != "--src-kind"@,
        args[i]@ != "--dst-kind"@,
        args[i]@ != "--chunk-size"@,
        args[i]@ != "--vhdx-size-bytes"@,
        args[i]@ != "--require-elevation"@,
        args[i]@ != "--bd-worker"@,
        args[i]@ != "--bd-port"@,
        args[i]@ != "--bd-token"@,
    ensures
        spec_scan(args, i, st) == Err::<ArgScan, CliError>(CliError::UnknownArgument(args[i])),
{
}

/// A later `--src` or `--dst` replaces an earlier one: reading goes on with
/// the path set to the argument that follows.
pub proof fn lemma_later_path_wins(args: Seq<String>, i: int, st: ArgScan)
    requires
        0 <= i,
        i + 1 < args.len(),
    ensures
        args[i]@ == "--src"@ ==> spec_scan(args, i, st) == spec_scan(args, i + 2, ArgScan { src: Some(args[i + 1]), ..st }),
        args[i]@ == "--dst"@ ==> spec_scan(args, i, st) == spec_scan(
            args,
            i + 2,
            ArgScan { dst: Some(args[i + 1]), ..st },
        ),
{
    reveal_strlit("--src");
    reveal_strlit("--dst");
    assert("--dst"@ != "--src"@) by {
        assert("--dst"@[2] != "--src"@[2]);
    };
}

/// Whether `a` names an option that takes a value.
pub open spec fn takes_value(a: Seq<char>) -> bool {
    ||| a == "--src"@
    ||| a == "--dst"@
    ||| a == "--src-kind"@
    ||| a == "--dst-kind"@
    ||| a == "--chunk-size"@
    ||| a == "--vhdx-size-bytes"@
    ||| a == "--bd-port"@
    ||| a == "--bd-token"@
}

/// Whether reading from position `i` ends exactly at the end of `args`:
/// every option that takes a value has one.
pub open spec fn scan_lands(args: Seq<String>, i: int) -> bool
    decreases args.len() - i,
{
    if i < 0 || i >= args.len() {
        true
    } else if takes_value(args[i]@) {
        i + 1 < args.len() && scan_lands(args, i + 2)
    } else {
        scan_lands(args, i + 1)
    }
}

/// A command line read in two parts: where reading the first part ends at
/// its end, reading both is reading the first, then the second from what
/// the first gave (or the first part's error).
pub proof fn lemma_scan_in_two_parts(first: Seq<String>, second: Seq<String>, i: int, st: ArgScan)
    requires
        0 <= i <= first.len(),
        scan_lands(first, i),
    ensures
        spec_scan(first + second, i, st) == match spec_scan(first, i, st) {
            Ok(s) => spec_scan(first + second, first.len() as int, s),
            Err(e) => Err::<ArgScan, CliError>(e),
        },
    decreases first.len() - i,
{
    reveal_strlit("--require-elevation");
    reveal_strlit("--bd-worker");
    reveal_strlit("--bd-token");
    reveal_strlit("--bd-port");
    let all = first + second;
    if i < first.len() {
        let a = first[i]@;
        assert(all[i] == first[i]);
        if takes_value(a) {
            assert(all[i + 1] == first[i + 1]);
            let v = value_after(first, i);
            assert(value_after(all, i) == v);
            assert(skip_value(all, i) == i + 2);
            assert(skip_value(first, i) == i + 2);
            let raw = first[i + 1];
            if a == "--src"@ {
                lemma_scan_in_two_parts(first, second, i + 2, ArgScan { src: v, ..st });
            } else if a == "--dst"@ {
                lemma_scan_in_two_parts(first, second, i + 2, ArgScan { dst: v, ..st });
            } else if a == "--src-kind"@ || a == "--dst-kind"@ {
                if let Some(k) = spec_backend_kind(raw@) {
                    lemma_scan_in_two_parts(first, second, i + 2, ArgScan { src_kind: Some(k), ..st });
                    lemma_scan_in_two_parts(first, second, i + 2, ArgScan { dst_kind: Some(k), ..st });
                }
            } else if a == "--chunk-size"@ {
                if let Some(n) = spec_parse_unsigned(raw@, usize::MAX as nat) {
                    lemma_scan_in_two_parts(first, second, i + 2, ArgScan { chunk_size: n as usize, ..st });
                }
            } else if a == "--vhdx-size-bytes"@ {
                if let Some(n) = spec_parse_unsigned(raw@, u64::MAX as nat) {
                    lemma_scan_in_two_parts(
                        first,
                        second,
                        i + 2,
                        ArgScan { vhdx_size_bytes: Some(n as u64), ..st },
                    );
                }
            } else if a == "--bd-port"@ {
                assert(a.len() == 9);
                assert(a != "--require-elevation"@) by {
                    assert("--require-elevation"@.len() == 19);
                };
                assert(a != "--bd-worker"@) by {
                    assert("--bd-worker"@.len() == 11);
                };
                if let Some(n) = spec_parse_unsigned(raw@, u16::MAX as nat) {
                    lemma_scan_in_two_parts(first, second, i + 2, ArgScan { worker_port: Some(n as u16), ..st });
                }
            } else {
                assert(a == "--bd-token"@);
                assert(a.len() == 10);
                assert(a != "--require-elevation"@) by {
                    assert("--require-elevation"@.len() == 19);
                };
                assert(a != "--bd-worker"@) by {
                    assert("--bd-worker"@.len() == 11);
                };
                if let Some(n) = spec_parse_unsigned(raw@, u64::MAX as nat) {
                    lemma_scan_in_two_parts(first, second, i + 2, ArgScan { worker_token: Some(n as u64), ..st });
                }
            }
        } else {
            if a == "--require-elevation"@ {
                lemma_scan_in_two_parts(first, second, i + 1, ArgScan { require_elevation: true, ..st });
            } else if a == "--bd-worker"@ {
                lemma_scan_in_two_parts(first, second, i + 1, ArgScan { worker_mode: true, ..st });
            }
        }
    }
}

/// A `--src` or `--dst` given last wins over every earlier one: appending
/// it to a command line that reads to its end gives what that line gave,
/// with the path replaced.
pub proof fn lemma_last_path_wins(args: Seq<String>, flag: String, path: String, s: ArgScan)
    requires
        flag@ == "--src"@ || flag@ == "--dst"@,
        args.len() >= 1,
        scan_lands(args, 1),
        spec_scan(args, 1, initial_scan()) == Ok::<ArgScan, CliError>(s),
    ensures
        flag@ == "--src"@ ==> spec_scan(args + seq![flag, path], 1, initial_scan()) == Ok::<
            ArgScan,
            CliError,
        >(ArgScan { src: Some(path), ..s }),
        flag@ == "--dst"@ ==> spec_scan(args + seq![flag, path], 1, initial_scan()) == Ok::<
            ArgScan,
            CliError,
        >(ArgScan { dst: Some(path), ..s }),
{
    reveal_strlit("--src");
    reveal_strlit("--dst");
    assert("--dst"@ != "--src"@) by {
        assert("--dst"@[2] != "--src"@[2]);
    };
    let all = args + seq![flag, path];
    lemma_scan_in_two_parts(args, seq![flag, path], 1, initial_scan());
    assert(all[args.len() as int] == flag);
    let end = args.len() as int;
    assert(all[end + 1] == path);
    assert(spec_scan(all, end + 2, ArgScan { src: Some(path), ..s }) == Ok::<ArgScan, CliError>(ArgScan { src: Some(path), ..s }));
    assert(spec_scan(all, end + 2, ArgScan { dst: Some(path), ..s }) == Ok::<ArgScan, CliError>(ArgScan { dst: Some(path), ..s }));
}

/// Every image size from 1 to the largest `u64`, written in decimal, is
/// taken as given: `--src s --dst d --vhdx-size-bytes <v>` reads as those
/// two paths and an image size of exactly `v`.
pub proof fn lemma_every_image_size_is_accepted(args: Seq<String>, v: u64)
    requires
        v > 0,
        args.len() == 7,
        args[1]@ == "--src"@,
        args[3]@ == "--dst"@,
        args[5]@ == "--vhdx-size-bytes"@,
        args[6]@ == decimal_digits(v as nat),
    ensures
        forall|r: Result<CliArgs, CliError>| #[trigger] spec_parse_args(args, r) ==> (r matches Ok(a)
            && a.vhdx_size_bytes == Some(v) && a.src == args[2] && a.dst == args[4]
            && !a.worker_mode),
{
    reveal_strlit("--src");
    reveal_strlit("--dst");
    reveal_strlit("--src-kind");
    reveal_strlit("--dst-kind");
    reveal_strlit("--chunk-size");
    reveal_strlit("--vhdx-size-bytes");
    lemma_parse_of_decimal(v as nat, u64::MAX as nat);
    assert("--dst"@ != "--src"@) by {
        assert("--dst"@[2] != "--src"@[2]);
    };
    assert("--vhdx-size-bytes"@.len() == 17);
    assert("--src"@.len() == 5 && "--dst"@.len() == 5 && "--chunk-size"@.len() == 12);
    assert("--src-kind"@.len() == 10 && "--dst-kind"@.len() == 10);
    let st1 = ArgScan { src: Some(args[2]), ..initial_scan() };
    let st2 = ArgScan { dst: Some(args[4]), ..st1 };
    let st3 = ArgScan { vhdx_size_bytes: Some(v), ..st2 };
    assert(spec_scan(args, 7, st3) == Ok::<ArgScan, CliError>(st3));
    assert(spec_scan(args, 5, st2) == spec_scan(args, 7, st3));
    assert(spec_scan(args, 3, st1) == spec_scan(args, 5, st2));
    assert(spec_scan(args, 1, initial_scan()) == spec_scan(args, 3, st1));
}

/// Whether `path` begins with the four characters `\\.\`.
pub open spec fn has_device_prefix(path: Seq<char>) -> bool {
    path.len() >= 4 && path[0] == '\\' && path[1] == '\\' && path[2] == '.' && path[3] == '\\'
}

/// A path that begins with `\\.\` names a raw device, on every platform.
pub proof fn lemma_device_prefix_is_block(path: Seq<char>, unix_device_paths: bool)
    requires
        has_device_prefix(path),
    ensures
        spec_infer_backend_kind(path, unix_device_paths) == BackendKind::Block,
{
    reveal_strlit("\\\\.\\");
    assert(path.take(4) =~= "\\\\.\\"@);
}

/// Only `\\.\`, and `/dev/` where Unix device paths apply, make a path a
/// raw device: any other path (a `\\server\share` path among them) that
/// does not begin with `tcp://` or end with `.vhdx`, in any ASCII case, is
/// a file.
pub proof fn lemma_other_paths_are_files(path: Seq<char>, unix_device_paths: bool)
    requires
        !has_device_prefix(path),
        !(unix_device_paths && starts_with(path, "/dev/"@)),
        !starts_with(lower_all(path), "tcp://"@),
        !ends_with(lower_all(path), ".vhdx"@),
    ensures
        spec_infer_backend_kind(path, unix_device_paths) == BackendKind::File,
{
    reveal_strlit("\\\\.\\");
    if starts_with(path, "\\\\.\\"@) {
        assert(path.take(4) == "\\\\.\\"@);
        assert(path[0] == path.take(4)[0]);
        assert(path[1] == path.take(4)[1]);
        assert(path[2] == path.take(4)[2]);
        assert(path[3] == path.take(4)[3]);
    }
}

/// Every chunk size from 1 to the largest `usize`, written in decimal, is
/// taken as given.
pub proof fn lemma_every_chunk_size_is_accepted(args: Seq<String>, v: usize)
    requires
        v > 0,
        args.len() == 7,
        args[1]@ == "--src"@,
        args[3]@ == "--dst"@,
        args[5]@ == "--chunk-size"@,
        args[6]@ == decimal_digits(v as nat),
    ensures
        forall|r: Result<CliArgs, CliError>| #[trigger] spec_parse_args(args, r) ==> (r matches Ok(a)
            && a.chunk_size == v && a.src == args[2] && a.dst == args[4]),
{
    reveal_strlit("--src");
    reveal_strlit("--dst");
    reveal_strlit("--src-kind");
    reveal_strlit("--dst-kind");
    reveal_strlit("--chunk-size");
    lemma_parse_of_decimal(v as nat, usize::MAX as nat);
    assert("--dst"@ != "--src"@) by {
        assert("--dst"@[2] != "--src"@[2]);
    };
    assert("--chunk-size"@.len() == 12);
    assert("--src"@.len() == 5 && "--dst"@.len() == 5);
    assert("--src-kind"@.len() == 10 && "--dst-kind"@.len() == 10);
    let st1 = ArgScan { src: Some(args[2]), ..initial_scan() };
    let st2 = ArgScan { dst: Some(args[4]), ..st1 };
    let st3 = ArgScan { chunk_size: v, ..st2 };
    assert(spec_scan(args, 7, st3) == Ok::<ArgScan, CliError>(st3));
    assert(spec_scan(args, 5, st2) == spec_scan(args, 7, st3));
    assert(spec_scan(args, 3, st1) == spec_scan(args, 5, st2));
    assert(spec_scan(args, 1, initial_scan()) == spec_scan(args, 3, st1));
}

/// Each backend kind has exactly one name: `file`, `block`, `vhdx` and
/// `network` name four different kinds, and no other text names one.
pub proof fn lemma_kind_names(name: Seq<char>, other: Seq<char>)
    ensures
        spec_backend_kind("file"@) == Some(BackendKind::File),
        spec_backend_kind("block"@) == Some(BackendKind::Block),
        spec_backend_kind("vhdx"@) == Some(BackendKind::Vhdx),
        spec_backend_kind("network"@) == Some(BackendKind::Network),
        spec_backend_kind(name) is Some <==> (name == "file"@ || name == "block"@ || name == "vhdx"@
            || name == "network"@),
        spec_backend_kind(name) is Some && spec_backend_kind(name) == spec_backend_kind(other)
            ==> name == other,
{
    reveal_strlit("file");
    reveal_strlit("block");
    reveal_strlit("vhdx");
    reveal_strlit("network");
    assert("file"@.len() == 4 && "vhdx"@.len() == 4 && "block"@.len() == 5 && "network"@.len() == 7);
    assert("file"@ != "vhdx"@) by {
        assert("file"@[0] != "vhdx"@[0]);
    };
}

/// A path that begins with `tcp://`, in any ASCII case, and not with a
/// device prefix, names the network; one that ends with `.vhdx`, in any
/// ASCII case, and names neither a device nor the network, names an image.
pub proof fn lemma_network_and_image_paths(path: Seq<char>, unix_device_paths: bool)
    requires
        !has_device_prefix(path),
        !(unix_device_paths && starts_with(path, "/dev/"@)),
    ensures
        starts_with(lower_all(path), "tcp://"@) ==> spec_infer_backend_kind(path, unix_device_paths)
            == BackendKind::Network,
        !starts_with(lower_all(path), "tcp://"@) && ends_with(lower_all(path), ".vhdx"@)
            ==> spec_infer_backend_kind(path, unix_device_paths) == BackendKind::Vhdx,
{
    reveal_strlit("\\\\.\\");
    if starts_with(path, "\\\\.\\"@) {
        assert(path.take(4) == "\\\\.\\"@);
        assert(path[0] == path.take(4)[0]);
        assert(path[1] == path.take(4)[1]);
        assert(path[2] == path.take(4)[2]);
        assert(path[3] == path.take(4)[3]);
    }
}

} // verus!
