//! The rules of the VHDX destination: how large an image to create, the
//! diskpart and PowerShell text that create, locate and detach it, and how
//! the disk number PowerShell prints is read.

use vstd::prelude::*;
use vstd::string::StringExecFns;

use crate::cli::{has_device_prefix, lemma_device_prefix_is_block, spec_infer_backend_kind, BackendKind};
use crate::text::{
    all_digits, all_whitespace, chars_of, decimal_digits, decimal_value, lemma_decimal_roundtrip,
    lemma_trimmed_decimal_roundtrip, parse_unsigned_range, push_char, push_decimal, spec_parse_unsigned,
    spec_trim, trim_bounds,
};

verus! {

/// Why a VHDX destination could not be set up.
#[derive(Debug, Clone, Copy)]
pub enum VhdxError {
    /// A VHDX image of zero bytes was asked for.
    ZeroSize,
    /// PowerShell's answer was not a disk number.
    UnparsableDiskNumber,
}

pub const MIB: u64 = 1048576;

/// The smallest image diskpart is asked for, in MiB.
pub const MIN_IMAGE_MB: u64 = 8;

/// The image size in MiB for a non-empty source of `size_bytes`: rounded
/// up to whole MiB and at least `MIN_IMAGE_MB`.
pub open spec fn spec_vhdx_size_mb(size_bytes: u64) -> u64 {
    if (size_bytes + (MIB - 1)) / MIB as int >= MIN_IMAGE_MB {
        ((size_bytes + (MIB - 1)) / MIB as int) as u64
    } else {
        MIN_IMAGE_MB
    }
}

/// The image size in MiB for `size_bytes`: rounded up to whole MiB and at
/// least `MIN_IMAGE_MB`; zero bytes are refused.
pub fn vhdx_size_mb(size_bytes: u64) -> (r: Result<u64, VhdxError>)
    requires
        size_bytes + (MIB - 1) <= u64::MAX,
    ensures
        size_bytes == 0 ==> r matches Err(VhdxError::ZeroSize),
        size_bytes > 0 ==> r == Ok::<u64, VhdxError>(spec_vhdx_size_mb(size_bytes)),
{
    if size_bytes == 0 {
        return Err(VhdxError::ZeroSize);
    }
    let mb = (size_bytes + (MIB - 1)) / MIB;
    if mb >= MIN_IMAGE_MB {
        Ok(mb)
    } else {
        Ok(MIN_IMAGE_MB)
    }
}

/// The image is large enough and no larger than it must be: it holds
/// every byte of the source, is at least `MIN_IMAGE_MB`, and is either that
/// minimum or one MiB less would not hold the source.
pub proof fn lemma_image_fits_source(size_bytes: u64)
    requires
        size_bytes > 0,
        size_bytes + (MIB - 1) <= u64::MAX,
    ensures
        spec_vhdx_size_mb(size_bytes) * MIB >= size_bytes,
        spec_vhdx_size_mb(size_bytes) >= MIN_IMAGE_MB,
        spec_vhdx_size_mb(size_bytes) == MIN_IMAGE_MB || (spec_vhdx_size_mb(size_bytes) - 1) * MIB
            < size_bytes,
{
    let b = size_bytes as int;
    let q = (b + 1048575) / 1048576;
    assert(q * 1048576 >= b && (q - 1) * 1048576 < b) by (nonlinear_arith)
        requires
            q == (b + 1048575) / 1048576,
            b > 0,
    ;
    if q < 8 {
        assert(8 * 1048576 >= b);
    }
}

/// `s` with every single quote doubled, for use inside a PowerShell
/// single-quoted string.
pub open spec fn spec_ps_single_quoted(s: Seq<char>) -> Seq<char>
    decreases s.len(),
{
    if s.len() == 0 {
        Seq::empty()
    } else {
        spec_ps_single_quoted(s.drop_last()) + (if s.last() == '\'' {
            seq!['\'', '\'']
        } else {
            seq![s.last()]
        })
    }
}

/// How PowerShell reads the inside of a single-quoted string: a doubled
/// quote stands for one quote.
pub open spec fn spec_ps_unquote(s: Seq<char>) -> Seq<char>
    decreases s.len(),
{
    if s.len() == 0 {
        Seq::empty()
    } else if s.len() >= 2 && s[0] == '\'' && s[1] == '\'' {
        seq!['\''] + spec_ps_unquote(s.skip(2))
    } else {
        seq![s[0]] + spec_ps_unquote(s.drop_first())
    }
}

proof fn lemma_ps_unquote_prefix(s: Seq<char>, t: Seq<char>)
    ensures
        spec_ps_unquote(spec_ps_single_quoted(s) + t) == s + spec_ps_unquote(t),
    decreases s.len(),
{
    if s.len() == 0 {
        assert(spec_ps_single_quoted(s) + t =~= t);
        assert(s + spec_ps_unquote(t) =~= spec_ps_unquote(t));
    } else {
        let c = s.last();
        let q = if c == '\'' { seq!['\'', '\''] } else { seq![c] };
        lemma_ps_unquote_prefix(s.drop_last(), q + t);
        assert(spec_ps_single_quoted(s) + t =~= spec_ps_single_quoted(s.drop_last()) + (q + t));
        if c == '\'' {
            assert((q + t).skip(2) =~= t);
        } else {
            assert((q + t).drop_first() =~= t);
        }
        assert(spec_ps_unquote(q + t) =~= seq![c] + spec_ps_unquote(t));
        assert(s.drop_last() + (seq![c] + spec_ps_unquote(t)) =~= s + spec_ps_unquote(t));
    }
}

/// PowerShell reads a quoted path back as the path itself.
pub proof fn lemma_ps_quote_roundtrip(s: Seq<char>)
    ensures
        spec_ps_unquote(spec_ps_single_quoted(s)) == s,
{
    lemma_ps_unquote_prefix(s, Seq::empty());
    assert(spec_ps_single_quoted(s) + Seq::<char>::empty() =~= spec_ps_single_quoted(s));
    assert(s + Seq::<char>::empty() =~= s);
}

/// Doubles every single quote of `s` (`s.replace('\'', "''")`).
pub fn ps_single_quoted(s: &str) -> (r: String)
    ensures
        r@ == spec_ps_single_quoted(s@),
{
    let cs = chars_of(s);
    let mut r = String::new();
    let mut i: usize = 0;
    while i < cs.len()
        invariant
            i <= cs@.len(),
            cs@ == s@,
            r@ == spec_ps_single_quoted(cs@.take(i as int)),
        decreases cs@.len() - i,
    {
        let c = cs[i];
        assert(cs@.take(i + 1).drop_last() =~= cs@.take(i as int));
        if c == '\'' {
            push_char(&mut r, '\'');
            push_char(&mut r, '\'');
            assert(r@ =~= spec_ps_single_quoted(cs@.take(i + 1)));
        } else {
            push_char(&mut r, c);
            assert(r@ =~= spec_ps_single_quoted(cs@.take(i + 1)));
        }
        i = i + 1;
    }
    assert(cs@.take(cs@.len() as int) =~= cs@);
    r
}

/// The diskpart script that creates an expandable image of `size_mb` MiB
/// at `image_path` and attaches it.
pub open spec fn spec_diskpart_create_script(image_path: Seq<char>, size_mb: u64) -> Seq<char> {
    "create vdisk file=\""@ + image_path + "\" maximum="@ + decimal_digits(size_mb as nat)
        + " type=expandable\nselect vdisk file=\""@ + image_path + "\"\nattach vdisk\n"@
}

pub fn diskpart_create_script(image_path: &str, size_mb: u64) -> (r: String)
    ensures
        r@ == spec_diskpart_create_script(image_path@, size_mb),
{
    let mut r = String::new();
    r.append("create vdisk file=\"");
    r.append(image_path);
    r.append("\" maximum=");
    push_decimal(&mut r, size_mb);
    r.append(" type=expandable\nselect vdisk file=\"");
    r.append(image_path);
    r.append("\"\nattach vdisk\n");
    r
}

/// The size diskpart is asked for is the requested size in MiB: the script
/// begins with the create command for the image, then `maximum=`, then a
/// run of decimal digits ended by a space whose value is `size_mb`.
pub proof fn lemma_script_asks_for_requested_size(image_path: Seq<char>, size_mb: u64)
    ensures
        ({
            let script = spec_diskpart_create_script(image_path, size_mb);
            let head = "create vdisk file=\""@ + image_path + "\" maximum="@;
            &&& script.take(head.len() as int) == head
            &&& exists|end: int|
                head.len() < end < script.len() && script[end] == ' ' && all_digits(
                    #[trigger] script.subrange(head.len() as int, end),
                ) && decimal_value(script.subrange(head.len() as int, end)) == size_mb
        }),
{
    reveal_strlit(" type=expandable\nselect vdisk file=\"");
    lemma_decimal_roundtrip(size_mb as nat);
    let script = spec_diskpart_create_script(image_path, size_mb);
    let head = "create vdisk file=\""@ + image_path + "\" maximum="@;
    let digits = decimal_digits(size_mb as nat);
    let tail = " type=expandable\nselect vdisk file=\""@ + image_path + "\"\nattach vdisk\n"@;
    assert(script =~= head + digits + tail);
    let end: int = (head.len() + digits.len()) as int;
    assert(script.take(head.len() as int) =~= head);
    assert(script.subrange(head.len() as int, end) =~= digits);
    assert(script[end] == tail[0]);
    assert(tail[0] == ' ');
}

/// The PowerShell command that prints the disk number of the image
/// attached from `image_path`.
pub open spec fn spec_disk_number_query(image_path: Seq<char>) -> Seq<char> {
    "(Get-DiskImage -ImagePath '"@ + spec_ps_single_quoted(image_path)
        + "' -ErrorAction Stop | Get-Disk -ErrorAction Stop).Number"@
}

pub fn disk_number_query(image_path: &str) -> (r: String)
    ensures
        r@ == spec_disk_number_query(image_path@),
{
    let mut r = String::new();
    r.append("(Get-DiskImage -ImagePath '");
    let q = ps_single_quoted(image_path);
    r.append(q.as_str());
    r.append("' -ErrorAction Stop | Get-Disk -ErrorAction Stop).Number");
    r
}

/// The PowerShell command that detaches the image at `image_path`.
pub open spec fn spec_dismount_command(image_path: Seq<char>) -> Seq<char> {
    "Dismount-DiskImage -ImagePath '"@ + spec_ps_single_quoted(image_path)
        + "' -ErrorAction SilentlyContinue"@
}

pub fn dismount_command(image_path: &str) -> (r: String)
    ensures
        r@ == spec_dismount_command(image_path@),
{
    let mut r = String::new();
    r.append("Dismount-DiskImage -ImagePath '");
    let q = ps_single_quoted(image_path);
    r.append(q.as_str());
    r.append("' -ErrorAction SilentlyContinue");
    r
}

/// The disk number in PowerShell's output: the output without surrounding
/// whitespace, parsed as a `u32`.
pub open spec fn spec_parse_disk_number(output: Seq<char>) -> Result<u32, VhdxError> {
    match spec_parse_unsigned(spec_trim(output), u32::MAX as nat) {
        Some(v) => Ok(v as u32),
        None => Err(VhdxError::UnparsableDiskNumber),
    }
}

pub fn parse_disk_number(output: &str) -> (r: Result<u32, VhdxError>)
    ensures
        r == spec_parse_disk_number(output@),
{
    let cs = chars_of(output);
    let (lo, hi) = trim_bounds(&cs);
    match parse_unsigned_range(&cs, lo, hi, u32::MAX as u64) {
        Some(v) => Ok(v as u32),
        None => Err(VhdxError::UnparsableDiskNumber),
    }
}

/// The raw device path of physical disk `disk_number`.
pub open spec fn spec_physical_drive_path(disk_number: u32) -> Seq<char> {
    "\\\\.\\PhysicalDrive"@ + decimal_digits(disk_number as nat)
}

pub fn physical_drive_path(disk_number: u32) -> (r: String)
    ensures
        r@ == spec_physical_drive_path(disk_number),
{
    let mut r = String::new();
    r.append("\\\\.\\PhysicalDrive");
    push_decimal(&mut r, disk_number as u64);
    r
}

/// Every disk number PowerShell can print, in decimal with any whitespace
/// around it, is read back as that number.
pub proof fn lemma_every_disk_number_is_read(n: u32, before: Seq<char>, after: Seq<char>)
    requires
        all_whitespace(before),
        all_whitespace(after),
    ensures
        spec_parse_disk_number(before + decimal_digits(n as nat) + after) == Ok::<u32, VhdxError>(n),
{
    lemma_trimmed_decimal_roundtrip(n as nat, u32::MAX as nat, before, after);
}

/// The device path of a disk names a raw device (its kind is inferred as
/// block on every platform), and after its `\\.\PhysicalDrive` prefix it
/// holds the disk number in decimal.
pub proof fn lemma_physical_drive_path_names_the_disk(disk_number: u32, unix_device_paths: bool)
    ensures
        has_device_prefix(spec_physical_drive_path(disk_number)),
        spec_infer_backend_kind(spec_physical_drive_path(disk_number), unix_device_paths)
            == BackendKind::Block,
        all_digits(spec_physical_drive_path(disk_number).skip(17)),
        decimal_value(spec_physical_drive_path(disk_number).skip(17)) == disk_number,
{
    reveal_strlit("\\\\.\\PhysicalDrive");
    lemma_decimal_roundtrip(disk_number as nat);
    let p = spec_physical_drive_path(disk_number);
    assert("\\\\.\\PhysicalDrive"@.len() == 17);
    assert(p.skip(17) =~= decimal_digits(disk_number as nat));
    assert(p[0] == '\\' && p[1] == '\\' && p[2] == '.' && p[3] == '\\');
    lemma_device_prefix_is_block(p, unix_device_paths);
}

} // verus!
