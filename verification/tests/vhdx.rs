use block_duplicator::vhdx::{
    diskpart_create_script, disk_number_query, dismount_command, parse_disk_number, physical_drive_path,
    ps_single_quoted, vhdx_size_mb, VhdxError,
};

#[test]
fn image_size_is_rounded_up_to_mib_with_a_floor() {
    assert!(matches!(vhdx_size_mb(0), Err(VhdxError::ZeroSize)));
    assert_eq!(vhdx_size_mb(1).unwrap(), 8);
    assert_eq!(vhdx_size_mb(8 * 1048576).unwrap(), 8);
    assert_eq!(vhdx_size_mb(8 * 1048576 + 1).unwrap(), 9);
    assert_eq!(vhdx_size_mb(100 * 1048576).unwrap(), 100);
}

#[test]
fn quotes_are_doubled() {
    assert_eq!(ps_single_quoted("C:\\it's here\\a.vhdx"), "C:\\it''s here\\a.vhdx");
    assert_eq!(ps_single_quoted("''"), "''''");
    assert_eq!(ps_single_quoted("plain"), "plain");
}

#[test]
fn diskpart_script_creates_and_attaches() {
    assert_eq!(
        diskpart_create_script("C:\\x.vhdx", 9),
        "create vdisk file=\"C:\\x.vhdx\" maximum=9 type=expandable\nselect vdisk file=\"C:\\x.vhdx\"\nattach vdisk\n"
    );
}

#[test]
fn powershell_commands_quote_the_path() {
    assert_eq!(
        disk_number_query("C:\\a'b.vhdx"),
        "(Get-DiskImage -ImagePath 'C:\\a''b.vhdx' -ErrorAction Stop | Get-Disk -ErrorAction Stop).Number"
    );
    assert_eq!(
        dismount_command("C:\\a'b.vhdx"),
        "Dismount-DiskImage -ImagePath 'C:\\a''b.vhdx' -ErrorAction SilentlyContinue"
    );
}

#[test]
fn disk_number_is_read_from_trimmed_output() {
    assert_eq!(parse_disk_number("3\r\n").unwrap(), 3);
    assert_eq!(parse_disk_number("  17 ").unwrap(), 17);
    assert_eq!(parse_disk_number("\u{a0}4\u{3000}").unwrap(), 4);
    assert_eq!(parse_disk_number("4294967295").unwrap(), u32::MAX);
    assert!(matches!(parse_disk_number("4294967296"), Err(VhdxError::UnparsableDiskNumber)));
    assert!(matches!(parse_disk_number(""), Err(VhdxError::UnparsableDiskNumber)));
    assert!(matches!(parse_disk_number("1 2"), Err(VhdxError::UnparsableDiskNumber)));
    for out in ["3\r\n", "  17 ", "", "1 2", "x"] {
        assert_eq!(parse_disk_number(out).ok(), out.trim().parse::<u32>().ok());
    }
}

#[test]
fn physical_drive_path_names_the_disk() {
    assert_eq!(physical_drive_path(2), "\\\\.\\PhysicalDrive2");
}
