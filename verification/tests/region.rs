use procinject::region::{Region, EXEC_PERM, READ_PERM, SHARE_PERM, WRITE_PERM};
use procinject::Error;

#[test]
fn region_first_line_test() {
    let region = Region::from_string("57d96022000-557d96024000 r--p 00000000 fd:01 94634132                   /usr/bin/cat").unwrap();

    assert_eq!(region.start_address, 0x57d96022000);
    assert_eq!(region.end_address, 0x557d96024000);
    assert_eq!(region.perms, 9);
    assert_eq!(region.offset, 0);
    assert_eq!(region.device, "fd:01");
    assert_eq!(region.inode, 94634132);
    assert_eq!(region.pathname, "/usr/bin/cat");
}

#[test]
fn region_second_line_test() {
    let region = Region::from_string("55f7e27d5000-55f7e27f6000 rw-p 00000000 00:00 0                          [heap]").unwrap();

    assert_eq!(region.start_address, 0x55f7e27d5000);
    assert_eq!(region.end_address, 0x55f7e27f6000);
    assert_eq!(region.perms, 11);
    assert_eq!(region.offset, 0);
    assert_eq!(region.device, "00:00");
    assert_eq!(region.inode, 0);
    assert_eq!(region.pathname, "[heap]");
}

#[test]
fn region_third_line_test() {
    let region = Region::from_string("7f02806ff000-7f0280701000 rw-p 00000000 00:00 0").unwrap();

    assert_eq!(region.start_address, 0x7f02806ff000);
    assert_eq!(region.end_address, 0x7f0280701000);
    assert_eq!(region.perms, 11);
    assert_eq!(region.offset, 0);
    assert_eq!(region.device, "00:00");
    assert_eq!(region.inode, 0);
    assert_eq!(region.pathname, "");
}

#[test]
fn perm_characters_map_to_exactly_their_flags() {
    let r = Region::from_string("0-1 r--p 0 00:00 0").unwrap();
    assert_eq!(r.perms, READ_PERM | SHARE_PERM);
    let rw = Region::from_string("0-1 rw-p 0 00:00 0").unwrap();
    assert_eq!(rw.perms, READ_PERM | WRITE_PERM | SHARE_PERM);
    let rwx = Region::from_string("0-1 rwxp 0 00:00 0").unwrap();
    assert_eq!(rwx.perms, READ_PERM | WRITE_PERM | EXEC_PERM | SHARE_PERM);
    let none = Region::from_string("0-1 ---- 0 00:00 0").unwrap();
    assert_eq!(none.perms, 0);
}

#[test]
fn unrecognized_perm_characters_contribute_no_flags() {
    let r = Region::from_string("0-1 rzq- 0 00:00 0").unwrap();
    assert_eq!(r.perms, READ_PERM);
}

#[test]
fn inode_is_decimal_and_addresses_are_hexadecimal() {
    let r = Region::from_string("10-1f r--p 10 fd:01 94634132 /usr/bin/cat").unwrap();
    assert_eq!(r.start_address, 16);
    assert_eq!(r.end_address, 31);
    assert_eq!(r.offset, 16);
    assert_eq!(r.inode, 94634132);
}

#[test]
fn missing_pathname_field_yields_empty_pathname() {
    let r = Region::from_string("0-1 r--p 0 00:00 5").unwrap();
    assert_eq!(r.pathname, "");
    assert_eq!(r.inode, 5);
}

#[test]
fn fewer_than_five_fields_fails_to_parse() {
    assert!(matches!(Region::from_string("0-1 r--p 0 00:00"), Err(Error::ParseError)));
    assert!(matches!(Region::from_string("0-1 r--p 0"), Err(Error::ParseError)));
    assert!(matches!(Region::from_string("0-1"), Err(Error::ParseError)));
    assert!(matches!(Region::from_string(""), Err(Error::ParseError)));
}

#[test]
fn malformed_numeric_fields_fail_to_parse() {
    // non-hexadecimal address
    assert!(Region::from_string("zz-1 r--p 0 00:00 0").is_err());
    // address range that is not exactly two numbers
    assert!(Region::from_string("1 r--p 0 00:00 0 x").is_err());
    assert!(Region::from_string("1-2-3 r--p 0 00:00 0").is_err());
    // non-decimal inode
    assert!(Region::from_string("0-1 r--p 0 00:00 1f").is_err());
    // hexadecimal value too large for an address
    assert!(Region::from_string("ffffffffffffffffff-0 r--p 0 00:00 0").is_err());
}

#[test]
fn parse_is_stable_on_reparsing() {
    let line = "55f7e27d5000-55f7e27f6000 rw-p 00000000 00:00 12 /usr/bin/cat";
    let a = Region::from_string(line).unwrap();
    let b = Region::from_string(line).unwrap();
    assert_eq!(a.start_address, b.start_address);
    assert_eq!(a.end_address, b.end_address);
    assert_eq!(a.perms, b.perms);
    assert_eq!(a.offset, b.offset);
    assert_eq!(a.device, b.device);
    assert_eq!(a.inode, b.inode);
    assert_eq!(a.pathname, b.pathname);
}

#[test]
fn pathname_is_last_field_when_several_remain() {
    let r = Region::from_string("0-1 r--p 0 00:00 0     [stack]").unwrap();
    assert_eq!(r.pathname, "[stack]");
}
