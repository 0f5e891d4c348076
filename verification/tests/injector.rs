use procinject::injector::{write_plan, Injector};
use procinject::proc::Proc;
use procinject::region::{Region, EXEC_PERM, READ_PERM, SHARE_PERM};
use procinject::runner::Registers;
use procinject::Error;

fn region(start: usize, end: usize, perms: u8) -> Region {
    Region {
        start_address: start,
        end_address: end,
        perms,
        offset: 0,
        device: String::from("00:00"),
        inode: 0,
        pathname: String::new(),
    }
}

fn map_of(regions: Vec<Region>) -> Proc {
    Proc { pid: 1234, regions }
}

#[test]
fn finds_first_executable_region_below_the_limit() {
    let map = map_of(vec![
        region(0x1000, 0x2000, READ_PERM),
        region(0x5000, 0x6000, READ_PERM | EXEC_PERM),
        region(0x7000, 0x8000, READ_PERM | EXEC_PERM),
    ]);
    let injector = Injector::new(1234);
    let found = injector.find_exec_region(&map).unwrap();
    assert_eq!(found.start_address, 0x5000);
    assert_eq!(found.end_address, 0x6000);
}

#[test]
fn never_selects_a_region_at_or_above_the_limit() {
    // the only executable regions start at or above the high-address bound:
    // the search must report that nothing fits, not fall back to them
    let map = map_of(vec![
        region(0x1000, 0x2000, READ_PERM | SHARE_PERM),
        region(0x7000_0000_0000, 0x7000_0000_1000, READ_PERM | EXEC_PERM),
        region(0x7fff_f000_0000, 0x7fff_f000_1000, EXEC_PERM),
    ]);
    let injector = Injector::new(1234);
    match injector.find_exec_region(&map) {
        Err(Error::NotFound) => {},
        other => panic!("expected NotFound, found {:?}", other),
    }
}

#[test]
fn region_just_below_the_limit_qualifies() {
    let map = map_of(vec![region(0x6fff_ffff_f000, 0x7000_0000_0000, EXEC_PERM)]);
    let injector = Injector::new(1);
    let found = injector.find_exec_region(&map).unwrap();
    assert_eq!(found.start_address, 0x6fff_ffff_f000);
}

#[test]
fn empty_map_has_no_scratch_region() {
    let map = map_of(Vec::new());
    let injector = Injector::new(1);
    assert!(matches!(injector.find_exec_region(&map), Err(Error::NotFound)));
}

#[test]
fn new_injector_has_no_payload_region() {
    let injector = Injector::new(77);
    assert_eq!(injector.pid, 77);
    assert_eq!(injector.payload_region, 0);
}

#[test]
fn record_allocation_keeps_the_pid() {
    let mut injector = Injector::new(77);
    injector.record_allocation(0xdead_0000);
    assert_eq!(injector.pid, 77);
    assert_eq!(injector.payload_region, 0xdead_0000);
}

#[test]
fn payload_arg_register_carries_the_region_and_nothing_else_moves() {
    let mut injector = Injector::new(9);
    injector.record_allocation(0xbeef_0000);
    let mut regs = Registers::default();
    regs.rax = 5;
    regs.rip = 0x4242;
    regs.r11 = 1;
    let out = injector.with_payload_arg(&regs);
    assert_eq!(out.r11, 0xbeef_0000);
    assert_eq!(out.rax, 5);
    assert_eq!(out.rip, 0x4242);
    let mut expected = regs;
    expected.r11 = 0xbeef_0000;
    assert_eq!(out, expected);
}

#[test]
fn write_plan_lays_words_out_in_ascending_address_order() {
    let plan = write_plan(0x1000, &vec![0xAA, 0xBB, 0xCC]);
    assert_eq!(plan, vec![(0x1000, 0xAA), (0x1008, 0xBB), (0x1010, 0xCC)]);
}
