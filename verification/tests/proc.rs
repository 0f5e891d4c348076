use procinject::proc::Proc;
use procinject::Error;

fn lines(ls: &[&str]) -> Vec<String> {
    ls.iter().map(|l| String::from(*l)).collect()
}

#[test]
fn load_parses_every_line_in_order() {
    let ls = lines(&[
        "1000-2000 r-xp 0 fd:01 10 /usr/bin/cat",
        "3000-4000 rw-p 0 00:00 0 [heap]",
        "5000-6000 rw-p 0 00:00 0",
    ]);
    let map = Proc::new(42, &ls).unwrap();
    assert_eq!(map.pid, 42);
    assert_eq!(map.regions.len(), 3);
    assert_eq!(map.regions[0].start_address, 0x1000);
    assert_eq!(map.regions[1].pathname, "[heap]");
    assert_eq!(map.regions[2].pathname, "");
}

#[test]
fn one_malformed_line_fails_the_whole_load() {
    let ls = lines(&[
        "1000-2000 r-xp 0 fd:01 10 /usr/bin/cat",
        "not a region line at all",
    ]);
    match Proc::new(42, &ls) {
        Err(Error::ParseError) => {},
        other => panic!("expected ParseError, found {:?}", other.map(|p| p.pid)),
    }
}

#[test]
fn reset_replaces_the_whole_region_list() {
    let first = lines(&["1000-2000 r-xp 0 00:00 0"]);
    let second = lines(&["3000-4000 rw-p 0 00:00 0", "5000-6000 r--p 0 00:00 0"]);
    let mut map = Proc::new(7, &first).unwrap();
    map.reset_regions(&second).unwrap();
    assert_eq!(map.pid, 7);
    assert_eq!(map.regions.len(), 2);
    assert_eq!(map.regions[0].start_address, 0x3000);
}

#[test]
fn failed_reset_leaves_the_map_untouched() {
    let first = lines(&["1000-2000 r-xp 0 00:00 0"]);
    let bad = lines(&["3000-4000 rw-p 0 00:00 0", "broken"]);
    let mut map = Proc::new(7, &first).unwrap();
    assert!(matches!(map.reset_regions(&bad), Err(Error::ParseError)));
    assert_eq!(map.regions.len(), 1);
    assert_eq!(map.regions[0].start_address, 0x1000);
}

#[test]
fn optain_regions_yields_one_region_per_line() {
    let ls = lines(&["1000-2000 r-xp 0 00:00 0", "3000-4000 rw-p 0 00:00 0"]);
    let regions = Proc::optain_regions(&ls).unwrap();
    assert_eq!(regions.len(), 2);
    assert_eq!(regions[1].start_address, 0x3000);
}
