use proc_maps::{
    map_containing_addr, maps_contain_addr, maps_contain_addr_range, parse_proc_maps, MapRange,
    MapRangeImpl, ParseError,
};

fn region(start: usize, end: usize) -> MapRange {
    MapRange::new(start, end, 0, "00:00".to_string(), "rw-p".to_string(), 0, None).unwrap()
}

#[test]
fn records_keep_line_order_and_nonempty_ranges() {
    let text = "1000-2000 r--p 00000000 08:01 11 /a\n0500-0600 rw-p 0 08:01 12 /b\n3000-4000 r-xp 10 08:01 13\n";
    let v = parse_proc_maps(text).unwrap();
    assert_eq!(v.len(), 3);
    assert_eq!(v[0].start(), 0x1000);
    assert_eq!(v[1].start(), 0x500);
    assert_eq!(v[2].start(), 0x3000);
    for m in &v {
        assert!(m.start() < m.end());
    }
}

#[test]
fn fields_are_decoded_exactly() {
    let v = parse_proc_maps("7f438050-7f438060 r--p 0000abcd fd:01 59034409 /lib/x.so (deleted)").unwrap();
    assert_eq!(v.len(), 1);
    let m = &v[0];
    assert_eq!(m.start(), 0x7f438050);
    assert_eq!(m.end(), 0x7f438060);
    assert_eq!(m.size(), 0x10);
    assert_eq!(m.offset(), 0xabcd);
    assert_eq!(m.dev(), "fd:01");
    assert_eq!(m.flags(), "r--p");
    assert_eq!(m.inode(), 59034409);
    assert_eq!(m.filename(), Some("/lib/x.so (deleted)"));
}

#[test]
fn path_tokens_are_rejoined_with_single_spaces() {
    let v = parse_proc_maps("1000-2000 r--p 0 00:00 0   my\t lib   name  \n").unwrap();
    assert_eq!(v[0].filename(), Some("my lib name"));
}

#[test]
fn no_path_field_gives_none() {
    let v = parse_proc_maps("1000-2000 r--p 0 00:00 0    \n").unwrap();
    assert_eq!(v[0].filename(), None);
}

#[test]
fn pseudo_path_is_kept_verbatim() {
    let v = parse_proc_maps("1000-2000 rw-p 0 00:00 0 [stack]").unwrap();
    assert_eq!(v[0].filename(), Some("[stack]"));
}

#[test]
fn uppercase_hex_and_plus_sign_are_read() {
    let v = parse_proc_maps("ABC-+DEF rw-p +1F 00:00 +42").unwrap();
    assert_eq!(v[0].start(), 0xabc);
    assert_eq!(v[0].end(), 0xdef);
    assert_eq!(v[0].offset(), 0x1f);
    assert_eq!(v[0].inode(), 42);
}

#[test]
fn permission_predicates_read_fixed_positions() {
    let v = parse_proc_maps("1000-2000 r-xp 0 00:00 0\n2000-3000 -w-s 0 00:00 0\n").unwrap();
    assert!(v[0].is_read());
    assert!(!v[0].is_write());
    assert!(v[0].is_exec());
    assert!(!v[1].is_read());
    assert!(v[1].is_write());
    assert!(!v[1].is_exec());
}

#[test]
fn empty_listing_gives_no_records() {
    assert_eq!(parse_proc_maps("").unwrap().len(), 0);
    assert_eq!(parse_proc_maps("\n\n").unwrap().len(), 0);
}

#[test]
fn blank_line_ends_the_listing() {
    let v = parse_proc_maps("1000-2000 r--p 0 00:00 0\n   \nnot a valid line\n").unwrap();
    assert_eq!(v.len(), 1);
}

#[test]
fn bad_hex_range_fails_whole_parse() {
    let text = "1000-2000 r--p 0 00:00 0\nzz00-3000 r--p 0 00:00 0\n3000-4000 r--p 0 00:00 0\n";
    assert_eq!(parse_proc_maps(text), Err(ParseError { line: 1 }));
}

#[test]
fn missing_dash_fails() {
    assert_eq!(parse_proc_maps("10002000 r--p 0 00:00 0"), Err(ParseError { line: 0 }));
}

#[test]
fn too_few_fields_fail() {
    assert_eq!(parse_proc_maps("1000-2000 r--p 0 00:00"), Err(ParseError { line: 0 }));
}

#[test]
fn non_decimal_inode_fails() {
    assert_eq!(parse_proc_maps("1000-2000 r--p 0 00:00 1a"), Err(ParseError { line: 0 }));
}

#[test]
fn short_permissions_fail() {
    assert_eq!(parse_proc_maps("1000-2000 rw 0 00:00 0"), Err(ParseError { line: 0 }));
}

#[test]
fn empty_or_reversed_range_fails() {
    assert_eq!(parse_proc_maps("2000-2000 r--p 0 00:00 0"), Err(ParseError { line: 0 }));
    assert_eq!(parse_proc_maps("3000-2000 r--p 0 00:00 0"), Err(ParseError { line: 0 }));
}

#[test]
fn hex_overflow_fails() {
    assert_eq!(
        parse_proc_maps("1000-1ffffffffffffffffffff r--p 0 00:00 0"),
        Err(ParseError { line: 0 })
    );
}

#[test]
fn start_is_held_end_is_not() {
    let v = vec![region(0x1000, 0x2000), region(0x3000, 0x4000)];
    assert!(maps_contain_addr(0x1000, &v));
    assert!(maps_contain_addr(0x1fff, &v));
    assert!(!maps_contain_addr(0x2000, &v));
    assert!(!maps_contain_addr(0x4000, &v));
}

#[test]
fn end_is_held_where_next_region_starts() {
    let v = vec![region(0x1000, 0x2000), region(0x2000, 0x3000)];
    assert!(maps_contain_addr(0x2000, &v));
}

#[test]
fn empty_range_is_never_held() {
    let v = vec![region(0x1000, 0x2000)];
    assert!(!maps_contain_addr_range(0x1000, 0, &v));
    assert!(!maps_contain_addr_range(0x1800, 0, &v));
}

#[test]
fn whole_region_is_held_one_more_is_not() {
    let v = vec![region(0x1000, 0x2000), region(0x2000, 0x3000)];
    assert!(maps_contain_addr_range(0x1000, 0x1000, &v));
    assert!(!maps_contain_addr_range(0x1000, 0x1001, &v));
    assert!(!maps_contain_addr_range(0x1fff, 2, &v));
}

#[test]
fn overflowing_range_is_not_held() {
    let v = vec![region(0x1000, usize::MAX)];
    assert!(!maps_contain_addr_range(0x1000, usize::MAX, &v));
    assert!(!maps_contain_addr_range(usize::MAX, 1, &v));
    assert!(maps_contain_addr_range(0x1000, usize::MAX - 0x1000, &v));
}

#[test]
fn lookup_returns_holding_region() {
    let v = vec![region(0x1000, 0x2000), region(0x3000, 0x4000)];
    assert_eq!(map_containing_addr(0x3500, &v).map(|m| m.start()), Some(0x3000));
    assert!(map_containing_addr(0x2500, &v).is_none());
}

#[test]
fn constructor_rejects_invalid_records() {
    assert!(MapRange::new(5, 5, 0, String::new(), "rw-p".to_string(), 0, None).is_none());
    assert!(MapRange::new(6, 5, 0, String::new(), "rw-p".to_string(), 0, None).is_none());
    assert!(MapRange::new(5, 6, 0, String::new(), "rw".to_string(), 0, None).is_none());
    let m = MapRange::new(5, 6, 0, String::new(), "rw-".to_string(), 0, None).unwrap();
    assert_eq!(m.clone(), m);
}
