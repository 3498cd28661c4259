use cntr::idmap::{IdMap, IdRange, OVERFLOW_ID};

fn range(ns_start: u32, host_start: u32, length: u32) -> IdRange {
    IdRange { ns_start, host_start, length }
}

#[test]
fn empty_map_sends_every_id_to_overflow() {
    let m = IdMap::empty();
    for id in [0u32, 1, 1000, 65534, u32::MAX] {
        assert_eq!(m.map_id_up(id), OVERFLOW_ID);
        assert_eq!(m.map_id_down(id), OVERFLOW_ID);
    }
    let m = IdMap::from_ranges(vec![]).unwrap();
    assert_eq!(m.map_id_up(0), 65534);
}

#[test]
fn host_pid_maps_to_one_inside_namespace() {
    let m = IdMap::from_ranges(vec![range(0, 12344, 65536)]).unwrap();
    assert_eq!(m.map_id_up(12345), 1);
    assert_eq!(m.map_id_up(12344), 0);
    assert_eq!(m.map_id_down(1), 12345);
}

#[test]
fn up_then_down_gives_the_id_back() {
    let m = IdMap::from_ranges(vec![range(0, 100000, 1000), range(1000, 5000, 10), range(2000, 0, 1)])
        .unwrap();
    for h in [100000u32, 100999, 100500, 5000, 5009, 0] {
        let n = m.map_id_up(h);
        assert_ne!(n, OVERFLOW_ID);
        assert_eq!(m.map_id_down(n), h);
    }
    assert_eq!(m.map_id_up(5003), 1003);
    assert_eq!(m.map_id_up(0), 2000);
}

#[test]
fn ids_outside_every_range_overflow() {
    let m = IdMap::from_ranges(vec![range(0, 1000, 10)]).unwrap();
    assert_eq!(m.map_id_up(999), OVERFLOW_ID);
    assert_eq!(m.map_id_up(1010), OVERFLOW_ID);
    assert_eq!(m.map_id_down(10), OVERFLOW_ID);
    assert_eq!(m.map_id_down(9), 1009);
}

#[test]
fn whole_id_space_maps_to_itself() {
    let m = IdMap::from_ranges(vec![range(0, 0, u32::MAX)]).unwrap();
    assert_eq!(m.map_id_up(u32::MAX - 1), u32::MAX - 1);
    assert_eq!(m.map_id_down(42), 42);
    assert_eq!(m.map_id_up(u32::MAX), OVERFLOW_ID);
}

#[test]
fn overlapping_ranges_are_refused() {
    assert!(IdMap::from_ranges(vec![range(0, 0, 10), range(5, 100, 10)]).is_err());
    assert!(IdMap::from_ranges(vec![range(0, 0, 10), range(20, 5, 10)]).is_err());
    let e = IdMap::from_ranges(vec![range(20, 0, 10), range(15, 100, 10)]).err().unwrap();
    assert_eq!(e.description(), "id map ranges overlap");
}

#[test]
fn ranges_past_the_id_space_are_refused() {
    let r = IdMap::from_ranges(vec![range(u32::MAX, 0, 2)]);
    assert_eq!(r.err().unwrap().description(), "id map range exceeds the id space");
    assert!(IdMap::from_ranges(vec![range(0, u32::MAX - 1, 3)]).is_err());
}

#[test]
fn ranges_are_kept_in_order() {
    let m = IdMap::from_ranges(vec![range(0, 10, 1), range(1, 20, 1)]).unwrap();
    assert_eq!(m.ranges().len(), 2);
    assert_eq!(m.ranges()[1], range(1, 20, 1));
}

#[test]
fn proc_file_text_is_parsed() {
    let text = b"         0     100000      65536\n     65536          0          1\n".to_vec();
    let m = IdMap::parse(&text).unwrap();
    assert_eq!(m.ranges().clone(), vec![range(0, 100000, 65536), range(65536, 0, 1)]);
    assert_eq!(m.map_id_up(100000), 0);
    assert_eq!(m.map_id_up(0), 65536);
    assert_eq!(m.map_id_down(65535), 165535);
}

#[test]
fn identity_map_of_the_initial_namespace_is_parsed() {
    let m = IdMap::parse(&b"0 0 4294967295".to_vec()).unwrap();
    assert_eq!(m.map_id_up(1000), 1000);
    let m = IdMap::parse(&Vec::new()).unwrap();
    assert_eq!(m.ranges().len(), 0);
    assert_eq!(m.map_id_up(0), OVERFLOW_ID);
}

#[test]
fn malformed_proc_text_is_refused() {
    for bad in [
        &b"0 0\n"[..],
        b"0 0 1 2\n",
        b"0 x 1\n",
        b"-1 0 1\n",
        b"0 0 4294967296\n",
        b"0 0 1\n\n",
        b"\n",
        b"0,0,1\n",
    ] {
        let e = IdMap::parse(&bad.to_vec()).err().unwrap();
        assert_eq!(e.description(), "malformed id map line");
    }
    let e = IdMap::parse(&b"0 0 10\n5 100 10\n".to_vec()).err().unwrap();
    assert_eq!(e.description(), "id map ranges overlap");
}

#[test]
fn unmapped_ids_are_reported() {
    let m = IdMap::from_ranges(vec![range(0, 1000, 10)]).unwrap();
    assert!(m.maps_host_id(1000));
    assert!(m.maps_host_id(1009));
    assert!(!m.maps_host_id(1010));
    assert!(!m.maps_host_id(999));
    assert!(m.maps_ns_id(0));
    assert!(!m.maps_ns_id(10));
    assert!(!IdMap::empty().maps_host_id(0));
}

#[test]
fn ranges_out_of_order_are_sorted() {
    let m = IdMap::from_ranges(vec![range(20, 0, 10), range(0, 100, 10), range(10, 50, 5)]).unwrap();
    assert_eq!(m.ranges().clone(), vec![range(0, 100, 10), range(10, 50, 5), range(20, 0, 10)]);
    assert_eq!(m.map_id_up(3), 23);
    assert_eq!(m.map_id_down(12), 52);
    let m = IdMap::parse(&b"1000 2000 1
0 1000 1
".to_vec()).unwrap();
    assert_eq!(m.ranges().clone(), vec![range(0, 1000, 1), range(1000, 2000, 1)]);
    assert_eq!(m.map_id_up(2000), 1000);
}
