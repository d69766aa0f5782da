use fstwrapper::algebra::MergeStream;
use fstwrapper::map_index::{
    MapIndex, MapOpItem, MapStream, fst_map_contains, fst_map_get, fst_map_keys, fst_map_len,
    fst_map_make_opbuilder, fst_map_opbuilder_difference, fst_map_opbuilder_intersection,
    fst_map_opbuilder_push, fst_map_opbuilder_symmetricdifference, fst_map_opbuilder_union,
    fst_map_opstream_next, fst_map_stream, fst_map_streambuilder_add_ge,
    fst_map_streambuilder_add_lt, fst_map_streambuilder_finish, fst_map_streambuilder_new,
    fst_map_values, fst_mapstream_next, fst_mapvalues_next, fst_memmapbuilder_finish,
    fst_memmapbuilder_insert, fst_memmapbuilder_new,
};
use fstwrapper::set_index::fst_set_stream_next;
use fstwrapper::util::{ErrorKind, fst_context_new};

fn key(s: &str) -> Vec<u8> {
    s.as_bytes().to_vec()
}

fn build_map(entries: &[(&str, u64)]) -> MapIndex {
    let mut ctx = fst_context_new();
    let mut b = fst_memmapbuilder_new();
    for (k, v) in entries {
        assert!(fst_memmapbuilder_insert(&mut ctx, &mut b, &key(k), *v));
    }
    match fst_memmapbuilder_finish(&mut ctx, b) {
        Some(m) => m,
        None => panic!("memory finish cannot fail"),
    }
}

fn drain_entries(mut st: MapStream) -> Vec<(String, u64)> {
    let mut out = vec![];
    while let Some(it) = fst_mapstream_next(&mut st) {
        out.push((String::from_utf8(it.key).unwrap(), it.value));
    }
    out
}

fn drain_op_items(mut st: MergeStream) -> Vec<(String, Vec<(usize, u64)>)> {
    let mut out = vec![];
    loop {
        let item: Option<MapOpItem> = fst_map_opstream_next(&mut st);
        match item {
            Some(it) => out.push((
                String::from_utf8(it.key).unwrap(),
                it.values.iter().map(|iv| (iv.index, iv.value)).collect(),
            )),
            None => return out,
        }
    }
}

#[test]
fn map_get_present_and_absent() {
    let m = build_map(&[("a", 1), ("b", 2)]);
    let mut ctx = fst_context_new();
    assert_eq!(fst_map_get(&mut ctx, &m, &key("a")), 1);
    assert!(!ctx.has_error);
    assert_eq!(fst_map_get(&mut ctx, &m, &key("c")), 0);
    assert!(ctx.has_error);
    assert_eq!(ctx.error_kind, Some(ErrorKind::KeyError));
    assert_eq!(ctx.error_type, "KeyError");
    // the other entries are unaffected, and a later lookup clears the error
    assert_eq!(fst_map_get(&mut ctx, &m, &key("b")), 2);
    assert!(!ctx.has_error);
    assert_eq!(fst_map_len(&m), 2);
}

#[test]
fn map_insert_requires_strictly_increasing_keys() {
    let mut ctx = fst_context_new();
    let mut b = fst_memmapbuilder_new();
    assert!(fst_memmapbuilder_insert(&mut ctx, &mut b, &key("a"), 1));
    // a repeated key is an error for a map, unlike a set
    assert!(!fst_memmapbuilder_insert(&mut ctx, &mut b, &key("a"), 2));
    assert_eq!(ctx.error_kind, Some(ErrorKind::ConstructionError));
    assert!(!fst_memmapbuilder_insert(&mut ctx, &mut b, &key("A"), 3));
    assert!(fst_memmapbuilder_insert(&mut ctx, &mut b, &key("b"), 4));
    let m = fst_memmapbuilder_finish(&mut ctx, b).unwrap();
    assert_eq!(fst_map_len(&m), 2);
    let mut c2 = fst_context_new();
    assert_eq!(fst_map_get(&mut c2, &m, &key("a")), 1);
    assert_eq!(fst_map_get(&mut c2, &m, &key("b")), 4);
}

#[test]
fn values_cursor_signals_exhaustion_out_of_band() {
    let m = build_map(&[("a", 0), ("b", 7), ("c", 0)]);
    let mut ctx = fst_context_new();
    let mut vs = fst_map_values(&m);
    assert_eq!(fst_mapvalues_next(&mut ctx, &mut vs), 0);
    assert!(!ctx.has_error);
    assert_eq!(fst_mapvalues_next(&mut ctx, &mut vs), 7);
    assert!(!ctx.has_error);
    assert_eq!(fst_mapvalues_next(&mut ctx, &mut vs), 0);
    assert!(!ctx.has_error);
    // the fourth call signals exhaustion, distinguishable from a stored zero
    assert_eq!(fst_mapvalues_next(&mut ctx, &mut vs), 0);
    assert!(ctx.has_error);
    assert_eq!(ctx.error_kind, Some(ErrorKind::ExhaustionSignal));
    assert_eq!(ctx.error_type, "StopIteration");
    assert_eq!(fst_mapvalues_next(&mut ctx, &mut vs), 0);
    assert!(ctx.has_error);
}

#[test]
fn map_stream_and_keys() {
    let m = build_map(&[("a", 1), ("b", 2), ("c", 3)]);
    assert_eq!(
        drain_entries(fst_map_stream(&m)),
        vec![("a".to_string(), 1), ("b".to_string(), 2), ("c".to_string(), 3)]
    );
    let mut ks = fst_map_keys(&m);
    assert_eq!(fst_set_stream_next(&mut ks), Some(key("a")));
    assert_eq!(fst_set_stream_next(&mut ks), Some(key("b")));
    assert_eq!(fst_set_stream_next(&mut ks), Some(key("c")));
    assert!(fst_set_stream_next(&mut ks).is_none());
    assert!(fst_map_contains(&m, &key("b")));
    assert!(!fst_map_contains(&m, &key("z")));
}

#[test]
fn map_range_half_open() {
    let m = build_map(&[("a", 1), ("b", 2), ("c", 3), ("d", 4), ("e", 5)]);
    let sb = fst_map_streambuilder_new(&m);
    let sb = fst_map_streambuilder_add_ge(sb, key("b"));
    let sb = fst_map_streambuilder_add_lt(sb, key("e"));
    let st = fst_map_streambuilder_finish(sb);
    assert_eq!(
        drain_entries(st),
        vec![("b".to_string(), 2), ("c".to_string(), 3), ("d".to_string(), 4)]
    );
}

#[test]
fn map_union_emits_every_occurrence() {
    let m1 = build_map(&[("a", 1), ("b", 2)]);
    let m2 = build_map(&[("a", 3), ("c", 4)]);
    let mut ob = fst_map_make_opbuilder(&m1);
    fst_map_opbuilder_push(&mut ob, &m2);
    let got = drain_op_items(fst_map_opbuilder_union(ob));
    assert_eq!(
        got,
        vec![
            ("a".to_string(), vec![(0, 1), (1, 3)]),
            ("b".to_string(), vec![(0, 2)]),
            ("c".to_string(), vec![(1, 4)]),
        ]
    );
}

#[test]
fn map_intersection_difference_symmetricdifference() {
    let m1 = build_map(&[("a", 1), ("b", 2)]);
    let m2 = build_map(&[("a", 3), ("c", 4)]);

    let mut ob = fst_map_make_opbuilder(&m1);
    fst_map_opbuilder_push(&mut ob, &m2);
    assert_eq!(
        drain_op_items(fst_map_opbuilder_intersection(ob)),
        vec![("a".to_string(), vec![(0, 1), (1, 3)])]
    );

    let mut ob = fst_map_make_opbuilder(&m1);
    fst_map_opbuilder_push(&mut ob, &m2);
    assert_eq!(
        drain_op_items(fst_map_opbuilder_difference(ob)),
        vec![("b".to_string(), vec![(0, 2)])]
    );

    let mut ob = fst_map_make_opbuilder(&m1);
    fst_map_opbuilder_push(&mut ob, &m2);
    assert_eq!(
        drain_op_items(fst_map_opbuilder_symmetricdifference(ob)),
        vec![("b".to_string(), vec![(0, 2)]), ("c".to_string(), vec![(1, 4)])]
    );
}

#[test]
fn map_three_way_symmetricdifference_keeps_odd_occurrences() {
    let m1 = build_map(&[("x", 1)]);
    let m2 = build_map(&[("x", 2), ("y", 20)]);
    let m3 = build_map(&[("x", 3), ("y", 30), ("z", 40)]);
    let mut ob = fst_map_make_opbuilder(&m1);
    fst_map_opbuilder_push(&mut ob, &m2);
    fst_map_opbuilder_push(&mut ob, &m3);
    // x occurs three times (odd, all occurrences carried), y twice, z once
    assert_eq!(
        drain_op_items(fst_map_opbuilder_symmetricdifference(ob)),
        vec![
            ("x".to_string(), vec![(0, 1), (1, 2), (2, 3)]),
            ("z".to_string(), vec![(2, 40)]),
        ]
    );
}

#[test]
fn empty_map() {
    let m = build_map(&[]);
    assert_eq!(fst_map_len(&m), 0);
    assert!(drain_entries(fst_map_stream(&m)).is_empty());
    let mut ctx = fst_context_new();
    let mut vs = fst_map_values(&m);
    assert_eq!(fst_mapvalues_next(&mut ctx, &mut vs), 0);
    assert!(ctx.has_error);
    assert_eq!(ctx.error_kind, Some(ErrorKind::ExhaustionSignal));
}
