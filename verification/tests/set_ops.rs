use fstwrapper::algebra::MergeStream;
use fstwrapper::set_index::{
    SetIndex, SetStream, fst_memsetbuilder_finish, fst_memsetbuilder_insert, fst_memsetbuilder_new,
    fst_set_contains, fst_set_isdisjoint, fst_set_issubset, fst_set_issuperset, fst_set_len,
    fst_set_make_opbuilder, fst_set_make_opbuilder_streambuilder, fst_set_make_opbuilder_union,
    fst_set_opbuilder_difference, fst_set_opbuilder_intersection, fst_set_opbuilder_push,
    fst_set_opbuilder_push_streambuilder, fst_set_opbuilder_push_union, fst_set_opbuilder_symmetricdifference,
    fst_set_opbuilder_union, fst_set_opstream_next, fst_set_stream, fst_set_stream_collect, fst_set_stream_next,
    fst_set_streambuilder_add_ge, fst_set_streambuilder_add_gt, fst_set_streambuilder_add_le,
    fst_set_streambuilder_add_lt, fst_set_streambuilder_finish, fst_set_streambuilder_new,
};
use fstwrapper::util::{ErrorKind, fst_context_new};

fn key(s: &str) -> Vec<u8> {
    s.as_bytes().to_vec()
}

fn build_set(keys: &[&str]) -> SetIndex {
    let mut ctx = fst_context_new();
    let mut b = fst_memsetbuilder_new();
    for k in keys {
        assert!(fst_memsetbuilder_insert(&mut ctx, &mut b, &key(k)));
    }
    match fst_memsetbuilder_finish(&mut ctx, b) {
        Some(s) => s,
        None => panic!("memory finish cannot fail"),
    }
}

fn drain_stream(mut st: SetStream) -> Vec<String> {
    let mut out = vec![];
    while let Some(k) = fst_set_stream_next(&mut st) {
        out.push(String::from_utf8(k).unwrap());
    }
    out
}

fn drain_op(mut st: MergeStream) -> Vec<String> {
    let mut out = vec![];
    while let Some(k) = fst_set_opstream_next(&mut st) {
        out.push(String::from_utf8(k).unwrap());
    }
    out
}

fn op_result(inputs: &[&[&str]], which: &str) -> Vec<String> {
    let sets: Vec<SetIndex> = inputs.iter().map(|ks| build_set(ks)).collect();
    let mut ob = fst_set_make_opbuilder(&sets[0]);
    for s in &sets[1..] {
        fst_set_opbuilder_push(&mut ob, s);
    }
    let st = match which {
        "union" => fst_set_opbuilder_union(ob),
        "intersection" => fst_set_opbuilder_intersection(ob),
        "difference" => fst_set_opbuilder_difference(ob),
        _ => fst_set_opbuilder_symmetricdifference(ob),
    };
    drain_op(st)
}

#[test]
fn builder_then_stream_yields_inserted_keys() {
    let s = build_set(&["apple", "banana", "cherry"]);
    assert_eq!(fst_set_len(&s), 3);
    let st = fst_set_stream(&s);
    assert_eq!(drain_stream(st), vec!["apple", "banana", "cherry"]);
    assert!(fst_set_contains(&s, &key("banana")));
    assert!(!fst_set_contains(&s, &key("durian")));
}

#[test]
fn out_of_order_insert_is_rejected_and_recorded() {
    let mut ctx = fst_context_new();
    let mut b = fst_memsetbuilder_new();
    assert!(fst_memsetbuilder_insert(&mut ctx, &mut b, &key("b")));
    assert!(!fst_memsetbuilder_insert(&mut ctx, &mut b, &key("a")));
    assert!(ctx.has_error);
    assert_eq!(ctx.error_kind, Some(ErrorKind::ConstructionError));
    assert_eq!(ctx.error_type, "ConstructionError");
    assert!(!ctx.error_display.is_empty());
    // the builder is unchanged and still usable
    assert!(fst_memsetbuilder_insert(&mut ctx, &mut b, &key("c")));
    assert!(!ctx.has_error);
    let s = fst_memsetbuilder_finish(&mut ctx, b).unwrap();
    assert_eq!(fst_set_len(&s), 2);
    assert!(!fst_set_contains(&s, &key("a")));
}

#[test]
fn repeated_last_key_is_collapsed() {
    let mut ctx = fst_context_new();
    let mut b = fst_memsetbuilder_new();
    assert!(fst_memsetbuilder_insert(&mut ctx, &mut b, &key("a")));
    assert!(fst_memsetbuilder_insert(&mut ctx, &mut b, &key("a")));
    let s = fst_memsetbuilder_finish(&mut ctx, b).unwrap();
    assert_eq!(fst_set_len(&s), 1);
}

#[test]
fn empty_set_streams_nothing() {
    let s = build_set(&[]);
    assert_eq!(fst_set_len(&s), 0);
    let mut st = fst_set_stream(&s);
    assert!(fst_set_stream_next(&mut st).is_none());
    assert!(!fst_set_contains(&s, &key("a")));
}

#[test]
fn stream_exhaustion_is_idempotent() {
    let s = build_set(&["only"]);
    let mut st = fst_set_stream(&s);
    assert_eq!(fst_set_stream_next(&mut st), Some(key("only")));
    assert!(fst_set_stream_next(&mut st).is_none());
    assert!(fst_set_stream_next(&mut st).is_none());
    assert!(fst_set_stream_next(&mut st).is_none());
}

#[test]
fn pairwise_ops_partial_overlap() {
    let inputs: &[&[&str]] = &[&["a", "b", "c"], &["a", "y", "z"]];
    assert_eq!(op_result(inputs, "union"), vec!["a", "b", "c", "y", "z"]);
    assert_eq!(op_result(inputs, "intersection"), vec!["a"]);
    assert_eq!(op_result(inputs, "difference"), vec!["b", "c"]);
    assert_eq!(op_result(inputs, "symmetric"), vec!["b", "c", "y", "z"]);
}

#[test]
fn pairwise_ops_full_overlap() {
    let inputs: &[&[&str]] = &[&["m", "n"], &["m", "n"]];
    assert_eq!(op_result(inputs, "union"), vec!["m", "n"]);
    assert_eq!(op_result(inputs, "intersection"), vec!["m", "n"]);
    assert!(op_result(inputs, "difference").is_empty());
    assert!(op_result(inputs, "symmetric").is_empty());
}

#[test]
fn pairwise_ops_no_overlap() {
    let inputs: &[&[&str]] = &[&["a", "b"], &["x", "y"]];
    assert_eq!(op_result(inputs, "union"), vec!["a", "b", "x", "y"]);
    assert!(op_result(inputs, "intersection").is_empty());
    assert_eq!(op_result(inputs, "difference"), vec!["a", "b"]);
    assert_eq!(op_result(inputs, "symmetric"), vec!["a", "b", "x", "y"]);
}

#[test]
fn single_input_ops_pass_through() {
    let inputs: &[&[&str]] = &[&["p", "q"]];
    assert_eq!(op_result(inputs, "union"), vec!["p", "q"]);
    assert_eq!(op_result(inputs, "intersection"), vec!["p", "q"]);
    assert_eq!(op_result(inputs, "difference"), vec!["p", "q"]);
    assert_eq!(op_result(inputs, "symmetric"), vec!["p", "q"]);
}

#[test]
fn three_input_ops() {
    let inputs: &[&[&str]] = &[&["a", "b"], &["b", "c"], &["c", "d"]];
    assert_eq!(op_result(inputs, "union"), vec!["a", "b", "c", "d"]);
    assert!(op_result(inputs, "intersection").is_empty());
    assert_eq!(op_result(inputs, "difference"), vec!["a"]);
    // a and d occur once, b and c twice
    assert_eq!(op_result(inputs, "symmetric"), vec!["a", "d"]);
}

#[test]
fn five_input_ops() {
    let inputs: &[&[&str]] = &[
        &["k1", "x"],
        &["k2", "x", "y"],
        &["k3", "x"],
        &["k4", "x", "y"],
        &["k5", "x", "y"],
    ];
    assert_eq!(
        op_result(inputs, "union"),
        vec!["k1", "k2", "k3", "k4", "k5", "x", "y"]
    );
    assert_eq!(op_result(inputs, "intersection"), vec!["x"]);
    assert_eq!(op_result(inputs, "difference"), vec!["k1"]);
    // x occurs five times (odd), y three times (odd), each k once
    assert_eq!(
        op_result(inputs, "symmetric"),
        vec!["k1", "k2", "k3", "k4", "k5", "x", "y"]
    );
}

#[test]
fn five_input_intersection_nonempty() {
    let inputs: &[&[&str]] = &[
        &["q", "x"],
        &["a", "x"],
        &["m", "x"],
        &["x", "z"],
        &["b", "x"],
    ];
    assert_eq!(op_result(inputs, "intersection"), vec!["x"]);
}

#[test]
fn comparisons_agree_with_algebra() {
    let pairs: &[(&[&str], &[&str])] = &[
        (&["a", "b", "c"], &["x", "y", "z"]),
        (&["a", "c"], &["a", "b", "c"]),
        (&["a", "b", "c"], &["a", "c"]),
        (&["a"], &["a"]),
        (&[], &["a"]),
    ];
    for (ka, kb) in pairs {
        let a = build_set(ka);
        let b = build_set(kb);
        let inter = op_result(&[ka, kb], "intersection");
        let diff_ab = op_result(&[ka, kb], "difference");
        let diff_ba = op_result(&[kb, ka], "difference");
        assert_eq!(fst_set_isdisjoint(&a, &b), inter.is_empty());
        assert_eq!(fst_set_issubset(&a, &b), diff_ab.is_empty());
        assert_eq!(fst_set_issuperset(&a, &b), diff_ba.is_empty());
        assert_eq!(fst_set_issuperset(&a, &b), fst_set_issubset(&b, &a));
    }
}

#[test]
fn range_half_open() {
    let s = build_set(&["a", "b", "c", "d", "e"]);
    let sb = fst_set_streambuilder_new(&s);
    let sb = fst_set_streambuilder_add_ge(sb, key("b"));
    let sb = fst_set_streambuilder_add_lt(sb, key("e"));
    let st = fst_set_streambuilder_finish(sb);
    assert_eq!(drain_stream(st), vec!["b", "c", "d"]);
}

#[test]
fn range_exclusive_and_inclusive_bounds() {
    let s = build_set(&["a", "b", "c", "d", "e"]);
    let sb = fst_set_streambuilder_new(&s);
    let sb = fst_set_streambuilder_add_gt(sb, key("b"));
    let sb = fst_set_streambuilder_add_le(sb, key("d"));
    let st = fst_set_streambuilder_finish(sb);
    assert_eq!(drain_stream(st), vec!["c", "d"]);
}

#[test]
fn later_bound_replaces_earlier() {
    let s = build_set(&["a", "b", "c", "d", "e"]);
    let sb = fst_set_streambuilder_new(&s);
    let sb = fst_set_streambuilder_add_ge(sb, key("a"));
    let sb = fst_set_streambuilder_add_ge(sb, key("c"));
    let st = fst_set_streambuilder_finish(sb);
    assert_eq!(drain_stream(st), vec!["c", "d", "e"]);
}

#[test]
fn range_unbounded_yields_everything() {
    let s = build_set(&["a", "b"]);
    let sb = fst_set_streambuilder_new(&s);
    let st = fst_set_streambuilder_finish(sb);
    assert_eq!(drain_stream(st), vec!["a", "b"]);
}

#[test]
fn opbuilder_accepts_range_input() {
    let big = build_set(&["a", "b", "c", "d", "e"]);
    let other = build_set(&["b", "x"]);
    let sb = fst_set_streambuilder_new(&big);
    let sb = fst_set_streambuilder_add_ge(sb, key("b"));
    let sb = fst_set_streambuilder_add_lt(sb, key("e"));
    let mut ob = fst_set_make_opbuilder_streambuilder(sb);
    fst_set_opbuilder_push(&mut ob, &other);
    assert_eq!(drain_op(fst_set_opbuilder_union(ob)), vec!["b", "c", "d", "x"]);

    let sb2 = fst_set_streambuilder_new(&big);
    let sb2 = fst_set_streambuilder_add_lt(sb2, key("c"));
    let mut ob2 = fst_set_make_opbuilder(&other);
    fst_set_opbuilder_push_streambuilder(&mut ob2, sb2);
    assert_eq!(drain_op(fst_set_opbuilder_intersection(ob2)), vec!["b"]);
}

#[test]
fn opbuilder_accepts_derived_input() {
    let a = build_set(&["a", "b"]);
    let b = build_set(&["c"]);
    let c = build_set(&["b", "z"]);
    let mut ob = fst_set_make_opbuilder(&a);
    fst_set_opbuilder_push(&mut ob, &b);
    let union_ab = fst_set_opbuilder_union(ob);
    // ownership of the derived stream transfers into the new operation
    let mut ob2 = fst_set_make_opbuilder_union(union_ab);
    fst_set_opbuilder_push(&mut ob2, &c);
    assert_eq!(drain_op(fst_set_opbuilder_intersection(ob2)), vec!["b"]);

    let a2 = build_set(&["a", "b"]);
    let b2 = build_set(&["c"]);
    let mut ob3 = fst_set_make_opbuilder(&a2);
    fst_set_opbuilder_push(&mut ob3, &b2);
    let union2 = fst_set_opbuilder_union(ob3);
    let mut ob4 = fst_set_make_opbuilder(&c);
    fst_set_opbuilder_push_union(&mut ob4, union2);
    assert_eq!(drain_op(fst_set_opbuilder_difference(ob4)), vec!["z"]);
}

#[test]
fn opstream_exhaustion_is_idempotent() {
    let a = build_set(&["a"]);
    let ob = fst_set_make_opbuilder(&a);
    let mut st = fst_set_opbuilder_union(ob);
    assert_eq!(fst_set_opstream_next(&mut st), Some(key("a")));
    assert!(fst_set_opstream_next(&mut st).is_none());
    assert!(fst_set_opstream_next(&mut st).is_none());
}

#[test]
fn stream_collect_drains_in_order() {
    let s = build_set(&["p", "q", "r"]);
    let mut st = fst_set_stream(&s);
    assert_eq!(fst_set_stream_next(&mut st), Some(key("p")));
    let rest = fst_set_stream_collect(&mut st);
    assert_eq!(rest, vec![key("q"), key("r")]);
    assert!(fst_set_stream_next(&mut st).is_none());
}

#[test]
fn collect_keys_drains_whole_output() {
    let a = build_set(&["a", "b"]);
    let b = build_set(&["b", "c"]);
    let mut ob = fst_set_make_opbuilder(&a);
    fst_set_opbuilder_push(&mut ob, &b);
    let mut st = fst_set_opbuilder_union(ob);
    let got = fstwrapper::algebra::merge_collect_keys(&mut st);
    assert_eq!(got, vec![key("a"), key("b"), key("c")]);
    assert!(fst_set_opstream_next(&mut st).is_none());
}
