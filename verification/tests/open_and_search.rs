use fstwrapper::map_index::{
    MapIndex, fst_map_get, fst_map_len, fst_map_levsearch, fst_map_open, fst_map_regexsearch,
    fst_mapstream_next, fst_memmapbuilder_finish, fst_memmapbuilder_insert, fst_memmapbuilder_new,
};
use fstwrapper::order::{KeyOrder, lex_cmp};
use fstwrapper::set_index::{
    SetIndex, SetStream, fst_memsetbuilder_finish, fst_memsetbuilder_insert, fst_memsetbuilder_new,
    fst_set_contains, fst_set_len, fst_set_levsearch, fst_set_open, fst_set_regexsearch,
    fst_set_stream, fst_set_stream_next,
};
use fstwrapper::util::{
    ErrorKind, fst_context_new, fst_levenshtein_new, fst_regex_new, to_raw_ptr,
};

fn key(s: &str) -> Vec<u8> {
    s.as_bytes().to_vec()
}

fn build_set(keys: &[&str]) -> SetIndex {
    let mut ctx = fst_context_new();
    let mut b = fst_memsetbuilder_new();
    for k in keys {
        assert!(fst_memsetbuilder_insert(&mut ctx, &mut b, &key(k)));
    }
    fst_memsetbuilder_finish(&mut ctx, b).unwrap()
}

fn build_map(entries: &[(&str, u64)]) -> MapIndex {
    let mut ctx = fst_context_new();
    let mut b = fst_memmapbuilder_new();
    for (k, v) in entries {
        assert!(fst_memmapbuilder_insert(&mut ctx, &mut b, &key(k), *v));
    }
    fst_memmapbuilder_finish(&mut ctx, b).unwrap()
}

fn drain_stream(mut st: SetStream) -> Vec<String> {
    let mut out = vec![];
    while let Some(k) = fst_set_stream_next(&mut st) {
        out.push(String::from_utf8(k).unwrap());
    }
    out
}

#[test]
fn set_round_trip_through_serialized_bytes() {
    // the durable artifact a finished builder writes, produced here by the
    // engine itself, reopens into an identically behaving structure
    let keys = ["bruce", "clarence", "stevie"];
    let mut build = fst::set::SetBuilder::memory();
    for k in &keys {
        build.insert(k).unwrap();
    }
    let bytes = build.into_inner().unwrap();

    let mut ctx = fst_context_new();
    let reopened = fst_set_open(&mut ctx, bytes).unwrap();
    assert!(!ctx.has_error);
    let original = build_set(&keys);
    assert_eq!(fst_set_len(&reopened), fst_set_len(&original));
    for k in &keys {
        assert!(fst_set_contains(&reopened, &key(k)));
    }
    assert!(!fst_set_contains(&reopened, &key("nils")));
    assert_eq!(drain_stream(fst_set_stream(&reopened)), keys.to_vec());
}

#[test]
fn map_round_trip_through_serialized_bytes() {
    let mut build = fst::map::MapBuilder::memory();
    build.insert("a", 10).unwrap();
    build.insert("b", 0).unwrap();
    let bytes = build.into_inner().unwrap();

    let mut ctx = fst_context_new();
    let reopened = fst_map_open(&mut ctx, bytes).unwrap();
    assert!(!ctx.has_error);
    assert_eq!(fst_map_len(&reopened), 2);
    assert_eq!(fst_map_get(&mut ctx, &reopened, &key("a")), 10);
    assert!(!ctx.has_error);
    assert_eq!(fst_map_get(&mut ctx, &reopened, &key("b")), 0);
    assert!(!ctx.has_error);
}

#[test]
fn open_rejects_malformed_bytes() {
    let mut ctx = fst_context_new();
    assert!(fst_set_open(&mut ctx, vec![1, 2, 3]).is_none());
    assert!(ctx.has_error);
    assert_eq!(ctx.error_kind, Some(ErrorKind::ConstructionError));
    assert!(fst_map_open(&mut ctx, vec![0; 8]).is_none());
    assert!(ctx.has_error);
    assert_eq!(ctx.error_kind, Some(ErrorKind::ConstructionError));
}

#[test]
fn levenshtein_search_matches_edit_distances() {
    // distances to "cat": bat 1, cat 0, cats 1, dog 3
    let s = build_set(&["bat", "cat", "cats", "dog"]);
    let mut ctx = fst_context_new();
    let lev = fst_levenshtein_new(&mut ctx, "cat", 1).unwrap();
    assert!(!ctx.has_error);
    assert_eq!(drain_stream(fst_set_levsearch(&s, &lev)), vec!["bat", "cat", "cats"]);

    let exact = fst_levenshtein_new(&mut ctx, "cat", 0).unwrap();
    assert_eq!(drain_stream(fst_set_levsearch(&s, &exact)), vec!["cat"]);

    let wide = fst_levenshtein_new(&mut ctx, "cat", 3).unwrap();
    assert_eq!(
        drain_stream(fst_set_levsearch(&s, &wide)),
        vec!["bat", "cat", "cats", "dog"]
    );
}

#[test]
fn levenshtein_search_over_map() {
    let m = build_map(&[("fa", 1), ("fo", 2), ("fob", 3), ("focus", 4), ("foo", 5), ("food", 6), ("foul", 7)]);
    let mut ctx = fst_context_new();
    let lev = fst_levenshtein_new(&mut ctx, "foo", 1).unwrap();
    let mut st = fst_map_levsearch(&m, &lev);
    let mut got = vec![];
    while let Some(it) = fst_mapstream_next(&mut st) {
        got.push((String::from_utf8(it.key).unwrap(), it.value));
    }
    assert_eq!(
        got,
        vec![
            ("fo".to_string(), 2),
            ("fob".to_string(), 3),
            ("foo".to_string(), 5),
            ("food".to_string(), 6),
        ]
    );
}

#[test]
fn regex_search_requires_full_match() {
    let s = build_set(&["bar", "foo", "foo1", "foo3", "foobar"]);
    let mut ctx = fst_context_new();
    let re = fst_regex_new(&mut ctx, "f[a-z]+3?").unwrap();
    assert!(!ctx.has_error);
    assert_eq!(drain_stream(fst_set_regexsearch(&s, &re)), vec!["foo", "foo3", "foobar"]);
}

#[test]
fn regex_search_over_map() {
    let m = build_map(&[("ab1", 1), ("ab2", 2), ("b2", 3)]);
    let mut ctx = fst_context_new();
    let re = fst_regex_new(&mut ctx, "ab[0-9]").unwrap();
    let mut st = fst_map_regexsearch(&m, &re);
    let mut got = vec![];
    while let Some(it) = fst_mapstream_next(&mut st) {
        got.push((String::from_utf8(it.key).unwrap(), it.value));
    }
    assert_eq!(got, vec![("ab1".to_string(), 1), ("ab2".to_string(), 2)]);
}

#[test]
fn malformed_pattern_is_a_construction_error() {
    let mut ctx = fst_context_new();
    assert!(fst_regex_new(&mut ctx, "(").is_none());
    assert!(ctx.has_error);
    assert_eq!(ctx.error_kind, Some(ErrorKind::ConstructionError));
    assert_eq!(ctx.error_type, "ConstructionError");
    assert!(!ctx.error_display.is_empty());
    // a later successful construction clears the channel
    assert!(fst_regex_new(&mut ctx, "abc").is_some());
    assert!(!ctx.has_error);
    assert!(ctx.error_type.is_empty());
}

#[test]
fn context_lifecycle() {
    let mut ctx = fst_context_new();
    assert!(!ctx.has_error);
    assert!(ctx.error_type.is_empty());
    assert!(fst_regex_new(&mut ctx, ")").is_none());
    assert!(ctx.has_error);
    ctx.clear();
    assert!(!ctx.has_error);
    assert_eq!(ctx.error_kind, None);
    assert!(ctx.error_type.is_empty());
    assert!(ctx.error_debug.is_empty());
    assert!(ctx.error_display.is_empty());
    assert!(ctx.error_description.is_empty());
}

#[test]
fn error_kind_names() {
    assert_eq!(ErrorKind::ConstructionError.name(), "ConstructionError");
    assert_eq!(ErrorKind::IoError.name(), "IOError");
    assert_eq!(ErrorKind::EncodingError.name(), "EncodingError");
    assert_eq!(ErrorKind::KeyError.name(), "KeyError");
    assert_eq!(ErrorKind::ExhaustionSignal.name(), "StopIteration");
}

#[test]
fn heap_handle_owns_its_value() {
    let h = to_raw_ptr(41u32);
    assert_eq!(*h, 41);
    let s = to_raw_ptr(String::from("hi"));
    assert_eq!(*s, "hi");
}

#[test]
fn byte_lexicographic_compare() {
    assert_eq!(lex_cmp(&key("a"), &key("b")), KeyOrder::Less);
    assert_eq!(lex_cmp(&key("b"), &key("a")), KeyOrder::Greater);
    assert_eq!(lex_cmp(&key("ab"), &key("ab")), KeyOrder::Equal);
    assert_eq!(lex_cmp(&key("ab"), &key("abc")), KeyOrder::Less);
    assert_eq!(lex_cmp(&key(""), &key("a")), KeyOrder::Less);
    assert_eq!(lex_cmp(&vec![0u8, 255u8], &vec![1u8]), KeyOrder::Less);
}

#[test]
fn open_rejects_altered_length_field() {
    // the serialized artifact stores the key count as a bare metadata field
    // just before the trailing root address; altering it leaves the keys
    // streaming back in order, but the opener's validation must refuse it
    let mut build = fst::set::SetBuilder::memory();
    build.insert("a").unwrap();
    build.insert("b").unwrap();
    build.insert("c").unwrap();
    let mut bytes = build.into_inner().unwrap();
    let n = bytes.len();
    let stored = u64::from_le_bytes(bytes[n - 16..n - 8].try_into().unwrap());
    assert_eq!(stored, 3);
    bytes[n - 16..n - 8].copy_from_slice(&(stored + 1).to_le_bytes());

    let mut ctx = fst_context_new();
    assert!(fst_set_open(&mut ctx, bytes).is_none());
    assert!(ctx.has_error);
    assert_eq!(ctx.error_kind, Some(ErrorKind::ConstructionError));
}

#[test]
fn map_open_rejects_altered_length_field() {
    let mut build = fst::map::MapBuilder::memory();
    build.insert("a", 1).unwrap();
    build.insert("b", 2).unwrap();
    let mut bytes = build.into_inner().unwrap();
    let n = bytes.len();
    let stored = u64::from_le_bytes(bytes[n - 16..n - 8].try_into().unwrap());
    assert_eq!(stored, 2);
    bytes[n - 16..n - 8].copy_from_slice(&(stored + 5).to_le_bytes());

    let mut ctx = fst_context_new();
    assert!(fst_map_open(&mut ctx, bytes).is_none());
    assert!(ctx.has_error);
    assert_eq!(ctx.error_kind, Some(ErrorKind::ConstructionError));
}
