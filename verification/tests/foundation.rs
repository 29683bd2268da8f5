use bap_onest_lite::batching::chunk_vec;
use bap_onest_lite::codec::{render, to_outside};
use bap_onest_lite::hash::{embedding_cache_key, fingerprint_of, generate_query_hash};
use bap_onest_lite::json::{Decimal, Json};
use bap_onest_lite::text::{chars_of, contains_chars, decimal_chars, parse_decimal, split_chars, trim_chars};

fn obj(fields: Vec<(&str, Json)>) -> Json {
    Json::Object(fields.into_iter().map(|(k, v)| (k.to_string(), v)).collect())
}

fn text_of(v: &Vec<char>) -> String {
    v.iter().collect()
}

#[test]
fn chunk_vec_splits_in_order() {
    let out = chunk_vec(vec![1, 2, 3, 4, 5], 2);
    assert_eq!(out, vec![vec![1, 2], vec![3, 4], vec![5]]);
}

#[test]
fn chunk_vec_zero_size_gives_nothing() {
    let out = chunk_vec(vec![1, 2, 3], 0);
    assert!(out.is_empty());
}

#[test]
fn chunk_vec_exact_multiple() {
    let out = chunk_vec(vec!['a', 'b', 'c', 'd'], 2);
    assert_eq!(out, vec![vec!['a', 'b'], vec!['c', 'd']]);
}

#[test]
fn fingerprint_matches_known_digest() {
    assert_eq!(
        fingerprint_of("abc"),
        "ba7816bf8f01cfea414140de5dae2223b00361a396177a9cb410ff61f20015ad"
    );
    assert_eq!(
        fingerprint_of(""),
        "e3b0c44298fc1c149afbf4c8996fb92427ae41e4649b934ca495991b7852b855"
    );
}

#[test]
fn render_writes_compact_sorted_json() {
    let doc = obj(vec![
        ("b", Json::Array(vec![Json::Int(1), Json::Null, Json::Bool(true)])),
        ("a", Json::Str("x\"y".to_string())),
        ("c", Json::Real(Decimal::parse("1.50").unwrap())),
        ("d", Json::UInt(18446744073709551615)),
    ]);
    assert_eq!(
        render(&doc),
        "{\"a\":\"x\\\"y\",\"b\":[1,null,true],\"c\":1.5,\"d\":18446744073709551615}"
    );
}

#[test]
fn render_takes_the_last_of_equal_keys() {
    let doc = obj(vec![("k", Json::Int(1)), ("k", Json::Int(2))]);
    assert_eq!(render(&doc), "{\"k\":2}");
    assert_eq!(doc.get("k").and_then(|v| v.as_i64()), Some(2));
}

#[test]
fn decimal_rejects_whole_numbers_and_garbage() {
    assert!(Decimal::parse("5").is_none());
    assert!(Decimal::parse("abc").is_none());
    assert!(Decimal::parse("").is_none());
    assert!(Decimal::parse("5.0").is_some());
    assert!(Decimal::parse("-2.5e3").is_some());
}

#[test]
fn query_hash_is_stable_across_equal_messages() {
    let m1 = obj(vec![
        ("intent", Json::empty_object()),
        ("pagination", obj(vec![("page", Json::Int(1)), ("limit", Json::Int(10))])),
    ]);
    let m2 = obj(vec![
        ("pagination", obj(vec![("limit", Json::Int(10)), ("page", Json::Int(1))])),
        ("intent", Json::empty_object()),
    ]);
    assert_eq!(render(&m1), "{\"intent\":{},\"pagination\":{\"limit\":10,\"page\":1}}");
    assert_eq!(generate_query_hash(&m1), generate_query_hash(&m2));
    assert_eq!(generate_query_hash(&m1), fingerprint_of(&render(&m1)));
    let m3 = obj(vec![
        ("intent", Json::empty_object()),
        ("pagination", obj(vec![("page", Json::Int(2)), ("limit", Json::Int(10))])),
    ]);
    assert_ne!(generate_query_hash(&m1), generate_query_hash(&m3));
}

#[test]
fn embedding_key_names_model_and_digest() {
    assert_eq!(
        embedding_cache_key("m1", "abc"),
        "embedding:m1:ba7816bf8f01cfea414140de5dae2223b00361a396177a9cb410ff61f20015ad"
    );
}

#[test]
fn pointer_walks_objects_and_arrays() {
    let doc = obj(vec![
        ("tags", obj(vec![("role", Json::text("Driver")), ("a/b", Json::Int(7)), ("m~n", Json::Int(8))])),
        ("list", Json::Array(vec![Json::Int(10), Json::Int(11)])),
    ]);
    assert_eq!(doc.pointer("/tags/role").and_then(|v| v.as_str()), Some("Driver"));
    assert_eq!(doc.pointer("/tags/a~1b").and_then(|v| v.as_i64()), Some(7));
    assert_eq!(doc.pointer("/tags/m~0n").and_then(|v| v.as_i64()), Some(8));
    assert_eq!(doc.pointer("/list/1").and_then(|v| v.as_i64()), Some(11));
    assert!(doc.pointer("/list/01").is_none());
    assert!(doc.pointer("/list/+1").is_none());
    assert!(doc.pointer("/list/2").is_none());
    assert!(doc.pointer("/list/").is_none());
    assert!(doc.pointer("tags").is_none());
    assert!(doc.pointer("/tags/role/x").is_none());
    assert!(doc.pointer("").is_some());
}

#[test]
fn with_and_without_field() {
    let doc = obj(vec![("a", Json::Int(1))]);
    let doc = doc.with_field("b", Json::Int(2)).with_field("a", Json::Int(3));
    assert_eq!(render(&doc), "{\"a\":3,\"b\":2}");
    let doc = doc.without_field("a");
    assert_eq!(render(&doc), "{\"b\":2}");
    assert_eq!(render(&Json::Int(4).with_field("a", Json::Null)), "4");
}

#[test]
fn text_helpers() {
    assert_eq!(text_of(&trim_chars(&chars_of("  a b \t\n"))), "a b");
    let parts = split_chars(&chars_of("a,,b,"), ',');
    let parts: Vec<String> = parts.iter().map(text_of).collect();
    assert_eq!(parts, vec!["a", "", "b", ""]);
    assert!(contains_chars(&chars_of("bangalore"), &chars_of("galo")));
    assert!(!contains_chars(&chars_of("bangalore"), &chars_of("gala")));
    assert!(contains_chars(&chars_of("x"), &chars_of("")));
    assert_eq!(text_of(&decimal_chars(0)), "0");
    assert_eq!(text_of(&decimal_chars(18446744073709551615)), "18446744073709551615");
    assert_eq!(parse_decimal(&chars_of("-9223372036854775808")), Some(i64::MIN));
    assert_eq!(parse_decimal(&chars_of("9223372036854775807")), Some(i64::MAX));
    assert_eq!(parse_decimal(&chars_of("9223372036854775808")), None);
    assert_eq!(parse_decimal(&chars_of("+65")), Some(65));
    assert_eq!(parse_decimal(&chars_of("6 5")), None);
    assert_eq!(parse_decimal(&chars_of("-")), None);
    assert_eq!(parse_decimal(&chars_of("")), None);
}

#[test]
fn pointer_agrees_with_serde_json() {
    let doc = obj(vec![
        ("", Json::Int(0)),
        ("a/b", Json::Int(1)),
        ("m~n", Json::Int(2)),
        ("~1", Json::Int(3)),
        ("0", Json::text("zero")),
        ("dup", Json::Int(4)),
        ("dup", Json::Int(5)),
        ("list", Json::Array(vec![Json::Int(10), obj(vec![("x", Json::Bool(true))]), Json::Null])),
        ("deep", obj(vec![("list", Json::Array(vec![Json::Array(vec![Json::text("in")])]))])),
        ("real", Json::Real(Decimal::parse("2.5").unwrap())),
    ]);
    let outside = to_outside(&doc);
    let pointers = [
        "", "/", "//", "/a~1b", "/m~0n", "/~01", "/~1", "/~0", "/0", "/dup", "/list", "/list/0",
        "/list/1", "/list/1/x", "/list/2", "/list/3", "/list/-", "/list/-1", "/list/01",
        "/list/00", "/list/+1", "/list/ 1", "/list/1 ", "/list/", "/list/18446744073709551615",
        "/list/18446744073709551616", "/list/99999999999999999999999", "/list/0x1",
        "/deep/list/0/0", "/deep/list/0/1", "/deep/list/0/0/0", "/real", "/real/0", "list",
        "/missing", "/list/1/x/", "a~1b", "/a/b",
    ];
    for pointer in pointers {
        let ours = doc.pointer(pointer).map(render);
        let theirs = outside.pointer(pointer).map(|v| v.to_string());
        assert_eq!(ours, theirs, "pointer {:?}", pointer);
    }
    for key in ["", "dup", "list", "nope", "0"] {
        let ours = doc.get(key).map(render);
        let theirs = outside.get(key).map(|v| v.to_string());
        assert_eq!(ours, theirs, "key {:?}", key);
    }
}

#[test]
fn decimals_are_the_numbers_serde_json_reads_as_fractions() {
    let texts = [
        "1.5", "-0.25", "1e3", "1E-2", "0.0", "-0.0", "1", "-7", "0", "18446744073709551616",
        "-9223372036854775809", "1.", ".5", "01.5", "+1.5", "NaN", "inf", "", " 1.5", "1.5 ",
        "1e400", "abc", "\"1.5\"",
    ];
    for text in texts {
        let theirs = match serde_json::from_str::<serde_json::Number>(text) {
            Ok(n) => n.is_f64(),
            Err(_) => false,
        };
        assert_eq!(Decimal::parse(text).is_some(), theirs, "text {:?}", text);
    }
    assert_eq!(render(&Json::Real(Decimal::parse("1e3").unwrap())), "1000.0");
    assert_eq!(render(&Json::Real(Decimal::parse("-0.25").unwrap())), "-0.25");
}
