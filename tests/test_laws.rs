use urlencoded_form::{decode, encode, group_pairs, strip_brackets, Error, Request, Route, ValOrVec, Value};

fn pairs(ps: &[(&str, &str)]) -> Vec<(String, String)> {
    ps.iter().map(|(k, v)| (k.to_string(), v.to_string())).collect()
}

fn val(v: &str) -> ValOrVec<String> {
    ValOrVec::Val(v.to_owned())
}

fn list(vs: &[&str]) -> ValOrVec<String> {
    ValOrVec::Vec(vs.iter().map(|v| v.to_string()).collect())
}

#[test]
fn round_trip_of_scalar_fields() {
    let fields = vec![
        ("first".to_owned(), Value::Scalar("23".to_owned())),
        ("a b".to_owned(), Value::Scalar("x&y".to_owned())),
        ("last".to_owned(), Value::Scalar("42".to_owned())),
    ];
    let wire = encode(&fields).unwrap();
    let back = decode(wire.as_bytes());
    assert_eq!(
        back,
        vec![
            ("first".to_owned(), val("23")),
            ("a b".to_owned(), val("x&y")),
            ("last".to_owned(), val("42")),
        ]
    );
}

#[test]
fn round_trip_of_a_list() {
    let fields = vec![(
        "list".to_owned(),
        Value::List(vec![Value::Scalar("a".to_owned()), Value::Scalar("b".to_owned()), Value::Scalar("c".to_owned())]),
    )];
    let wire = encode(&fields).unwrap();
    assert_eq!(decode(wire.as_bytes()), vec![("list".to_owned(), list(&["a", "b", "c"]))]);
}

#[test]
fn grouping_keeps_first_seen_key_order_and_value_order() {
    let input = pairs(&[("b", "1"), ("a", "2"), ("b", "3"), ("c", "4"), ("a", "5"), ("b", "6")]);
    let expected = vec![
        ("b".to_owned(), list(&["1", "3", "6"])),
        ("a".to_owned(), list(&["2", "5"])),
        ("c".to_owned(), val("4")),
    ];
    assert_eq!(group_pairs(&input), expected);
    assert_eq!(group_pairs(&input), group_pairs(&input.clone()));
}

#[test]
fn grouping_empty_input() {
    assert!(group_pairs(&vec![]).is_empty());
}

#[test]
fn grouping_equal_keys_with_empty_values() {
    let input = pairs(&[("k", ""), ("k", "")]);
    assert_eq!(group_pairs(&input), vec![("k".to_owned(), list(&["", ""]))]);
}

#[test]
fn single_value_answers_scalar_and_sequence() {
    assert_eq!(val("x").dispatch(Request::Bool), Ok(Route::Forward("x".to_owned())));
    assert_eq!(val("x").dispatch(Request::Struct), Ok(Route::Forward("x".to_owned())));
    assert_eq!(val("x").dispatch(Request::Any), Ok(Route::Forward("x".to_owned())));
    assert_eq!(val("x").dispatch(Request::Sequence), Ok(Route::Elements(vec!["x".to_owned()])));
    assert_eq!(val("x").dispatch(Request::IgnoredAny), Ok(Route::Unit));
    assert_eq!(val("x").into_val(), Ok("x".to_owned()));
}

#[test]
fn repeated_value_answers_only_sequence() {
    let l = list(&["1", "2", "3"]);
    let all = vec!["1".to_owned(), "2".to_owned(), "3".to_owned()];
    assert_eq!(l.clone().dispatch(Request::Sequence), Ok(Route::Elements(all.clone())));
    assert_eq!(l.clone().dispatch(Request::Any), Ok(Route::Elements(all)));
    assert_eq!(l.clone().dispatch(Request::IgnoredAny), Ok(Route::Unit));
    for req in [Request::Bool, Request::U32, Request::Str, Request::Enum, Request::Tuple, Request::Struct, Request::Option] {
        assert_eq!(l.clone().dispatch(req), Err(Error::Unsupported));
    }
    assert_eq!(l.into_val(), Err(Error::Unsupported));
}

#[test]
fn from_values_picks_the_shape() {
    assert_eq!(ValOrVec::from_values(vec![7u8]), ValOrVec::Val(7));
    assert_eq!(ValOrVec::from_values(vec![7u8, 8]), ValOrVec::Vec(vec![7, 8]));
}

#[test]
fn empty_input_decodes_to_nothing() {
    assert!(decode(b"").is_empty());
    assert!(decode(b"&").is_empty());
    assert!(decode(b"&&").is_empty());
}

#[test]
fn decode_percent_decodes() {
    assert_eq!(decode(b"a+b=%26x&k%5B%5D=1&k=2"), vec![("a b".to_owned(), val("&x")), ("k".to_owned(), list(&["1", "2"]))]);
}

#[test]
fn strip_brackets_only_trailing_pair() {
    assert_eq!(strip_brackets("a[]"), "a");
    assert_eq!(strip_brackets("[]"), "");
    assert_eq!(strip_brackets("a[]b"), "a[]b");
    assert_eq!(strip_brackets("a[]]"), "a[]]");
    assert_eq!(strip_brackets("a"), "a");
    assert_eq!(strip_brackets("é[]"), "é");
}

#[test]
fn nested_sequence_is_rejected() {
    let fields = vec![("list".to_owned(), Value::List(vec![Value::List(vec![Value::Scalar("0".to_owned())])]))];
    assert_eq!(encode(&fields), Err(Error::Unsupported));
}

#[test]
fn absent_fields_are_omitted() {
    let fields = vec![
        ("first".to_owned(), Value::Scalar("23".to_owned())),
        ("middle".to_owned(), Value::Absent),
        ("last".to_owned(), Value::Scalar("42".to_owned())),
    ];
    assert_eq!(encode(&fields), Ok("first=23&last=42".to_owned()));
}

#[test]
fn all_absent_fields_give_empty_body() {
    let fields = vec![("a".to_owned(), Value::Absent), ("b".to_owned(), Value::Absent)];
    assert_eq!(encode(&fields), Ok(String::new()));
}

#[test]
fn error_message_names_unsupported() {
    assert_eq!(Error::Unsupported.message(), "unsupported value");
}
