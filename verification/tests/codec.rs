use json_codec::decode::decode_text;
use json_codec::decode::decode_text_with_depth;
use json_codec::encode::encode_text;
use json_codec::Json;
use json_codec::ParseError;
use json_codec::Value;

fn num(t: &str) -> Value {
    Value::Num(String::from(t))
}

fn st(t: &str) -> Value {
    Value::Str(String::from(t))
}

#[test]
fn decode_empty_object() {
    let v = decode_text("{}").unwrap();
    assert_eq!(v, Value::Obj(vec![]));
}

#[test]
fn decode_empty_array() {
    let v = decode_text("[]").unwrap();
    assert_eq!(v, Value::Arr(vec![]));
}

#[test]
fn duplicate_key_last_write_wins() {
    let v = decode_text("{\"a\":1,\"a\":2}").unwrap();
    assert_eq!(v, Value::Obj(vec![(String::from("a"), num("2"))]));
}

#[test]
fn trailing_comma_in_object_rejected() {
    let e = decode_text("{\"a\":1,}").unwrap_err();
    assert!(matches!(e, ParseError::TrailingContent(_)));
}

#[test]
fn trailing_comma_in_array_rejected() {
    let e = decode_text("[1,]").unwrap_err();
    assert!(matches!(e, ParseError::TrailingContent(_)));
}

#[test]
fn unicode_escape_small_e_acute() {
    let v = decode_text("\"\\u00e9\"").unwrap();
    assert_eq!(v, st("\u{e9}"));
}

#[test]
fn empty_input_rejected() {
    let e = decode_text("").unwrap_err();
    assert_eq!(e, ParseError::UnexpectedEndOfInput(0));
}

#[test]
fn pretty_encoding_golden() {
    let v = Value::Obj(vec![
        (String::from("x"), num("1")),
        (String::from("y"), Value::Arr(vec![num("2"), num("3")])),
    ]);
    let text = encode_text(&v, 2);
    assert_eq!(text, "{\n  \"x\": 1,\n  \"y\": [\n    2,\n    3\n  ]\n}");
}

#[test]
fn deep_nesting_rejected() {
    let text = "[".repeat(600);
    let e = decode_text(&text).unwrap_err();
    assert!(matches!(e, ParseError::MaxDepthExceeded(_)));
}

#[test]
fn nesting_budget_is_configurable() {
    let e = decode_text_with_depth("[[1]]", 1).unwrap_err();
    assert!(matches!(e, ParseError::MaxDepthExceeded(_)));
    let v = decode_text_with_depth("[[1]]", 2).unwrap();
    assert_eq!(v, Value::Arr(vec![Value::Arr(vec![num("1")])]));
}

#[test]
fn round_trip_compact() {
    let v = Value::Obj(vec![
        (String::from("name"), st("line1\nline2 \"quoted\" back\\slash")),
        (String::from("flag"), Value::Bool(true)),
        (String::from("none"), Value::Null),
        (
            String::from("data"),
            Value::Arr(vec![num("0"), num("-12.5e3"), st("\u{e9}\u{1F600}"), Value::Bool(false)]),
        ),
        (String::from("empty"), Value::Obj(vec![])),
    ]);
    let text = encode_text(&v, 0);
    let back = decode_text(&text).unwrap();
    assert_eq!(back, v);
}

#[test]
fn round_trip_pretty() {
    let v = Value::Arr(vec![
        Value::Obj(vec![(String::from("k"), num("1e-3"))]),
        Value::Arr(vec![]),
        st(""),
    ]);
    let text = encode_text(&v, 4);
    let back = decode_text(&text).unwrap();
    assert_eq!(back, v);
}

#[test]
fn encode_is_idempotent_across_decode() {
    let v = Value::Obj(vec![
        (String::from("a"), Value::Arr(vec![num("1"), st("two"), Value::Null])),
        (String::from("b"), Value::Bool(false)),
    ]);
    for indent in [0usize, 2, 3] {
        let once = encode_text(&v, indent);
        let again = encode_text(&decode_text(&once).unwrap(), indent);
        assert_eq!(once, again);
    }
}

#[test]
fn literals_decode() {
    assert_eq!(decode_text("true").unwrap(), Value::Bool(true));
    assert_eq!(decode_text("false").unwrap(), Value::Bool(false));
    assert_eq!(decode_text("null").unwrap(), Value::Null);
    assert_eq!(decode_text("  null  ").unwrap(), Value::Null);
}

#[test]
fn broken_literal_rejected() {
    let e = decode_text("nul").unwrap_err();
    assert_eq!(e, ParseError::UnexpectedCharacter(0));
    let e = decode_text("truth").unwrap_err();
    assert_eq!(e, ParseError::UnexpectedCharacter(0));
}

#[test]
fn number_tokens_kept_exactly() {
    assert_eq!(decode_text("-12.5e3").unwrap(), num("-12.5e3"));
    assert_eq!(decode_text("0").unwrap(), num("0"));
    assert_eq!(decode_text("10.25E+6").unwrap(), num("10.25E+6"));
}

#[test]
fn malformed_numbers_rejected() {
    assert!(matches!(decode_text("01").unwrap_err(), ParseError::InvalidNumber(_)));
    assert!(matches!(decode_text("1.").unwrap_err(), ParseError::InvalidNumber(_)));
    assert!(matches!(decode_text("1e+").unwrap_err(), ParseError::InvalidNumber(_)));
    assert!(matches!(decode_text("-").unwrap_err(), ParseError::InvalidNumber(_)));
    assert!(matches!(decode_text(".5").unwrap_err(), ParseError::UnexpectedCharacter(_)));
}

#[test]
fn string_escapes_decode() {
    let v = decode_text("\"a\\n\\t\\r\\b\\f\\/\\\\\\\" \"").unwrap();
    assert_eq!(v, st("a\n\t\r\u{8}\u{c}/\\\" "));
}

#[test]
fn surrogate_pair_decodes_to_one_character() {
    let v = decode_text("\"\\ud83d\\ude00\"").unwrap();
    assert_eq!(v, st("\u{1F600}"));
}

#[test]
fn unpaired_surrogate_rejected() {
    let e = decode_text("\"\\ud83d\"").unwrap_err();
    assert!(matches!(e, ParseError::InvalidEscape(_)));
    let e = decode_text("\"\\ude00\"").unwrap_err();
    assert!(matches!(e, ParseError::InvalidEscape(_)));
}

#[test]
fn invalid_escape_rejected() {
    let e = decode_text("\"\\x\"").unwrap_err();
    assert!(matches!(e, ParseError::InvalidEscape(_)));
}

#[test]
fn unterminated_string_rejected() {
    let e = decode_text("\"abc").unwrap_err();
    assert!(matches!(e, ParseError::UnterminatedString(_)));
}

#[test]
fn trailing_content_rejected() {
    let e = decode_text("1 2").unwrap_err();
    assert_eq!(e, ParseError::TrailingContent(2));
}

#[test]
fn control_characters_encode_as_hex_escapes() {
    let text = encode_text(&st("a\u{1}b\n"), 0);
    assert_eq!(text, "\"a\\u0001b\\u000a\"");
    let back = decode_text(&text).unwrap();
    assert_eq!(back, st("a\u{1}b\n"));
}

#[test]
fn non_ascii_characters_encode_raw() {
    let text = encode_text(&st("\u{e9}"), 0);
    assert_eq!(text, "\"\u{e9}\"");
}

#[test]
fn json_document_interface() {
    let mut doc = Json::new();
    assert_eq!(doc.encode(0), "{}");
    doc.decode("{\"b\":[true,null],\"a\":\"x\"}").unwrap();
    let keys = doc.get_keys();
    assert_eq!(keys, vec![String::from("b"), String::from("a")]);
    let values = doc.get_values();
    assert_eq!(
        values,
        vec![Value::Arr(vec![Value::Bool(true), Value::Null]), st("x")]
    );
    assert_eq!(doc.encode(0), "{\"b\":[true,null],\"a\":\"x\"}");
}

#[test]
fn decode_failure_keeps_document() {
    let mut doc = Json::new();
    doc.decode("[1,2]").unwrap();
    let e = doc.decode("[1,").unwrap_err();
    assert!(matches!(e, ParseError::UnexpectedEndOfInput(_)));
    assert_eq!(doc.encode(0), "[1,2]");
}

#[test]
fn error_offsets_reported() {
    assert_eq!(decode_text("[1,]").unwrap_err().offset(), 3);
    assert_eq!(decode_text("{\"a\" 1}").unwrap_err().offset(), 5);
}

#[test]
fn whitespace_everywhere_accepted() {
    let v = decode_text(" {\t\"a\" :\n[ 1 , 2 ]\r} ").unwrap();
    assert_eq!(
        v,
        Value::Obj(vec![(String::from("a"), Value::Arr(vec![num("1"), num("2")]))])
    );
}

#[test]
fn typed_accessor_reports_mismatch() {
    assert_eq!(Value::Bool(true).as_bool(), Ok(true));
    assert!(Value::Null.as_bool().is_err());
    assert!(Value::Null.is_null());
    assert!(!Value::Bool(false).is_null());
    assert_eq!(st("hi").as_str(), Ok(&String::from("hi")));
    assert!(st("hi").as_number().is_err());
    assert_eq!(num("7").as_number(), Ok(&String::from("7")));
    let arr = Value::Arr(vec![Value::Null]);
    assert_eq!(arr.as_array(), Ok(&vec![Value::Null]));
    assert!(arr.as_object().is_err());
    let obj = Value::Obj(vec![(String::from("k"), Value::Null)]);
    assert_eq!(obj.as_object(), Ok(&vec![(String::from("k"), Value::Null)]));
}

#[test]
fn document_wraps_a_value_tree() {
    let doc = json_codec::Json::from_value(Value::Arr(vec![num("1")]));
    assert_eq!(doc.encode(0), "[1]");
    assert_eq!(doc.value(), &Value::Arr(vec![num("1")]));
    assert_eq!(doc.get_keys().len(), 0);
    assert_eq!(doc.get_values().len(), 0);
}

#[test]
fn deep_clone_copies_structurally() {
    let v = Value::Obj(vec![(String::from("a"), Value::Arr(vec![num("1"), st("x")]))]);
    let w = v.deep_clone();
    assert_eq!(v, w);
}

#[test]
fn line_and_column_derived_from_offset() {
    let text = "{\n  \"a\": x\n}";
    let e = decode_text(text).unwrap_err();
    assert_eq!(e.offset(), 9);
    assert_eq!(json_codec::errors::line_col(text, e.offset()), (2, 8));
    assert_eq!(json_codec::errors::line_col(text, 0), (1, 1));
}

#[test]
fn error_offset_accessor() {
    let e = json_codec::ParseError::InvalidNumber(7);
    assert_eq!(e.offset(), 7);
}
