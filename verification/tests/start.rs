use start_clause::{start, Context, Error, ParseError, Start, Value};

#[test]
fn start_statement() {
    let sql = "START 100";
    let res = start(sql);
    let out = res.unwrap().1;
    assert_eq!(out, Start(Value::Number(100)));
    assert_eq!("START 100", out.to_string());
}

#[test]
fn start_statement_at() {
    let sql = "START AT 100";
    let res = start(sql);
    let out = res.unwrap().1;
    assert_eq!(out, Start(Value::Number(100)));
    assert_eq!("START 100", out.to_string());
}

#[test]
fn start_statement_lowercase() {
    let (rest, out) = start("start 100").unwrap();
    assert_eq!(out, Start(Value::Number(100)));
    assert_eq!(rest, "");
}

#[test]
fn start_consumes_exactly() {
    let (rest, out) = start("START 10 LIMIT 5").unwrap();
    assert_eq!(out, Start(Value::Number(10)));
    assert_eq!(rest, " LIMIT 5");
}

#[test]
fn start_missing_expression_is_fatal() {
    assert!(matches!(start("START"), Err(ParseError::Fatal)));
}

#[test]
fn start_missing_separator_is_fatal() {
    assert!(matches!(start("STARTfoo"), Err(ParseError::Fatal)));
}

#[test]
fn start_committed_after_keyword() {
    assert!(matches!(start("STARTED 10"), Err(ParseError::Fatal)));
    assert!(matches!(start("START AT"), Err(ParseError::Fatal)));
    assert!(matches!(start("START ATx"), Err(ParseError::Fatal)));
}

#[test]
fn other_clause_is_non_match() {
    assert!(matches!(start("LIMIT 5"), Err(ParseError::NoMatch)));
    assert!(matches!(start("STAR 1"), Err(ParseError::NoMatch)));
    assert!(matches!(start(""), Err(ParseError::NoMatch)));
}

#[test]
fn evaluate_non_negative() {
    let (_, out) = start("START 100").unwrap();
    assert_eq!(out.process(&Context::new()), Ok(100));
    let (_, zero) = start("START 0").unwrap();
    assert_eq!(zero.process(&Context::new()), Ok(0));
}

#[test]
fn evaluate_largest_number() {
    let (_, out) = start("START 9223372036854775807").unwrap();
    assert_eq!(out.process(&Context::new()), Ok(9223372036854775807));
}

#[test]
fn evaluate_negative_is_invalid() {
    let (_, out) = start("START -1").unwrap();
    match out.process(&Context::new()) {
        Err(Error::InvalidStart { value }) => assert!(value.contains("-1")),
        other => panic!("expected an invalid-value error, got {:?}", other),
    }
}

#[test]
fn evaluate_string_is_invalid() {
    let (_, out) = start("START \"abc\"").unwrap();
    assert_eq!(out, Start(Value::Strand(String::from("abc"))));
    match out.process(&Context::new()) {
        Err(Error::InvalidStart { value }) => assert!(value.contains("abc")),
        other => panic!("expected an invalid-value error, got {:?}", other),
    }
}

#[test]
fn evaluate_smallest_number_is_invalid() {
    let (_, out) = start("START -9223372036854775808").unwrap();
    match out.process(&Context::new()) {
        Err(Error::InvalidStart { value }) => {
            assert_eq!(value, "-9223372036854775808");
        },
        other => panic!("expected an invalid-value error, got {:?}", other),
    }
}

#[test]
fn at_sugar_is_equivalent() {
    let (rest_a, node_a) = start("START AT 7").unwrap();
    let (rest_b, node_b) = start("START 7").unwrap();
    assert_eq!(node_a, node_b);
    assert_eq!(rest_a, "");
    assert_eq!(rest_b, "");
    assert_eq!(
        node_a.process(&Context::new()),
        node_b.process(&Context::new())
    );
}

#[test]
fn render_never_emits_at() {
    let (_, out) = start("START AT 7").unwrap();
    assert_eq!(out.to_string(), "START 7");
}

#[test]
fn render_quotes_strings() {
    let (_, out) = start("START \"abc\"").unwrap();
    assert_eq!(out.to_string(), "START \"abc\"");
}

#[test]
fn render_is_canonical_for_leading_zeros() {
    let (_, out) = start("START 007").unwrap();
    assert_eq!(out, Start(Value::Number(7)));
    assert_eq!(out.to_string(), "START 7");
}

#[test]
fn separators_may_vary() {
    let (_, out) = start("START\t\n 5").unwrap();
    assert_eq!(out, Start(Value::Number(5)));
}

#[test]
fn number_too_large_is_fatal() {
    assert!(matches!(start("START 9223372036854775808"), Err(ParseError::Fatal)));
    assert!(matches!(start("START -9223372036854775809"), Err(ParseError::Fatal)));
    assert!(matches!(start("START 99999999999999999999"), Err(ParseError::Fatal)));
}

#[test]
fn unterminated_string_is_fatal() {
    assert!(matches!(start("START \"abc"), Err(ParseError::Fatal)));
}

#[test]
fn empty_string_value() {
    let (_, out) = start("START \"\"").unwrap();
    assert_eq!(out, Start(Value::Strand(String::new())));
    assert_eq!(out.to_string(), "START \"\"");
}

#[test]
fn codec_round_trip_number() {
    let node = Start(Value::Number(-42));
    let bytes = node.encode();
    assert_eq!(bytes[0], 1);
    assert_eq!(Start::decode(&bytes), Some(node));
}

#[test]
fn codec_round_trip_extremes() {
    for v in [0i64, 1, -1, i64::MAX, i64::MIN] {
        let node = Start(Value::Number(v));
        assert_eq!(Start::decode(&node.encode()), Some(node));
    }
}

#[test]
fn codec_round_trip_string() {
    let node = Start(Value::Strand(String::from("h\u{e9}llo \u{2192} world")));
    let bytes = node.encode();
    assert_eq!(bytes[0], 1);
    assert_eq!(Start::decode(&bytes), Some(node));
}

#[test]
fn codec_number_layout() {
    let node = Start(Value::Number(5));
    assert_eq!(node.encode(), vec![1, 0, 0, 5, 0, 0, 0, 0, 0, 0, 0]);
}

#[test]
fn codec_string_layout() {
    let node = Start(Value::Strand(String::from("A")));
    assert_eq!(
        node.encode(),
        vec![1, 1, 1, 0, 0, 0, 0, 0, 0, 0, 65, 0, 0, 0]
    );
}

#[test]
fn decode_rejects_malformed_buffers() {
    // an unknown format revision
    assert_eq!(Start::decode(&[2, 0, 0, 5, 0, 0, 0, 0, 0, 0, 0]), None);
    // an unknown value tag
    assert_eq!(Start::decode(&[1, 7]), None);
    // truncated buffers
    assert_eq!(Start::decode(&[]), None);
    assert_eq!(Start::decode(&[1]), None);
    assert_eq!(Start::decode(&[1, 0, 0, 5]), None);
    // a negative zero is never produced by the encoder
    assert_eq!(Start::decode(&[1, 0, 1, 0, 0, 0, 0, 0, 0, 0, 0]), None);
    // a surrogate code point is not a character
    assert_eq!(
        Start::decode(&[1, 1, 1, 0, 0, 0, 0, 0, 0, 0, 0x00, 0xD8, 0, 0]),
        None
    );
    // a string payload whose length disagrees with its header
    assert_eq!(Start::decode(&[1, 1, 2, 0, 0, 0, 0, 0, 0, 0, 65, 0, 0, 0]), None);
}
