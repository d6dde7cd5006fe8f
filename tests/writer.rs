use csv_stream::{ErrorKind, Payload, QuoteStyle, Terminator, Value, Writer, WriterBuilder};

fn buf_as_string(buf: Vec<u8>) -> String {
    String::from_utf8(buf).unwrap()
}

fn scalar(text: &str) -> Value {
    Value::Scalar(text.as_bytes().to_vec())
}

fn field(name: &str, value: Value) -> (Vec<u8>, Value) {
    (name.as_bytes().to_vec(), value)
}

fn foo_bar_baz() -> Value {
    Value::Aggregate(vec![
        field("foo", scalar(&42i32.to_string())),
        field("bar", scalar(&42.5f64.to_string())),
        field("baz", scalar(&true.to_string())),
    ])
}

#[test]
fn one_record() {
    let mut wtr = WriterBuilder::default().build();
    let mut buf = vec![];
    wtr.write_record(&mut buf, &["a".as_bytes(), "b".as_bytes(), "c".as_bytes()])
        .unwrap();

    assert_eq!(buf_as_string(buf), "a,b,c\n");
}

#[test]
fn one_empty_record() {
    let mut wtr = WriterBuilder::default().build();
    let mut buf = vec![];
    wtr.write_record(&mut buf, &["".as_bytes()]).unwrap();

    assert_eq!(buf_as_string(buf), "\"\"\n");
}

#[test]
fn two_empty_records() {
    let mut wtr = WriterBuilder::default().build();
    let mut buf = vec![];
    wtr.write_record(&mut buf, &["".as_bytes()]).unwrap();
    wtr.write_record(&mut buf, &["".as_bytes()]).unwrap();

    assert_eq!(buf_as_string(buf), "\"\"\n\"\"\n");
}

#[test]
fn serialize_with_headers() {
    let mut wtr = WriterBuilder::default().build();
    let mut buf = vec![];
    wtr.serialize(&mut buf, foo_bar_baz()).unwrap();
    assert_eq!(buf_as_string(buf), "foo,bar,baz\n42,42.5,true\n");
}

#[test]
fn serialize_no_headers() {
    let mut wtr = WriterBuilder::default().has_headers(false).build();
    let mut buf = vec![];
    wtr.serialize(&mut buf, foo_bar_baz()).unwrap();
    assert_eq!(buf_as_string(buf), "42,42.5,true\n");
}

#[test]
fn serialize_tuple() {
    let mut wtr = WriterBuilder::default().build();
    let mut buf = vec![];
    let tuple = Value::Sequence(vec![
        scalar(&true.to_string()),
        scalar(&1.3f64.to_string()),
        scalar("hi"),
    ]);
    wtr.serialize(&mut buf, tuple).unwrap();
    assert_eq!(buf_as_string(buf), "true,1.3,hi\n");
}

#[test]
fn flexible_allows_unequal_lengths() {
    let mut wtr = WriterBuilder::default().flexible(true).build();
    let mut buf = vec![];
    wtr.write_record(&mut buf, &["a".as_bytes(), "b".as_bytes()]).unwrap();
    wtr.write_record(&mut buf, &["x".as_bytes(), "y".as_bytes(), "z".as_bytes()])
        .unwrap();
    assert_eq!(buf_as_string(buf), "a,b\nx,y,z\n");
}

#[test]
fn unequal_lengths_fail_when_not_flexible() {
    let mut wtr = WriterBuilder::default().flexible(false).build();
    let mut buf = vec![];
    wtr.write_record(&mut buf, &["a".as_bytes(), "b".as_bytes()]).unwrap();
    let err = wtr
        .write_record(&mut buf, &["x".as_bytes(), "y".as_bytes(), "z".as_bytes()])
        .unwrap_err();
    match err.kind() {
        ErrorKind::UnequalLengths { expected_len, len } => {
            assert_eq!(*expected_len, 2);
            assert_eq!(*len, 3);
        }
        other => panic!("unexpected error: {:?}", other),
    }
    assert_eq!(
        err.message(),
        "CSV error: found record with 3 fields, but the previous record has 2 fields"
    );
}

#[test]
fn equal_lengths_never_fail() {
    let mut wtr = WriterBuilder::default().build();
    let mut buf = vec![];
    for row in [["1", "2"], ["3", "4"], ["5", "6"]] {
        wtr.write_record(&mut buf, &[row[0].as_bytes(), row[1].as_bytes()])
            .unwrap();
    }
    assert_eq!(buf_as_string(buf), "1,2\n3,4\n5,6\n");
}

#[test]
fn first_differing_row_fails_and_later_rows_are_judged_against_the_first() {
    let mut wtr = WriterBuilder::default().build();
    let mut buf = vec![];
    wtr.write_record(&mut buf, &["a".as_bytes()]).unwrap();
    wtr.write_record(&mut buf, &["b".as_bytes()]).unwrap();
    let err = wtr
        .write_record(&mut buf, &["c".as_bytes(), "d".as_bytes()])
        .unwrap_err();
    match err.into_kind() {
        ErrorKind::UnequalLengths { expected_len, len } => {
            assert_eq!((expected_len, len), (1, 2));
        }
        other => panic!("unexpected error: {:?}", other),
    }
}

#[test]
fn empty_record_equals_one_empty_field_in_every_quote_style() {
    for style in [
        QuoteStyle::Always,
        QuoteStyle::Necessary,
        QuoteStyle::NonNumeric,
        QuoteStyle::Never,
    ] {
        let mut zero = WriterBuilder::default().quote_style(style).build();
        let mut zero_buf = vec![];
        zero.write_record(&mut zero_buf, &[]).unwrap();

        let mut one = WriterBuilder::default().quote_style(style).build();
        let mut one_buf = vec![];
        one.write_record(&mut one_buf, &["".as_bytes()]).unwrap();

        assert_eq!(zero_buf, one_buf);
        assert_eq!(buf_as_string(zero_buf), "\"\"\n");
    }
}

#[test]
fn identical_configurations_give_identical_bytes() {
    let run = || {
        let mut wtr = WriterBuilder::default()
            .delimiter(b'|')
            .quote_style(QuoteStyle::Always)
            .terminator(Terminator::CRLF)
            .build();
        let mut buf = vec![];
        wtr.write_record(&mut buf, &["a\"b".as_bytes(), "c".as_bytes()])
            .unwrap();
        wtr.write_record(&mut buf, &["1".as_bytes(), "2".as_bytes()])
            .unwrap();
        buf
    };
    let first = run();
    let second = run();
    assert_eq!(first, second);
    assert_eq!(
        buf_as_string(first),
        "\"a\"\"b\"|\"c\"\r\n\"1\"|\"2\"\r\n"
    );
}

#[test]
fn fields_with_special_bytes_are_quoted() {
    let mut wtr = WriterBuilder::default().build();
    let mut buf = vec![];
    wtr.write_record(&mut buf, &["a,b".as_bytes(), "say \"hi\"".as_bytes(), "x\ny".as_bytes()])
        .unwrap();
    assert_eq!(
        buf_as_string(buf),
        "\"a,b\",\"say \"\"hi\"\"\",\"x\ny\"\n"
    );
}

#[test]
fn escape_replaces_doubled_quotes() {
    let mut wtr = WriterBuilder::default()
        .double_quote(false)
        .escape(b'\\')
        .build();
    let mut buf = vec![];
    wtr.write_record(&mut buf, &["a\"b".as_bytes()]).unwrap();
    assert_eq!(buf_as_string(buf), "\"a\\\"b\"\n");
}

#[test]
fn custom_quote_character() {
    let mut wtr = WriterBuilder::default().quote(b'\'').build();
    let mut buf = vec![];
    wtr.write_record(&mut buf, &["a,b".as_bytes()]).unwrap();
    assert_eq!(buf_as_string(buf), "'a,b'\n");
}

#[test]
fn non_numeric_quotes_only_text() {
    let mut wtr = WriterBuilder::default()
        .quote_style(QuoteStyle::NonNumeric)
        .build();
    let mut buf = vec![];
    wtr.write_record(&mut buf, &["12".as_bytes(), "1.5".as_bytes(), "ab".as_bytes()])
        .unwrap();
    assert_eq!(buf_as_string(buf), "12,1.5,\"ab\"\n");
}

#[test]
fn never_quotes_nothing() {
    let mut wtr = WriterBuilder::default()
        .quote_style(QuoteStyle::Never)
        .build();
    let mut buf = vec![];
    wtr.write_record(&mut buf, &["a,b".as_bytes(), "c".as_bytes()]).unwrap();
    assert_eq!(buf_as_string(buf), "a,b,c\n");
}

#[test]
fn any_terminator_byte() {
    let mut wtr = WriterBuilder::default()
        .terminator(Terminator::Any(b';'))
        .build();
    let mut buf = vec![];
    wtr.write_record(&mut buf, &["a".as_bytes(), "b".as_bytes()]).unwrap();
    assert_eq!(buf_as_string(buf), "a,b;");
}

#[test]
fn write_field_then_record_end() {
    let mut wtr = Writer::default();
    let mut buf = vec![];
    wtr.write_field(&mut buf, "a".as_bytes()).unwrap();
    assert_eq!(buf, b"a".to_vec());
    wtr.write_field(&mut buf, "b".as_bytes()).unwrap();
    assert_eq!(buf, b"a,b".to_vec());
    wtr.write_record(&mut buf, &[]).unwrap();
    assert_eq!(buf_as_string(buf), "a,b\n");
}

#[test]
fn header_written_once_for_a_sequence_of_aggregates() {
    let mut wtr = WriterBuilder::default().build();
    let mut buf = vec![];
    wtr.serialize(&mut buf, foo_bar_baz()).unwrap();
    wtr.serialize(&mut buf, foo_bar_baz()).unwrap();
    assert_eq!(
        buf_as_string(buf),
        "foo,bar,baz\n42,42.5,true\n42,42.5,true\n"
    );
}

#[test]
fn header_of_a_sequence_of_aggregates_concatenates_names() {
    let mut wtr = WriterBuilder::default().build();
    let mut buf = vec![];
    let v = Value::Sequence(vec![
        Value::Aggregate(vec![field("a", scalar("1"))]),
        Value::Aggregate(vec![field("b", scalar("2")), field("c", scalar("3"))]),
    ]);
    wtr.serialize(&mut buf, v).unwrap();
    assert_eq!(buf_as_string(buf), "a,b,c\n1,2,3\n");
}

#[test]
fn no_header_when_a_named_field_holds_a_container() {
    let mut wtr = WriterBuilder::default().build();
    let mut buf = vec![];
    let v = Value::Aggregate(vec![
        field("a", scalar("1")),
        field("b", Value::Sequence(vec![scalar("2"), scalar("3")])),
    ]);
    wtr.serialize(&mut buf, v).unwrap();
    assert_eq!(buf_as_string(buf), "1,2,3\n");
}

#[test]
fn no_header_when_a_scalar_stands_outside_an_aggregate() {
    let mut wtr = WriterBuilder::default().build();
    let mut buf = vec![];
    let v = Value::Sequence(vec![
        scalar("0"),
        Value::Aggregate(vec![field("a", scalar("1"))]),
    ]);
    wtr.serialize(&mut buf, v).unwrap();
    let v = Value::Aggregate(vec![field("a", scalar("2")), field("b", scalar("3"))]);
    wtr.serialize(&mut buf, v).unwrap();
    assert_eq!(buf_as_string(buf), "0,1\n2,3\n");
}

#[test]
fn header_row_sets_the_field_count() {
    let mut wtr = WriterBuilder::default().build();
    let mut buf = vec![];
    wtr.serialize(&mut buf, foo_bar_baz()).unwrap();
    let err = wtr
        .write_record(&mut buf, &["1".as_bytes(), "2".as_bytes()])
        .unwrap_err();
    match err.kind() {
        ErrorKind::UnequalLengths { expected_len, len } => {
            assert_eq!((*expected_len, *len), (3, 2));
        }
        other => panic!("unexpected error: {:?}", other),
    }
}

fn serialize_error_message(v: Value) -> String {
    let mut wtr = WriterBuilder::default().build();
    let mut buf = vec![];
    let err = wtr.serialize(&mut buf, v).unwrap_err();
    assert!(buf.is_empty());
    match err.kind() {
        ErrorKind::Serialize(m) => m.clone(),
        other => panic!("unexpected error: {:?}", other),
    }
}

#[test]
fn tuple_variant_is_rejected() {
    let v = Value::Aggregate(vec![field("a", Value::Variant(Payload::Tuple))]);
    assert_eq!(
        serialize_error_message(v),
        "serializing enum tuple variants is not supported"
    );
}

#[test]
fn struct_variant_is_rejected() {
    let v = Value::Sequence(vec![scalar("1"), Value::Variant(Payload::Struct)]);
    assert_eq!(
        serialize_error_message(v),
        "serializing enum struct variants is not supported"
    );
}

#[test]
fn keyed_container_is_rejected() {
    assert_eq!(
        serialize_error_message(Value::Keyed),
        "serializing maps is not supported"
    );
    let mut wtr = WriterBuilder::default().has_headers(false).build();
    let mut buf = vec![];
    let err = wtr.serialize(&mut buf, Value::Keyed).unwrap_err();
    assert_eq!(err.message(), "CSV write error: serializing maps is not supported");
}

#[test]
fn rejected_first_value_leaves_the_header_undecided() {
    let mut wtr = WriterBuilder::default().build();
    let mut buf = vec![];
    assert!(wtr.serialize(&mut buf, Value::Keyed).is_err());
    wtr.serialize(&mut buf, foo_bar_baz()).unwrap();
    assert_eq!(buf_as_string(buf), "foo,bar,baz\n42,42.5,true\n");
}

#[test]
fn room_check_for_serialize() {
    let wtr = Writer::default();
    assert!(wtr.can_serialize(0, &foo_bar_baz()));
    assert!(!wtr.can_serialize(usize::MAX - 10, &foo_bar_baz()));
    assert!(wtr.can_serialize(usize::MAX, &Value::Keyed));
}

#[test]
fn error_kind_round_trip() {
    let err = csv_stream::Error::new(ErrorKind::Serialize("bad".to_string()));
    match err.kind() {
        ErrorKind::Serialize(m) => assert_eq!(m, "bad"),
        other => panic!("unexpected error: {:?}", other),
    }
    assert_eq!(err.message(), "CSV write error: bad");
    match err.into_kind() {
        ErrorKind::Serialize(m) => assert_eq!(m, "bad"),
        other => panic!("unexpected error: {:?}", other),
    }
}

#[test]
fn unequal_lengths_message_in_decimal() {
    let err = csv_stream::Error::new(ErrorKind::UnequalLengths {
        expected_len: 120,
        len: 4096,
    });
    assert_eq!(
        err.message(),
        "CSV error: found record with 4096 fields, but the previous record has 120 fields"
    );
}
