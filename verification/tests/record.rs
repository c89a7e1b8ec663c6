use quantlib::record::{
    assemble_record, decode_record, DecodeError, Field, Heartbeat, RecordFields, Shape,
    StreamItem, WireItem, WirePrice, MAX_FINITE_BITS,
};

fn text(s: &str) -> Field {
    Field::Text(s.to_string())
}

fn quote(bid: &str, ask: &str) -> WireItem {
    WireItem::Price(WirePrice {
        bid: bid.to_string(),
        ask: ask.to_string(),
        time: 7,
        instrument: "EUR_USD".to_string(),
    })
}

fn error_of(json: &str) -> DecodeError {
    match decode_record(json.as_bytes()) {
        Err(e) => e,
        Ok(item) => panic!("expected a refusal, got {:?}", item),
    }
}

#[test]
fn price_is_read_from_json() {
    let json = r#"{"type":"PRICE","time":"2023-09-15T20:58:00.145575162Z","closeoutBid":"1.06561","closeoutAsk":"1.06616","instrument":"EUR_USD","tradeable":false}"#;
    match decode_record(json.as_bytes()) {
        Ok(WireItem::Price(p)) => {
            assert_eq!(p.bid, "1.06561");
            assert_eq!(p.ask, "1.06616");
            assert_eq!(p.instrument, "EUR_USD");
            assert_eq!(p.time, 1_694_811_480_145);
        }
        other => panic!("expected a price, got {:?}", other),
    }
}

#[test]
fn member_order_does_not_matter() {
    let a = r#"{"instrument":"X","time":"1970-01-01T00:00:01Z","closeoutAsk":"2","closeoutBid":"1"}"#;
    let b = r#"{"closeoutBid":"1","closeoutAsk":"2","instrument":"X","time":"1970-01-01T00:00:01Z"}"#;
    let left = format!("{:?}", decode_record(a.as_bytes()));
    let right = format!("{:?}", decode_record(b.as_bytes()));
    assert_eq!(left, right);
    assert!(left.contains("time: 1000"));
}

#[test]
fn heartbeat_is_read_from_json() {
    match decode_record(br#"{"type":"HEARTBEAT","time":"2024-01-01T00:00:05Z"}"#) {
        Ok(WireItem::Heartbeat(h)) => assert_eq!(h.time, "2024-01-01T00:00:05Z"),
        other => panic!("expected a heartbeat, got {:?}", other),
    }
}

#[test]
fn time_with_offset_is_converted() {
    let json = r#"{"closeoutBid":"1","closeoutAsk":"2","instrument":"X","time":"1970-01-01T01:00:00.250+01:00"}"#;
    match decode_record(json.as_bytes()) {
        Ok(WireItem::Price(p)) => assert_eq!(p.time, 250),
        other => panic!("expected a price, got {:?}", other),
    }
}

#[test]
fn bytes_that_are_no_json_are_malformed() {
    assert_eq!(error_of("{\"time\":"), DecodeError::MalformedSyntax);
    assert_eq!(error_of("{\"time\" \"a\"}"), DecodeError::MalformedSyntax);
    assert_eq!(error_of("nonsense"), DecodeError::MalformedSyntax);
    assert_eq!(error_of(""), DecodeError::MalformedSyntax);
    assert_eq!(error_of("{\"time\":\"a\"} x"), DecodeError::MalformedSyntax);
}

#[test]
fn other_json_is_ambiguous() {
    assert_eq!(error_of("{}"), DecodeError::AmbiguousShape);
    assert_eq!(error_of("[]"), DecodeError::AmbiguousShape);
    assert_eq!(error_of("null"), DecodeError::AmbiguousShape);
    assert_eq!(error_of("17"), DecodeError::AmbiguousShape);
    assert_eq!(error_of("\"time\""), DecodeError::AmbiguousShape);
    assert_eq!(error_of(r#"{"closeoutBid":"1","closeoutAsk":"2"}"#), DecodeError::AmbiguousShape);
    assert_eq!(
        error_of(r#"{"closeoutBid":"1","time":"2024-01-01T00:00:05Z"}"#),
        DecodeError::AmbiguousShape
    );
    assert_eq!(
        error_of(r#"{"closeoutBid":"1","closeoutAsk":"2","instrument":"X"}"#),
        DecodeError::AmbiguousShape
    );
    assert_eq!(error_of(r#"{"time":5}"#), DecodeError::AmbiguousShape);
    assert_eq!(
        error_of(r#"{"closeoutBid":"1","closeoutAsk":"2","instrument":7,"time":"2024-01-01T00:00:05Z"}"#),
        DecodeError::AmbiguousShape
    );
}

#[test]
fn price_that_is_no_string_is_a_numeric_error() {
    assert_eq!(
        error_of(r#"{"closeoutBid":1.5,"closeoutAsk":"2","instrument":"X","time":"2024-01-01T00:00:05Z"}"#),
        DecodeError::NumericFormat
    );
    assert_eq!(
        error_of(r#"{"closeoutBid":"1.5","closeoutAsk":null,"instrument":"X","time":"2024-01-01T00:00:05Z"}"#),
        DecodeError::NumericFormat
    );
}

#[test]
fn bad_time_is_a_timestamp_error() {
    assert_eq!(
        error_of(r#"{"closeoutBid":"1","closeoutAsk":"2","instrument":"X","time":"yesterday"}"#),
        DecodeError::TimestampFormat
    );
    assert_eq!(
        error_of(r#"{"closeoutBid":"1","closeoutAsk":"2","instrument":"X","time":1704067200}"#),
        DecodeError::TimestampFormat
    );
    assert_eq!(
        error_of(r#"{"closeoutBid":"1","closeoutAsk":"2","instrument":"X","time":"1969-12-31T23:59:59Z"}"#),
        DecodeError::TimestampFormat
    );
}

#[test]
fn shape_goes_by_the_members_present() {
    let all = RecordFields { bid: text("1"), ask: Field::Other, instrument: text("X"), time: text("t") };
    assert_eq!(all.shape(), Shape::Price);
    let only_time =
        RecordFields { bid: Field::Absent, ask: Field::Absent, instrument: Field::Absent, time: Field::Other };
    assert_eq!(only_time.shape(), Shape::Heartbeat);
    let no_time =
        RecordFields { bid: text("1"), ask: text("2"), instrument: text("X"), time: Field::Absent };
    assert_eq!(no_time.shape(), Shape::Neither);
    let nothing =
        RecordFields { bid: Field::Absent, ask: Field::Absent, instrument: Field::Absent, time: Field::Absent };
    assert_eq!(nothing.shape(), Shape::Neither);
    let half =
        RecordFields { bid: Field::Absent, ask: text("2"), instrument: Field::Absent, time: text("t") };
    assert_eq!(half.shape(), Shape::Neither);
}

#[test]
fn record_is_assembled_from_its_members() {
    let fields = RecordFields { bid: text("1.5"), ask: text("1.6"), instrument: text("X"), time: text("t") };
    match assemble_record(fields, Some(42)) {
        Ok(WireItem::Price(p)) => {
            assert_eq!((p.bid.as_str(), p.ask.as_str(), p.instrument.as_str(), p.time), ("1.5", "1.6", "X", 42));
        }
        other => panic!("expected a price, got {:?}", other),
    }
    let fields = RecordFields { bid: text("1.5"), ask: text("1.6"), instrument: text("X"), time: text("t") };
    assert!(matches!(assemble_record(fields, None), Err(DecodeError::TimestampFormat)));
    let fields = RecordFields { bid: text("1.5"), ask: text("1.6"), instrument: text("X"), time: text("t") };
    assert!(matches!(assemble_record(fields, Some(-1)), Err(DecodeError::TimestampFormat)));
    let fields = RecordFields { bid: text("1.5"), ask: text("1.6"), instrument: text("X"), time: text("t") };
    assert!(matches!(assemble_record(fields, Some(0)), Ok(WireItem::Price(_))));
    let fields =
        RecordFields { bid: Field::Absent, ask: Field::Absent, instrument: Field::Absent, time: text("now") };
    match assemble_record(fields, None) {
        Ok(WireItem::Heartbeat(h)) => assert_eq!(h.time, "now"),
        other => panic!("expected a heartbeat, got {:?}", other),
    }
}

#[test]
fn prices_must_be_finite_and_not_negative() {
    let one = 1.0f32.to_bits();
    match quote("1", "1").into_item(Some(one), Some(0)) {
        Ok(StreamItem::Price(p)) => {
            assert_eq!((p.bid, p.ask, p.time), (one, 0, 7));
            assert_eq!(p.instrument, "EUR_USD");
        }
        other => panic!("expected a price, got {:?}", other),
    }
    assert!(matches!(quote("1", "1").into_item(Some(MAX_FINITE_BITS), Some(one)), Ok(_)));
    assert_eq!(MAX_FINITE_BITS, f32::MAX.to_bits());
    let refused = [
        (None, Some(one)),
        (Some(one), None),
        (None, None),
        (Some(f32::INFINITY.to_bits()), Some(one)),
        (Some(one), Some(f32::NAN.to_bits())),
        (Some((-1.0f32).to_bits()), Some(one)),
        (Some(one), Some(f32::NEG_INFINITY.to_bits())),
    ];
    for (bid, ask) in refused {
        assert!(matches!(quote("1", "1").into_item(bid, ask), Err(DecodeError::NumericFormat)));
    }
}

#[test]
fn heartbeat_needs_no_prices() {
    let item = WireItem::Heartbeat(Heartbeat { time: "t".to_string() });
    match item.into_item(None, None) {
        Ok(StreamItem::Heartbeat(h)) => assert_eq!(h.time, "t"),
        other => panic!("expected a heartbeat, got {:?}", other),
    }
}
