use quantlib::assembler::Assembler;
use quantlib::record::{DecodeError, StreamItem, WireItem};

fn bits(text: &str) -> Option<u32> {
    text.parse::<f32>().ok().map(f32::to_bits)
}

fn resolve(item: WireItem) -> Result<StreamItem, DecodeError> {
    let (bid, ask) = match &item {
        WireItem::Price(p) => (bits(&p.bid), bits(&p.ask)),
        WireItem::Heartbeat(_) => (None, None),
    };
    item.into_item(bid, ask)
}

fn describe(items: Vec<WireItem>) -> Vec<String> {
    items.into_iter().map(|item| format!("{:?}", resolve(item))).collect()
}

const STREAM: &[u8] = b"{\"closeoutBid\":\"1.10000\",\"closeoutAsk\":\"1.10050\",\"time\":\"2024-01-01T00:00:00Z\",\"instrument\":\"EUR_USD\"}\n{\"time\":\"2024-01-01T00:00:05Z\"}\n  {\"type\":\"PRICE\",\"instrument\":\"USD_JPY\",\"closeoutAsk\":\"141.02\",\"closeoutBid\":\"140.98\",\"time\":\"2024-01-01T00:00:06.5Z\",\"bids\":[{\"price\":\"140.98\",\"note\":\"a } in \\\" text {\"}]}\r\n";

#[test]
fn object_split_across_two_chunks() {
    let chunk1 = br#"{"closeoutBid":"1.10000","closeoutAsk":"1.10050","time":"2024-01-01T00:00:00Z","instrument":"EUR_USD""#;
    let chunk2 = b"}\n{\"time\":\"2024-01-01T00:00:05Z\"}\n";
    let mut assembler = Assembler::new();

    let (items, errors) = assembler.ingest(chunk1);
    assert!(items.is_empty());
    assert!(errors.is_empty());
    assert_eq!(assembler.buffer(), &chunk1[..]);
    assert!(assembler.holds_partial_value());

    let (items, errors) = assembler.ingest(chunk2);
    assert!(errors.is_empty());
    assert_eq!(items.len(), 2);
    let mut items = items.into_iter();
    match resolve(items.next().unwrap()) {
        Ok(StreamItem::Price(price)) => {
            assert_eq!(price.instrument, "EUR_USD");
            assert_eq!(price.bid, 1.10000f32.to_bits());
            assert_eq!(price.ask, 1.10050f32.to_bits());
            assert_eq!(price.time, 1_704_067_200_000);
        }
        other => panic!("expected a price, got {:?}", other),
    }
    match resolve(items.next().unwrap()) {
        Ok(StreamItem::Heartbeat(heartbeat)) => {
            assert_eq!(heartbeat.time, "2024-01-01T00:00:05Z");
        }
        other => panic!("expected a heartbeat, got {:?}", other),
    }
    // Nothing of a value is left: only the line feed that ended the chunk.
    assert!(!assembler.holds_partial_value());
    assert_eq!(assembler.buffer(), b"\n");
}

#[test]
fn whole_stream_in_one_chunk() {
    let mut assembler = Assembler::new();
    let (items, errors) = assembler.ingest(STREAM);
    assert!(errors.is_empty());
    assert_eq!(items.len(), 3);
    let mut items = items.into_iter();
    assert!(matches!(resolve(items.next().unwrap()), Ok(StreamItem::Price(_))));
    assert!(matches!(resolve(items.next().unwrap()), Ok(StreamItem::Heartbeat(_))));
    match resolve(items.next().unwrap()) {
        Ok(StreamItem::Price(price)) => {
            assert_eq!(price.instrument, "USD_JPY");
            assert_eq!(price.bid, 140.98f32.to_bits());
            assert_eq!(price.ask, 141.02f32.to_bits());
            assert_eq!(price.time, 1_704_067_206_500);
        }
        other => panic!("expected a price, got {:?}", other),
    }
    assert_eq!(assembler.buffer(), b"\r\n");
}

#[test]
fn every_cut_in_two_gives_the_same_items() {
    let mut whole = Assembler::new();
    let (items, _) = whole.ingest(STREAM);
    let expected = describe(items);
    assert_eq!(expected.len(), 3);
    for cut in 0..=STREAM.len() {
        let mut assembler = Assembler::new();
        let (first, first_errors) = assembler.ingest(&STREAM[..cut]);
        let (second, second_errors) = assembler.ingest(&STREAM[cut..]);
        assert!(first_errors.is_empty() && second_errors.is_empty());
        let mut got = describe(first);
        got.extend(describe(second));
        assert_eq!(got, expected, "cut at {}", cut);
        assert_eq!(assembler.buffer(), whole.buffer());
    }
}

#[test]
fn byte_by_byte_gives_the_same_items() {
    let mut whole = Assembler::new();
    let (items, _) = whole.ingest(STREAM);
    let expected = describe(items);
    let mut assembler = Assembler::new();
    let mut got = Vec::new();
    for byte in STREAM {
        let (items, errors) = assembler.ingest(&[*byte]);
        assert!(errors.is_empty());
        got.extend(describe(items));
    }
    assert_eq!(got, expected);
    assert_eq!(assembler.buffer(), whole.buffer());
}

#[test]
fn buffer_keeps_only_what_is_unfinished() {
    let mut assembler = Assembler::new();
    let (items, _) = assembler.ingest(b"{\"time\":\"a\"} \n\t{\"time\":\"b\"}");
    assert_eq!(items.len(), 2);
    assert_eq!(assembler.buffer(), b"");
    assert!(!assembler.holds_partial_value());

    let (items, _) = assembler.ingest(b" \n{\"time\":\"c\"}\n{\"ti");
    assert_eq!(items.len(), 1);
    assert_eq!(assembler.buffer(), b"\n{\"ti");
    assert!(assembler.holds_partial_value());

    let (items, _) = assembler.ingest(b"me\":\"d\"}  ");
    assert_eq!(items.len(), 1);
    assert_eq!(assembler.buffer(), b"  ");
    assert!(!assembler.holds_partial_value());
}

#[test]
fn empty_chunk_changes_nothing() {
    let mut assembler = Assembler::new();
    let (items, errors) = assembler.ingest(b"{\"time\":");
    assert!(items.is_empty() && errors.is_empty());
    let (items, errors) = assembler.ingest(b"");
    assert!(items.is_empty() && errors.is_empty());
    assert_eq!(assembler.buffer(), b"{\"time\":");
}

#[test]
fn malformed_value_is_reported_and_the_rest_goes_on() {
    let mut assembler = Assembler::new();
    let (items, errors) =
        assembler.ingest(b"{\"time\":\"a\"}\n{\"time\" \"b\"}\n{\"time\":\"c\"}\n");
    assert_eq!(errors, vec![DecodeError::MalformedSyntax]);
    let times: Vec<String> = items
        .into_iter()
        .map(|item| match item {
            WireItem::Heartbeat(h) => h.time,
            WireItem::Price(_) => panic!("no price was sent"),
        })
        .collect();
    assert_eq!(times, vec!["a".to_string(), "c".to_string()]);
    assert_eq!(assembler.buffer(), b"\n");
}

#[test]
fn values_that_are_no_record_are_refused_in_order() {
    let mut assembler = Assembler::new();
    let (items, errors) = assembler.ingest(
        b"[1, 2] \"text\" 123 nonsense {\"closeoutBid\":\"1.0\"} {\"time\":\"t\"} {}\n",
    );
    assert_eq!(
        errors,
        vec![
            DecodeError::AmbiguousShape,
            DecodeError::AmbiguousShape,
            DecodeError::AmbiguousShape,
            DecodeError::MalformedSyntax,
            DecodeError::AmbiguousShape,
            DecodeError::AmbiguousShape,
        ]
    );
    assert_eq!(items.len(), 1);
}

#[test]
fn bare_value_waits_for_its_end() {
    let mut assembler = Assembler::new();
    let (items, errors) = assembler.ingest(b"12");
    assert!(items.is_empty() && errors.is_empty());
    assert_eq!(assembler.buffer(), b"12");
    let (items, errors) = assembler.ingest(b"3 ");
    assert!(items.is_empty());
    assert_eq!(errors, vec![DecodeError::AmbiguousShape]);
    assert_eq!(assembler.buffer(), b" ");
}

#[test]
fn brackets_inside_strings_do_not_count() {
    let mut assembler = Assembler::new();
    let (items, errors) = assembler.ingest(b"{\"time\":\"}{\\\"]\\\\\"}{\"time\":\"x\"}");
    assert!(errors.is_empty());
    let times: Vec<String> = items
        .into_iter()
        .map(|item| match item {
            WireItem::Heartbeat(h) => h.time,
            WireItem::Price(_) => panic!("no price was sent"),
        })
        .collect();
    assert_eq!(times, vec!["}{\"]\\".to_string(), "x".to_string()]);
    assert!(assembler.buffer().is_empty());
}

#[test]
fn values_end_where_a_json_reader_says_they_end() {
    let streams: [&[u8]; 5] = [
        STREAM,
        b"{\"a\":{\"b\":[1,2,{\"c\":\"]}\"}]}}  [1,[2],\"x\"] \"one\"\"two\" 12 true{\"k\":null}\n",
        b"   \n\t ",
        b"",
        b"{\"time\":\"a\\\\\"}{\"time\":\"\\u007b\"}\r\n[]{}\n",
    ];
    for stream in streams {
        let mut reader = serde_json::Deserializer::from_slice(stream).into_iter::<serde_json::Value>();
        let mut count = 0;
        let mut end = 0;
        while let Some(value) = reader.next() {
            assert!(value.is_ok());
            count += 1;
            end = reader.byte_offset();
        }
        let mut assembler = Assembler::new();
        let (items, errors) = assembler.ingest(stream);
        assert_eq!(items.len() + errors.len(), count);
        assert!(errors.iter().all(|e| *e == DecodeError::AmbiguousShape));
        assert_eq!(assembler.buffer(), &stream[end..]);
    }
}
