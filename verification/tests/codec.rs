use quantlib::codec::{bytes_to_price, decode, encode, encode_into, load_data, RECORD_LEN};
use quantlib::record::Price;

fn price(time: u64, bid: f32, ask: f32) -> Price {
    Price { bid: bid.to_bits(), ask: ask.to_bits(), time, instrument: "EUR_USD".to_string() }
}

#[test]
fn record_is_sixteen_bytes_big_endian() {
    let bytes = encode(&price(0x0102_0304_0506_0708, 1.0, -2.0));
    assert_eq!(RECORD_LEN, 16);
    assert_eq!(
        bytes,
        vec![1, 2, 3, 4, 5, 6, 7, 8, 0x3f, 0x80, 0, 0, 0xc0, 0, 0, 0]
    );
}

#[test]
fn encoding_agrees_with_the_standard_library() {
    let p = price(1_704_067_200_000, 1.10000, 1.10050);
    let mut expected = Vec::new();
    expected.extend_from_slice(&1_704_067_200_000u64.to_be_bytes());
    expected.extend_from_slice(&1.10000f32.to_be_bytes());
    expected.extend_from_slice(&1.10050f32.to_be_bytes());
    assert_eq!(encode(&p), expected);
}

#[test]
fn decoding_gives_back_what_was_encoded() {
    let cases = [
        (0u64, 0.0f32, 0.0f32),
        (1, 1.10000, 1.10050),
        (u64::MAX, f32::MAX, f32::MIN_POSITIVE),
        (1_694_811_480_145, 140.98, 141.02),
        (42, f32::INFINITY, -0.0),
    ];
    for (time, bid, ask) in cases {
        let decoded = decode(&encode(&price(time, bid, ask))).unwrap();
        assert_eq!(decoded.time, time);
        assert_eq!(decoded.bid, bid.to_bits());
        assert_eq!(decoded.ask, ask.to_bits());
        assert_eq!(decoded.instrument, "");
    }
    let nan = price(9, f32::NAN, f32::NAN);
    let decoded = decode(&encode(&nan)).unwrap();
    assert_eq!((decoded.bid, decoded.ask), (nan.bid, nan.ask));
}

#[test]
fn other_lengths_are_truncated_records() {
    for len in [0usize, 1, 15, 17, 32] {
        let bytes = vec![0u8; len];
        assert_eq!(decode(&bytes).unwrap_err().len, len);
        assert_eq!(bytes_to_price(&bytes).unwrap_err().len, len);
    }
    assert!(decode(&[0u8; 16]).is_ok());
}

#[test]
fn bytes_to_price_reads_one_tick() {
    let bytes = [0, 0, 0, 0, 0, 0, 1, 0, 0x3f, 0x80, 0, 0, 0x40, 0, 0, 0];
    let p = bytes_to_price(&bytes).unwrap();
    assert_eq!(p.time, 256);
    assert_eq!(f32::from_bits(p.bid), 1.0);
    assert_eq!(f32::from_bits(p.ask), 2.0);
    assert_eq!(p.instrument, "");
    assert_eq!(encode(&p), bytes.to_vec());
}

#[test]
fn encode_into_appends() {
    let mut out = vec![9u8];
    encode_into(&mut out, 1, 2, 3);
    assert_eq!(out, vec![9, 0, 0, 0, 0, 0, 0, 0, 1, 0, 0, 0, 2, 0, 0, 0, 3]);
}

#[test]
fn load_data_reads_whole_ticks_only() {
    let mut data = Vec::new();
    data.extend(encode(&price(10, 1.0, 2.0)));
    data.extend(encode(&price(20, 3.0, 4.0)));
    data.extend_from_slice(&[1, 2, 3]);
    let prices = load_data(&data);
    assert_eq!(prices.len(), 2);
    assert_eq!((prices[0].time, prices[0].bid, prices[0].ask), (10, 1.0f32.to_bits(), 2.0f32.to_bits()));
    assert_eq!((prices[1].time, prices[1].bid, prices[1].ask), (20, 3.0f32.to_bits(), 4.0f32.to_bits()));
    assert!(load_data(&[0u8; 15]).is_empty());
    assert!(load_data(&[]).is_empty());
}
