//! The fixed 16-byte binary form of a price tick: eight bytes of timestamp,
//! four of bid, four of ask, each big-endian.

use crate::record::{Price, PriceView};
use vstd::prelude::*;
use vstd::slice::slice_subrange;

verus! {

/// Length in bytes of one encoded tick.
pub const RECORD_LEN: usize = 16;

/// Decoding was handed something other than sixteen bytes.
#[derive(Debug, Clone, Copy, PartialEq, Eq, Structural)]
pub struct TruncatedRecord {
    /// The length that was handed in.
    pub len: usize,
}

/// Byte `k` of `x`, counted from the least significant one.
pub open spec fn byte_of(x: u64, k: u64) -> u8 {
    ((x >> (8 * k)) & 0xff) as u8
}

/// The eight bytes of `x`, most significant first.
pub open spec fn be_bytes_u64(x: u64) -> Seq<u8> {
    seq![
        byte_of(x, 7),
        byte_of(x, 6),
        byte_of(x, 5),
        byte_of(x, 4),
        byte_of(x, 3),
        byte_of(x, 2),
        byte_of(x, 1),
        byte_of(x, 0),
    ]
}

/// The four bytes of `x`, most significant first.
pub open spec fn be_bytes_u32(x: u32) -> Seq<u8> {
    seq![byte_of(x as u64, 3), byte_of(x as u64, 2), byte_of(x as u64, 1), byte_of(x as u64, 0)]
}

/// The number whose big-endian bytes are `s[at..at + 8]`.
pub open spec fn be_u64_at(s: Seq<u8>, at: int) -> u64 {
    (s[at] as u64) << 56 | (s[at + 1] as u64) << 48 | (s[at + 2] as u64) << 40 | (s[at + 3] as u64)
        << 32 | (s[at + 4] as u64) << 24 | (s[at + 5] as u64) << 16 | (s[at + 6] as u64) << 8 | (
    s[at + 7] as u64)
}

/// The number whose big-endian bytes are `s[at..at + 4]`.
pub open spec fn be_u32_at(s: Seq<u8>, at: int) -> u32 {
    (s[at] as u32) << 24 | (s[at + 1] as u32) << 16 | (s[at + 2] as u32) << 8 | (s[at + 3] as u32)
}

/// The sixteen bytes that stand for a tick.
pub open spec fn encode_spec(time: u64, bid: u32, ask: u32) -> Seq<u8> {
    be_bytes_u64(time) + be_bytes_u32(bid) + be_bytes_u32(ask)
}

/// The timestamp that sixteen bytes stand for.
pub open spec fn decoded_time(s: Seq<u8>) -> u64 {
    be_u64_at(s, 0)
}

/// The bid that sixteen bytes stand for.
pub open spec fn decoded_bid(s: Seq<u8>) -> u32 {
    be_u32_at(s, 8)
}

/// The ask that sixteen bytes stand for.
pub open spec fn decoded_ask(s: Seq<u8>) -> u32 {
    be_u32_at(s, 12)
}

proof fn lemma_u64_round_trip(x: u64)
    ensures
        be_u64_at(be_bytes_u64(x), 0) == x,
{
    assert((((x >> 56) & 0xff) as u8 as u64) << 56
        | (((x >> 48) & 0xff) as u8 as u64) << 48
        | (((x >> 40) & 0xff) as u8 as u64) << 40
        | (((x >> 32) & 0xff) as u8 as u64) << 32
        | (((x >> 24) & 0xff) as u8 as u64) << 24
        | (((x >> 16) & 0xff) as u8 as u64) << 16
        | (((x >> 8) & 0xff) as u8 as u64) << 8
        | (((x >> 0) & 0xff) as u8 as u64) == x) by (bit_vector);
}

proof fn lemma_u32_round_trip(x: u32)
    ensures
        be_u32_at(be_bytes_u32(x), 0) == x,
{
    let y = x as u64;
    assert((((y >> 24) & 0xff) as u8 as u32) << 24 | (((y >> 16) & 0xff) as u8 as u32) << 16 | (((y
        >> 8) & 0xff) as u8 as u32) << 8 | (((y >> 0) & 0xff) as u8 as u32) == x) by (bit_vector)
        requires
            y == x as u64,
    ;
}

/// Decoding what was encoded gives back the timestamp exactly and the bits of
/// both prices unchanged.
pub proof fn lemma_round_trip(time: u64, bid: u32, ask: u32)
    ensures
        encode_spec(time, bid, ask).len() == RECORD_LEN,
        decoded_time(encode_spec(time, bid, ask)) == time,
        decoded_bid(encode_spec(time, bid, ask)) == bid,
        decoded_ask(encode_spec(time, bid, ask)) == ask,
        decode_spec(encode_spec(time, bid, ask)) == (PriceView {
            bid,
            ask,
            time,
            instrument: Seq::empty(),
        }),
{
    lemma_u64_round_trip(time);
    lemma_u32_round_trip(bid);
    lemma_u32_round_trip(ask);
    let s = encode_spec(time, bid, ask);
    let t = be_bytes_u64(time);
    let b = be_bytes_u32(bid);
    let a = be_bytes_u32(ask);
    assert(s.len() == 16);
    assert forall|i: int| 0 <= i < 8 implies s[i] == t[i] by {}
    assert forall|i: int| 0 <= i < 4 implies s[8 + i] == b[i] by {}
    assert forall|i: int| 0 <= i < 4 implies s[12 + i] == a[i] by {}
}

fn put_u64(out: &mut Vec<u8>, x: u64)
    ensures
        final(out)@ == old(out)@ + be_bytes_u64(x),
{
    out.push(((x >> 56) & 0xff) as u8);
    out.push(((x >> 48) & 0xff) as u8);
    out.push(((x >> 40) & 0xff) as u8);
    out.push(((x >> 32) & 0xff) as u8);
    out.push(((x >> 24) & 0xff) as u8);
    out.push(((x >> 16) & 0xff) as u8);
    out.push(((x >> 8) & 0xff) as u8);
    out.push((x & 0xff) as u8);
    proof {
        assert(x & 0xff == (x >> 0) & 0xff) by (bit_vector);
        assert(out@ =~= old(out)@ + be_bytes_u64(x));
    }
}

fn put_u32(out: &mut Vec<u8>, x: u32)
    ensures
        final(out)@ == old(out)@ + be_bytes_u32(x),
{
    let y: u64 = x as u64;
    out.push(((y >> 24) & 0xff) as u8);
    out.push(((y >> 16) & 0xff) as u8);
    out.push(((y >> 8) & 0xff) as u8);
    out.push((y & 0xff) as u8);
    proof {
        assert(y & 0xff == (y >> 0) & 0xff) by (bit_vector);
        assert(out@ =~= old(out)@ + be_bytes_u32(x));
    }
}

fn get_u64(bytes: &[u8], at: usize) -> (x: u64)
    requires
        at + 8 <= bytes@.len(),
    ensures
        x == be_u64_at(bytes@, at as int),
{
    (bytes[at] as u64) << 56 | (bytes[at + 1] as u64) << 48 | (bytes[at + 2] as u64) << 40 | (
    bytes[at + 3] as u64) << 32 | (bytes[at + 4] as u64) << 24 | (bytes[at + 5] as u64) << 16 | (
    bytes[at + 6] as u64) << 8 | (bytes[at + 7] as u64)
}

fn get_u32(bytes: &[u8], at: usize) -> (x: u32)
    requires
        at + 4 <= bytes@.len(),
    ensures
        x == be_u32_at(bytes@, at as int),
{
    (bytes[at] as u32) << 24 | (bytes[at + 1] as u32) << 16 | (bytes[at + 2] as u32) << 8 | (
    bytes[at + 3] as u32)
}

/// Appends the sixteen bytes of a tick to `out`.
pub fn encode_into(out: &mut Vec<u8>, time: u64, bid: u32, ask: u32)
    ensures
        final(out)@ == old(out)@ + encode_spec(time, bid, ask),
{
    put_u64(out, time);
    put_u32(out, bid);
    put_u32(out, ask);
    proof {
        assert(out@ =~= old(out)@ + encode_spec(time, bid, ask));
    }
}

/// The sixteen bytes that stand for `price`: timestamp, bid, ask. The
/// instrument is not part of the record.
pub fn encode(price: &Price) -> (out: Vec<u8>)
    ensures
        out@ == encode_spec(price.time, price.bid, price.ask),
        out@.len() == RECORD_LEN,
{
    let mut out: Vec<u8> = Vec::new();
    encode_into(&mut out, price.time, price.bid, price.ask);
    proof {
        assert(out@ =~= encode_spec(price.time, price.bid, price.ask));
    }
    out
}

/// Reads one tick back from its sixteen bytes. Any other length is refused;
/// sixteen bytes always decode, to a tick with an empty instrument name.
pub fn decode(bytes: &[u8]) -> (r: Result<Price, TruncatedRecord>)
    ensures
        bytes@.len() == RECORD_LEN <==> r is Ok,
        r matches Ok(p) ==> p@ == decode_spec(bytes@),
        r matches Err(e) ==> e.len == bytes@.len(),
{
    if bytes.len() != RECORD_LEN {
        return Err(TruncatedRecord { len: bytes.len() });
    }
    let time = get_u64(bytes, 0);
    let bid = get_u32(bytes, 8);
    let ask = get_u32(bytes, 12);
    Ok(Price { bid, ask, time, instrument: String::new() })
}

/// Reads one tick back from its sixteen bytes, as `decode` does.
pub fn bytes_to_price(bytes: &[u8]) -> (r: Result<Price, TruncatedRecord>)
    ensures
        bytes@.len() == RECORD_LEN <==> r is Ok,
        r matches Ok(p) ==> p@ == decode_spec(bytes@),
        r matches Err(e) ==> e.len == bytes@.len(),
{
    decode(bytes)
}

/// The tick that sixteen bytes stand for.
pub open spec fn decode_spec(s: Seq<u8>) -> PriceView {
    PriceView {
        bid: decoded_bid(s),
        ask: decoded_ask(s),
        time: decoded_time(s),
        instrument: Seq::empty(),
    }
}

/// Reads all whole ticks of a binary log, in order. Bytes behind the last
/// whole tick are ignored.
pub fn load_data(data: &[u8]) -> (prices: Vec<Price>)
    ensures
        prices@.len() == data@.len() / 16,
        forall|i: int|
            0 <= i < prices@.len() ==> (#[trigger] prices@[i])@ == decode_spec(
                data@.subrange(16 * i, 16 * i + 16),
            ),
{
    let count = data.len() / RECORD_LEN;
    let mut prices: Vec<Price> = Vec::new();
    let mut i: usize = 0;
    while i < count
        invariant
            i <= count,
            count == data@.len() / 16,
            prices@.len() == i,
            forall|k: int|
                0 <= k < i ==> (#[trigger] prices@[k])@ == decode_spec(
                    data@.subrange(16 * k, 16 * k + 16),
                ),
        decreases count - i,
    {
        let len = data.len();
        assert(i * 16 + 16 <= len) by (nonlinear_arith)
            requires
                0 <= i < len as int / 16,
        ;
        let tick = slice_subrange(data, i * 16, i * 16 + 16);
        match decode(tick) {
            Ok(price) => {
                prices.push(price);
            },
            Err(_) => {
                assert(false);
            },
        }
        i += 1;
    }
    prices
}

proof fn lemma_bytes_round_trip_u64(b: Seq<u8>, at: int)
    requires
        0 <= at,
        at + 8 <= b.len(),
    ensures
        be_bytes_u64(be_u64_at(b, at)) == b.subrange(at, at + 8),
{
    let (b0, b1, b2, b3, b4, b5, b6, b7) = (
        b[at],
        b[at + 1],
        b[at + 2],
        b[at + 3],
        b[at + 4],
        b[at + 5],
        b[at + 6],
        b[at + 7],
    );
    let x = be_u64_at(b, at);
    assert(x == (b0 as u64) << 56 | (b1 as u64) << 48 | (b2 as u64) << 40 | (b3 as u64) << 32 | (
    b4 as u64) << 24 | (b5 as u64) << 16 | (b6 as u64) << 8 | (b7 as u64));
    assert(((x >> 56) & 0xff) as u8 == b0
        && ((x >> 48) & 0xff) as u8 == b1
        && ((x >> 40) & 0xff) as u8 == b2
        && ((x >> 32) & 0xff) as u8 == b3
        && ((x >> 24) & 0xff) as u8 == b4
        && ((x >> 16) & 0xff) as u8 == b5
        && ((x >> 8) & 0xff) as u8 == b6
        && ((x >> 0) & 0xff) as u8 == b7) by (bit_vector)
        requires
            x == (b0 as u64) << 56 | (b1 as u64) << 48 | (b2 as u64) << 40 | (b3 as u64) << 32 | (
            b4 as u64) << 24 | (b5 as u64) << 16 | (b6 as u64) << 8 | (b7 as u64),
    ;
    assert(be_bytes_u64(x) =~= b.subrange(at, at + 8));
}

proof fn lemma_bytes_round_trip_u32(b: Seq<u8>, at: int)
    requires
        0 <= at,
        at + 4 <= b.len(),
    ensures
        be_bytes_u32(be_u32_at(b, at)) == b.subrange(at, at + 4),
{
    let (b0, b1, b2, b3) = (b[at], b[at + 1], b[at + 2], b[at + 3]);
    let x = be_u32_at(b, at);
    let y = x as u64;
    assert(x == (b0 as u32) << 24 | (b1 as u32) << 16 | (b2 as u32) << 8 | (b3 as u32));
    assert(((y >> 24) & 0xff) as u8 == b0
        && ((y >> 16) & 0xff) as u8 == b1
        && ((y >> 8) & 0xff) as u8 == b2
        && ((y >> 0) & 0xff) as u8 == b3) by (bit_vector)
        requires
            x == (b0 as u32) << 24 | (b1 as u32) << 16 | (b2 as u32) << 8 | (b3 as u32),
            y == x as u64,
    ;
    assert(be_bytes_u32(x) =~= b.subrange(at, at + 4));
}

/// Encoding what sixteen bytes decode to gives back the sixteen bytes.
pub proof fn lemma_bytes_round_trip(bytes: Seq<u8>)
    requires
        bytes.len() == RECORD_LEN,
    ensures
        encode_spec(decoded_time(bytes), decoded_bid(bytes), decoded_ask(bytes)) == bytes,
{
    lemma_bytes_round_trip_u64(bytes, 0);
    lemma_bytes_round_trip_u32(bytes, 8);
    lemma_bytes_round_trip_u32(bytes, 12);
    assert(bytes.subrange(0, 8) + bytes.subrange(8, 12) + bytes.subrange(12, 16) =~= bytes);
}

} // verus!
