//! The records that the stream carries, and how one JSON value becomes one.
//!
//! A value is a price when it is an object with a bid, an ask, an instrument
//! and a time; it is a heartbeat when, of these four, it has the time alone.
//! Members under other names are ignored. Anything else is refused, with the
//! reason.
//!
//! Decoding takes two steps. The first reads the JSON text and leaves the two
//! prices as the decimal text found on the wire (`WireItem`). The second
//! takes the single-precision bit patterns of the two prices from the caller
//! and checks them (`WireItem::into_item`).

use vstd::prelude::*;

verus! {

/// Largest bit pattern of a finite single-precision number with the sign bit clear.
pub const MAX_FINITE_BITS: u32 = 0x7f7f_ffff;

/// A price tick. `bid` and `ask` hold the IEEE-754 single-precision bit
/// patterns of the two prices; `time` is in milliseconds since the Unix epoch.
#[derive(Debug, Clone, PartialEq, Eq)]
pub struct Price {
    pub bid: u32,
    pub ask: u32,
    pub time: u64,
    pub instrument: String,
}

/// Proof of liveness of the stream; `time` is the text found on the wire.
#[derive(Debug, Clone, PartialEq, Eq)]
pub struct Heartbeat {
    pub time: String,
}

/// One item of the stream.
#[derive(Debug, Clone, PartialEq, Eq)]
pub enum StreamItem {
    Price(Price),
    Heartbeat(Heartbeat),
}

/// A price as read from the wire: both prices still decimal text.
#[derive(Debug, Clone, PartialEq, Eq)]
pub struct WirePrice {
    pub bid: String,
    pub ask: String,
    pub time: u64,
    pub instrument: String,
}

/// A record as read from the wire.
#[derive(Debug, Clone, PartialEq, Eq)]
pub enum WireItem {
    Price(WirePrice),
    Heartbeat(Heartbeat),
}

/// Why a value of the stream is no record.
#[derive(Debug, Clone, Copy, PartialEq, Eq, Structural)]
pub enum DecodeError {
    /// The bytes are no JSON value.
    MalformedSyntax,
    /// A JSON value that is neither a price nor a heartbeat.
    AmbiguousShape,
    /// A bid or an ask that is no finite, non-negative decimal number.
    NumericFormat,
    /// A time that is no RFC 3339 instant at or after the epoch.
    TimestampFormat,
}

/// What a JSON object holds under one name.
#[derive(Debug, Clone, PartialEq, Eq)]
pub enum Field {
    /// No member of that name.
    Absent,
    /// A string.
    Text(String),
    /// A member that is no string.
    Other,
}

/// The four members that decide what a record is.
#[derive(Debug, Clone, PartialEq, Eq)]
pub struct RecordFields {
    pub bid: Field,
    pub ask: Field,
    pub instrument: Field,
    pub time: Field,
}

/// What an object is taken for.
#[derive(Debug, Clone, Copy, PartialEq, Eq, Structural)]
pub enum Shape {
    Price,
    Heartbeat,
    Neither,
}

/// A price as a mathematical value.
pub struct PriceView {
    pub bid: u32,
    pub ask: u32,
    pub time: u64,
    pub instrument: Seq<char>,
}

/// An item of the stream as a mathematical value; a heartbeat is its time.
pub enum ItemView {
    Price(PriceView),
    Heartbeat(Seq<char>),
}

/// A price as read from the wire, as a mathematical value.
pub struct WirePriceView {
    pub bid: Seq<char>,
    pub ask: Seq<char>,
    pub time: u64,
    pub instrument: Seq<char>,
}

/// A record as read from the wire, as a mathematical value; a heartbeat is
/// its time.
pub enum WireView {
    Price(WirePriceView),
    Heartbeat(Seq<char>),
}

/// What a JSON object holds under one name, as a mathematical value.
pub enum Member {
    Absent,
    Text(Seq<char>),
    Other,
}

/// The four deciding members of an object, as mathematical values.
pub struct FieldsView {
    pub bid: Member,
    pub ask: Member,
    pub instrument: Member,
    pub time: Member,
}

impl View for Price {
    type V = PriceView;

    open spec fn view(&self) -> PriceView {
        PriceView { bid: self.bid, ask: self.ask, time: self.time, instrument: self.instrument@ }
    }
}

impl View for StreamItem {
    type V = ItemView;

    open spec fn view(&self) -> ItemView {
        match self {
            StreamItem::Price(p) => ItemView::Price(p@),
            StreamItem::Heartbeat(h) => ItemView::Heartbeat(h.time@),
        }
    }
}

impl View for WirePrice {
    type V = WirePriceView;

    open spec fn view(&self) -> WirePriceView {
        WirePriceView {
            bid: self.bid@,
            ask: self.ask@,
            time: self.time,
            instrument: self.instrument@,
        }
    }
}

impl View for WireItem {
    type V = WireView;

    open spec fn view(&self) -> WireView {
        match self {
            WireItem::Price(p) => WireView::Price(p@),
            WireItem::Heartbeat(h) => WireView::Heartbeat(h.time@),
        }
    }
}

impl View for Field {
    type V = Member;

    open spec fn view(&self) -> Member {
        match self {
            Field::Absent => Member::Absent,
            Field::Text(t) => Member::Text(t@),
            Field::Other => Member::Other,
        }
    }
}

impl View for RecordFields {
    type V = FieldsView;

    open spec fn view(&self) -> FieldsView {
        FieldsView {
            bid: self.bid@,
            ask: self.ask@,
            instrument: self.instrument@,
            time: self.time@,
        }
    }
}

/// Whether `bits` is the pattern of a finite number whose sign bit is clear.
pub open spec fn finite_non_negative(bits: u32) -> bool {
    bits <= MAX_FINITE_BITS
}

impl PriceView {
    /// Both prices are finite and non-negative.
    pub open spec fn well_formed(self) -> bool {
        finite_non_negative(self.bid) && finite_non_negative(self.ask)
    }
}

impl ItemView {
    /// A price in it is well formed.
    pub open spec fn well_formed(self) -> bool {
        self matches ItemView::Price(p) ==> p.well_formed()
    }
}

/// What an object with these members is taken for: a price with all four,
/// a heartbeat with the time alone.
pub open spec fn shape(f: FieldsView) -> Shape {
    if !(f.bid is Absent) && !(f.ask is Absent) && !(f.instrument is Absent) && !(f.time
        is Absent) {
        Shape::Price
    } else if f.bid is Absent && f.ask is Absent && f.instrument is Absent && !(f.time is Absent) {
        Shape::Heartbeat
    } else {
        Shape::Neither
    }
}

/// The record that an object with the members `f` stands for, `millis`
/// being what its time converts to.
pub open spec fn record_of(f: FieldsView, millis: Option<i64>) -> Result<WireView, DecodeError> {
    match shape(f) {
        Shape::Neither => Err(DecodeError::AmbiguousShape),
        Shape::Heartbeat => match f.time {
            Member::Text(t) => Ok(WireView::Heartbeat(t)),
            _ => Err(DecodeError::AmbiguousShape),
        },
        Shape::Price => match (f.instrument, f.bid, f.ask) {
            (Member::Text(instrument), Member::Text(bid), Member::Text(ask)) => match (
                f.time,
                millis,
            ) {
                (Member::Text(_), Some(ms)) => if ms >= 0 {
                    Ok(WireView::Price(WirePriceView { bid, ask, time: ms as u64, instrument }))
                } else {
                    Err(DecodeError::TimestampFormat)
                },
                _ => Err(DecodeError::TimestampFormat),
            },
            (Member::Text(_), _, _) => Err(DecodeError::NumericFormat),
            _ => Err(DecodeError::AmbiguousShape),
        },
    }
}

/// The item that a wire record becomes, given the bit patterns that its two
/// prices convert to (`None` where the text is no number).
pub open spec fn item_of(w: WireView, bid: Option<u32>, ask: Option<u32>) -> Result<
    ItemView,
    DecodeError,
> {
    match w {
        WireView::Heartbeat(t) => Ok(ItemView::Heartbeat(t)),
        WireView::Price(p) => match (bid, ask) {
            (Some(b), Some(a)) => if finite_non_negative(b) && finite_non_negative(a) {
                Ok(
                    ItemView::Price(
                        PriceView { bid: b, ask: a, time: p.time, instrument: p.instrument },
                    ),
                )
            } else {
                Err(DecodeError::NumericFormat)
            },
            _ => Err(DecodeError::NumericFormat),
        },
    }
}

/// The views of both sides of a decoding result.
pub open spec fn wire_result_view(r: Result<WireItem, DecodeError>) -> Result<
    WireView,
    DecodeError,
> {
    match r {
        Ok(w) => Ok(w@),
        Err(e) => Err(e),
    }
}

/// The views of both sides of an item or its refusal.
pub open spec fn item_result_view(r: Result<StreamItem, DecodeError>) -> Result<
    ItemView,
    DecodeError,
> {
    match r {
        Ok(i) => Ok(i@),
        Err(e) => Err(e),
    }
}

/// `serde_json::Value`, carried through as it is: a parsed JSON value.
#[verifier::external_type_specification]
#[verifier::external_body]
pub struct ExJsonValue(serde_json::Value);

/// `serde_json::Error`, carried through as it is: why bytes are no JSON.
#[verifier::external_type_specification]
#[verifier::external_body]
pub struct ExJsonError(serde_json::Error);

/// What `serde_json::from_slice` makes of `text` read as a `serde_json::Value`:
/// `None` where it is refused, else the members of the object, each with its
/// text if it is a string. A value that is no object has no members.
pub uninterp spec fn json_members(text: Seq<u8>) -> Option<Map<Seq<char>, Option<Seq<char>>>>;

/// The members of a parsed value: for each name of the object, the text of
/// the member if it is a string. A value that is no object has no members.
pub uninterp spec fn value_members(v: serde_json::Value) -> Map<Seq<char>, Option<Seq<char>>>;

/// The milliseconds since the Unix epoch of the instant that `text` names in
/// RFC 3339, as `chrono::DateTime::parse_from_rfc3339` reads it.
pub uninterp spec fn rfc3339_millis(text: Seq<char>) -> Option<i64>;

/// What `members` holds under `key`.
pub open spec fn lookup(members: Map<Seq<char>, Option<Seq<char>>>, key: Seq<char>) -> Member {
    if !members.dom().contains(key) {
        Member::Absent
    } else {
        match members[key] {
            Some(t) => Member::Text(t),
            None => Member::Other,
        }
    }
}

/// The four deciding members of `members`.
pub open spec fn fields_of(members: Map<Seq<char>, Option<Seq<char>>>) -> FieldsView {
    FieldsView {
        bid: lookup(members, "closeoutBid"@),
        ask: lookup(members, "closeoutAsk"@),
        instrument: lookup(members, "instrument"@),
        time: lookup(members, "time"@),
    }
}

/// What the time among `f` converts to.
pub open spec fn time_millis(f: FieldsView) -> Option<i64> {
    match f.time {
        Member::Text(t) => rfc3339_millis(t),
        _ => None,
    }
}

/// The record that the bytes of one value stand for.
pub open spec fn decode_spec(text: Seq<u8>) -> Result<WireView, DecodeError> {
    match json_members(text) {
        None => Err(DecodeError::MalformedSyntax),
        Some(members) => record_of(fields_of(members), time_millis(fields_of(members))),
    }
}

/// Calls `serde_json::from_slice` for a `serde_json::Value`. Trusted: the
/// outcome depends on the bytes alone, and `json_members` names it.
#[verifier::external_body]
fn parse_json(text: &[u8]) -> (r: Result<serde_json::Value, serde_json::Error>)
    ensures
        match r {
            Ok(v) => json_members(text@) == Some(value_members(v)),
            Err(_) => json_members(text@) is None,
        },
{
    serde_json::from_slice::<serde_json::Value>(text)
}

/// Calls `serde_json::Value::get` with a name. Trusted: it finds the member
/// of that name if the value is an object that has one; a string member is
/// handed back as its text.
#[verifier::external_body]
fn member_of(v: &serde_json::Value, key: &str) -> (f: Field)
    ensures
        f@ == lookup(value_members(*v), key@),
{
    match v.get(key) {
        None => Field::Absent,
        Some(serde_json::Value::String(s)) => Field::Text(s.clone()),
        Some(_) => Field::Other,
    }
}

/// Calls `chrono::DateTime::parse_from_rfc3339` and, on what it accepts,
/// `timestamp_millis`. Trusted: the outcome depends on the text alone, and
/// `rfc3339_millis` names it.
#[verifier::external_body]
fn rfc3339_to_millis(text: &str) -> (r: Option<i64>)
    ensures
        r == rfc3339_millis(text@),
{
    match chrono::DateTime::parse_from_rfc3339(text) {
        Ok(instant) => Some(instant.timestamp_millis()),
        Err(_) => None,
    }
}

fn is_absent(f: &Field) -> (r: bool)
    ensures
        r == (f@ is Absent),
{
    match f {
        Field::Absent => true,
        _ => false,
    }
}

impl RecordFields {
    /// What an object with these members is taken for.
    pub fn shape(&self) -> (r: Shape)
        ensures
            r == shape(self@),
    {
        let bid = !is_absent(&self.bid);
        let ask = !is_absent(&self.ask);
        let instrument = !is_absent(&self.instrument);
        let time = !is_absent(&self.time);
        if bid && ask && instrument && time {
            Shape::Price
        } else if !bid && !ask && !instrument && time {
            Shape::Heartbeat
        } else {
            Shape::Neither
        }
    }
}

/// Makes a record of the four deciding members of an object, `millis` being
/// what its time converts to.
pub fn assemble_record(fields: RecordFields, millis: Option<i64>) -> (r: Result<
    WireItem,
    DecodeError,
>)
    ensures
        wire_result_view(r) == record_of(fields@, millis),
{
    match fields.shape() {
        Shape::Neither => Err(DecodeError::AmbiguousShape),
        Shape::Heartbeat => match fields.time {
            Field::Text(time) => Ok(WireItem::Heartbeat(Heartbeat { time })),
            _ => Err(DecodeError::AmbiguousShape),
        },
        Shape::Price => {
            let RecordFields { bid, ask, instrument, time } = fields;
            match instrument {
                Field::Text(instrument) => match (bid, ask) {
                    (Field::Text(bid), Field::Text(ask)) => match (time, millis) {
                        (Field::Text(_), Some(ms)) => if ms >= 0 {
                            Ok(WireItem::Price(WirePrice { bid, ask, time: ms as u64, instrument }))
                        } else {
                            Err(DecodeError::TimestampFormat)
                        },
                        _ => Err(DecodeError::TimestampFormat),
                    },
                    _ => Err(DecodeError::NumericFormat),
                },
                _ => Err(DecodeError::AmbiguousShape),
            }
        },
    }
}

/// Reads one record from the bytes of one JSON value.
pub fn decode_record(text: &[u8]) -> (r: Result<WireItem, DecodeError>)
    ensures
        wire_result_view(r) == decode_spec(text@),
{
    match parse_json(text) {
        Err(_) => Err(DecodeError::MalformedSyntax),
        Ok(value) => {
            let fields = RecordFields {
                bid: member_of(&value, "closeoutBid"),
                ask: member_of(&value, "closeoutAsk"),
                instrument: member_of(&value, "instrument"),
                time: member_of(&value, "time"),
            };
            let millis = match &fields.time {
                Field::Text(t) => rfc3339_to_millis(t.as_str()),
                _ => None,
            };
            assemble_record(fields, millis)
        },
    }
}

impl WireItem {
    /// Completes a wire record with the bit patterns that its two prices
    /// convert to at single precision (`None` where the text is no number).
    /// A heartbeat passes as it is. A price passes when both patterns are
    /// there, finite and non-negative.
    pub fn into_item(self, bid: Option<u32>, ask: Option<u32>) -> (r: Result<
        StreamItem,
        DecodeError,
    >)
        ensures
            item_result_view(r) == item_of(self@, bid, ask),
            r matches Ok(item) ==> item@.well_formed(),
    {
        match self {
            WireItem::Heartbeat(h) => Ok(StreamItem::Heartbeat(h)),
            WireItem::Price(p) => match (bid, ask) {
                (Some(b), Some(a)) => if b <= MAX_FINITE_BITS && a <= MAX_FINITE_BITS {
                    Ok(
                        StreamItem::Price(
                            Price { bid: b, ask: a, time: p.time, instrument: p.instrument },
                        ),
                    )
                } else {
                    Err(DecodeError::NumericFormat)
                },
                _ => Err(DecodeError::NumericFormat),
            },
        }
    }
}

} // verus!
