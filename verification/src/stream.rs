//! One streaming session: what it does with each outcome of a read.
//!
//! The stream owns the assembler, the records that are waiting for the
//! caller, and the bookkeeping of the logs: one raw log of everything that
//! arrived, and one binary log per instrument, opened at the first price for
//! it. It performs no reads and no writes itself. The caller reads a chunk,
//! tells the stream how the read ended, and appends to the files whatever
//! bytes the stream hands back.

use crate::assembler::{accepted, rejected, wire_views, Assembler};
use crate::codec::{encode, encode_spec, RECORD_LEN};
use crate::endpoints::{price_stream_address, OandaSettings};
use crate::framing::{frames, remainder};
use crate::instruments::name_views;
use crate::log::{LogWriter, WRITER_CAPACITY};
use crate::record::{
    item_of, DecodeError, ItemView, Price, PriceView, StreamItem, WireItem,
};
use std::collections::VecDeque;
use vstd::prelude::*;
use vstd::string::StringExecFns;

verus! {

/// How a read from the transport ended.
#[derive(Debug, Clone, PartialEq, Eq)]
pub enum ChunkOutcome {
    /// Bytes arrived. None at all means the body has ended.
    Chunk(Vec<u8>),
    /// The transport reported the end of the body.
    Closed,
    /// Nothing arrived within the timeout.
    TimedOut,
    /// The transport failed.
    Failed(String),
}

/// A condition that the caller has to deal with.
#[derive(Debug, Clone, PartialEq, Eq)]
pub enum StreamError {
    /// No chunk within the timeout. Nothing was lost; the caller may wait on.
    Stalled,
    /// The transport closed the stream.
    EmptyChunk,
    /// The transport failed.
    Transport(String),
}

/// Where the stream stands.
#[derive(Debug, Clone, Copy, PartialEq, Eq, Structural)]
pub enum Phase {
    AwaitingChunk,
    ItemsBuffered,
    StreamEnded,
    StreamFailed,
}

/// What the caller has to do next.
#[derive(Debug, Clone, PartialEq, Eq)]
pub enum Step {
    /// The oldest record that was waiting.
    Item(StreamItem),
    /// Nothing is waiting: read the next chunk.
    NeedChunk,
    /// The stream has ended and was not refreshed.
    Ended,
    /// The transport has failed and was not refreshed.
    Failed,
}

/// The log that bytes belong to.
#[derive(Debug, Clone, PartialEq, Eq)]
pub enum LogTarget {
    Raw,
    Binary(String),
}

/// Bytes to append to a log file.
#[derive(Debug, Clone, PartialEq, Eq)]
pub struct LogWrite {
    /// The log that the bytes belong to.
    pub target: LogTarget,
    /// The path of its file.
    pub path: String,
    /// The bytes that the file is due; there may be none.
    pub bytes: Vec<u8>,
}

/// What a chunk brought.
#[derive(Debug, Clone, PartialEq, Eq)]
pub struct Intake {
    /// What the raw log file is due now.
    pub raw: LogWrite,
    /// The records that the chunk completed, in order of arrival.
    pub records: Vec<WireItem>,
    /// The values that are no record, in order of arrival.
    pub errors: Vec<DecodeError>,
}

/// What one accepted record brought.
#[derive(Debug, Clone, PartialEq, Eq)]
pub struct Accepted {
    /// Whether the record was the first price for its instrument, so that
    /// its binary log has just come into being.
    pub opened: bool,
    /// What the binary log file of the instrument is due now; nothing for
    /// a heartbeat.
    pub write: Option<LogWrite>,
}

/// The path of the raw log under `dir`.
pub open spec fn raw_log_path_of(dir: Seq<char>) -> Seq<char> {
    dir + "/raw.log"@
}

/// The path of the binary log of `instrument` under `dir`.
pub open spec fn bin_log_path_of(dir: Seq<char>, instrument: Seq<char>) -> Seq<char> {
    dir + "/bin/"@ + instrument + ".bin"@
}

/// The binary log of one instrument.
struct BinaryLog {
    instrument: String,
    writer: LogWriter,
}

/// The index of the log for `name`, if there is one.
spec fn position_of(logs: Seq<BinaryLog>, name: Seq<char>) -> Option<int>
    decreases logs.len(),
{
    if logs.len() == 0 {
        None
    } else {
        match position_of(logs.drop_last(), name) {
            Some(i) => Some(i),
            None => if logs.last().instrument@ == name {
                Some(logs.len() - 1)
            } else {
                None
            },
        }
    }
}

proof fn lemma_position_of(logs: Seq<BinaryLog>, name: Seq<char>)
    ensures
        match position_of(logs, name) {
            Some(i) => 0 <= i < logs.len() && logs[i].instrument@ == name && forall|k: int|
                0 <= k < i ==> (#[trigger] logs[k]).instrument@ != name,
            None => forall|k: int| 0 <= k < logs.len() ==> (#[trigger] logs[k]).instrument@ != name,
        },
    decreases logs.len(),
{
    if logs.len() > 0 {
        lemma_position_of(logs.drop_last(), name);
        assert forall|k: int| 0 <= k < logs.len() - 1 implies logs.drop_last()[k] == logs[k] by {}
    }
}

proof fn lemma_position_is_first(logs: Seq<BinaryLog>, name: Seq<char>, i: int)
    requires
        0 <= i < logs.len(),
        logs[i].instrument@ == name,
        forall|k: int| 0 <= k < i ==> (#[trigger] logs[k]).instrument@ != name,
    ensures
        position_of(logs, name) == Some(i),
{
    lemma_position_of(logs, name);
}

proof fn lemma_position_absent(logs: Seq<BinaryLog>, name: Seq<char>)
    requires
        forall|k: int| 0 <= k < logs.len() ==> (#[trigger] logs[k]).instrument@ != name,
    ensures
        position_of(logs, name) is None,
{
    lemma_position_of(logs, name);
}

/// One streaming session.
pub struct LoggingPriceStream {
    assembler: Assembler,
    buffered_items: VecDeque<StreamItem>,
    raw_log_writer: LogWriter,
    bin_log_writers: Vec<BinaryLog>,
    ended: bool,
    failed: bool,
    log_path: String,
    timeout_duration: u64,
    settings: OandaSettings,
    instruments: Vec<String>,
}

impl LoggingPriceStream {
    /// No two binary logs belong to one instrument. This holds of every
    /// stream that `new` made, whatever was done with it since.
    pub closed spec fn wf(&self) -> bool {
        forall|i: int, j: int|
            0 <= i < j < self.bin_log_writers@.len() ==> self.bin_log_writers@[i].instrument@
                != self.bin_log_writers@[j].instrument@
    }

    /// The bytes that have arrived and belong to no complete value yet.
    pub closed spec fn buffer(&self) -> Seq<u8> {
        self.assembler@
    }

    /// The records that wait for the caller, oldest first.
    pub closed spec fn queued(&self) -> Seq<ItemView> {
        self.buffered_items@.map_values(|i: StreamItem| i@)
    }

    /// Everything that went to the raw log: what was handed on, and then
    /// what is held back.
    pub open spec fn raw_log(&self) -> Seq<u8> {
        self.raw_written() + self.raw_held()
    }

    /// What of the raw log is held back.
    pub closed spec fn raw_held(&self) -> Seq<u8> {
        self.raw_log_writer.pending()
    }

    /// What of the raw log was handed on for writing.
    pub closed spec fn raw_written(&self) -> Seq<u8> {
        self.raw_log_writer.written()
    }

    /// Whether `instrument` has a binary log.
    pub closed spec fn has_log(&self, instrument: Seq<char>) -> bool {
        position_of(self.bin_log_writers@, instrument) is Some
    }

    /// Everything that went to the binary log of `instrument`: what was
    /// handed on, and then what is held back. Nothing where it has no log.
    pub open spec fn binary_log(&self, instrument: Seq<char>) -> Seq<u8> {
        self.binary_written(instrument) + self.binary_held(instrument)
    }

    /// What of the binary log of `instrument` is held back.
    pub closed spec fn binary_held(&self, instrument: Seq<char>) -> Seq<u8> {
        match position_of(self.bin_log_writers@, instrument) {
            Some(i) => self.bin_log_writers@[i].writer.pending(),
            None => Seq::empty(),
        }
    }

    /// What of the binary log of `instrument` was handed on for writing.
    pub closed spec fn binary_written(&self, instrument: Seq<char>) -> Seq<u8> {
        match position_of(self.bin_log_writers@, instrument) {
            Some(i) => self.bin_log_writers@[i].writer.written(),
            None => Seq::empty(),
        }
    }

    /// The number of binary logs.
    pub closed spec fn log_count(&self) -> nat {
        self.bin_log_writers@.len()
    }

    /// The instrument of binary log `k`, counted from 0 in the order in
    /// which the logs came into being.
    pub closed spec fn log_name(&self, k: int) -> Seq<char> {
        self.bin_log_writers@[k].instrument@
    }

    /// The timeout of one read, in milliseconds.
    pub closed spec fn timeout(&self) -> u64 {
        self.timeout_duration
    }

    /// The directory of the logs.
    pub closed spec fn log_dir(&self) -> Seq<char> {
        self.log_path@
    }

    /// The instruments that the stream subscribes to.
    pub closed spec fn subscribed(&self) -> Seq<Seq<char>> {
        name_views(self.instruments@)
    }

    /// The account that the stream is opened for.
    pub closed spec fn account(&self) -> Seq<char> {
        self.settings.account_id@
    }

    /// The token that the stream is opened with.
    pub closed spec fn token(&self) -> Seq<char> {
        self.settings.authorization@
    }

    /// Whether the stream has ended and was not refreshed.
    pub closed spec fn ended(&self) -> bool {
        self.ended
    }

    /// Whether the transport has failed and was not refreshed.
    pub closed spec fn failed(&self) -> bool {
        self.failed
    }

    /// Where the stream stands: records that wait come first, then a stream
    /// that has ended or failed; else the stream awaits a chunk.
    pub open spec fn phase(&self) -> Phase {
        if self.queued().len() > 0 {
            Phase::ItemsBuffered
        } else if self.ended() {
            Phase::StreamEnded
        } else if self.failed() {
            Phase::StreamFailed
        } else {
            Phase::AwaitingChunk
        }
    }

    /// Whether both streams are set up alike.
    pub open spec fn same_setup(&self, other: &LoggingPriceStream) -> bool {
        &&& self.timeout() == other.timeout()
        &&& self.log_dir() == other.log_dir()
        &&& self.subscribed() == other.subscribed()
        &&& self.account() == other.account()
        &&& self.token() == other.token()
    }

    /// Whether both streams have the same binary logs, with the same bytes
    /// handed on and held back.
    pub open spec fn same_binary_logs(&self, other: &LoggingPriceStream) -> bool {
        &&& self.log_count() == other.log_count()
        &&& forall|k: int|
            0 <= k < self.log_count() ==> #[trigger] self.log_name(k) == other.log_name(k)
        &&& forall|name: Seq<char>|
            #![trigger self.has_log(name)]
            #![trigger self.binary_log(name)]
            #![trigger self.binary_written(name)]
            {
                &&& self.has_log(name) == other.has_log(name)
                &&& self.binary_log(name) == other.binary_log(name)
                &&& self.binary_written(name) == other.binary_written(name)
            }
    }

    /// Whether both streams have the same raw log, with the same bytes
    /// handed on and held back.
    pub open spec fn same_raw_log(&self, other: &LoggingPriceStream) -> bool {
        &&& self.raw_log() == other.raw_log()
        &&& self.raw_written() == other.raw_written()
    }

    /// Whether both streams hold the same bytes and the same logs, and are
    /// set up alike.
    pub open spec fn same_data(&self, other: &LoggingPriceStream) -> bool {
        &&& self.buffer() == other.buffer()
        &&& self.same_raw_log(other)
        &&& self.same_binary_logs(other)
        &&& self.same_setup(other)
    }

    /// Whether the stream has ended or failed as the other has.
    pub open spec fn same_ending(&self, other: &LoggingPriceStream) -> bool {
        &&& self.ended() == other.ended()
        &&& self.failed() == other.failed()
    }

    /// Whether the binary logs are those of `before` with one more price in
    /// the log of its instrument, `accepted` saying what that brought: the
    /// sixteen bytes of the price are appended to the log of its
    /// instrument, which is new and the last of the logs if the instrument
    /// had none; the file is due nothing while what the log holds back
    /// fits, else all of it; and no other log has changed.
    pub open spec fn price_logged(
        &self,
        before: &LoggingPriceStream,
        price: PriceView,
        accepted: Accepted,
    ) -> bool {
        &&& accepted.opened == !before.has_log(price.instrument)
        &&& accepted.write matches Some(write)
        &&& write.target matches LogTarget::Binary(name)
        &&& name@ == price.instrument
        &&& write.path@ == bin_log_path_of(before.log_dir(), price.instrument)
        &&& self.has_log(price.instrument)
        &&& self.binary_log(price.instrument) == before.binary_log(price.instrument) + encode_spec(
            price.time,
            price.bid,
            price.ask,
        )
        &&& self.binary_written(price.instrument) == before.binary_written(price.instrument)
            + write.bytes@
        &&& before.binary_held(price.instrument).len() + RECORD_LEN <= WRITER_CAPACITY
            ==> write.bytes@.len() == 0
        &&& before.binary_held(price.instrument).len() + RECORD_LEN > WRITER_CAPACITY
            ==> self.binary_held(price.instrument).len() == 0
        &&& self.log_count() == before.log_count() + if accepted.opened {
            1nat
        } else {
            0nat
        }
        &&& forall|k: int|
            0 <= k < before.log_count() ==> #[trigger] self.log_name(k) == before.log_name(k)
        &&& accepted.opened ==> self.log_name(before.log_count() as int) == price.instrument
        &&& forall|other: Seq<char>|
            #![trigger self.has_log(other)]
            #![trigger self.binary_log(other)]
            #![trigger self.binary_written(other)]
            other != price.instrument ==> {
                &&& self.has_log(other) == before.has_log(other)
                &&& self.binary_log(other) == before.binary_log(other)
                &&& self.binary_written(other) == before.binary_written(other)
            }
    }

    /// A stream that has seen nothing yet.
    pub fn new(
        instruments: Vec<String>,
        log_path: &str,
        timeout_duration: u64,
        settings: OandaSettings,
    ) -> (r: LoggingPriceStream)
        ensures
            r.wf(),
            r.buffer() == Seq::<u8>::empty(),
            r.queued() == Seq::<ItemView>::empty(),
            r.raw_log() == Seq::<u8>::empty(),
            r.raw_written() == Seq::<u8>::empty(),
            r.log_count() == 0,
            forall|name: Seq<char>|
                #![trigger r.has_log(name)]
                #![trigger r.binary_log(name)]
                #![trigger r.binary_written(name)]
                !r.has_log(name) && r.binary_log(name) == Seq::<u8>::empty() && r.binary_written(
                    name,
                ) == Seq::<u8>::empty(),
            r.timeout() == timeout_duration,
            r.log_dir() == log_path@,
            r.subscribed() == name_views(instruments@),
            r.account() == settings.account_id@,
            r.token() == settings.authorization@,
            r.phase() == Phase::AwaitingChunk,
    {
        let r = LoggingPriceStream {
            assembler: Assembler::new(),
            buffered_items: VecDeque::new(),
            raw_log_writer: LogWriter::new(),
            bin_log_writers: Vec::new(),
            ended: false,
            failed: false,
            log_path: log_path.to_owned(),
            timeout_duration,
            settings,
            instruments,
        };
        proof {
            assert(r.queued() =~= Seq::<ItemView>::empty());
            assert(r.raw_log() =~= Seq::<u8>::empty());
        }
        r
    }

    /// The timeout of one read, in milliseconds.
    pub fn timeout_duration(&self) -> (r: u64)
        ensures
            r == self.timeout(),
    {
        self.timeout_duration
    }

    /// The address at which the stream is opened.
    pub fn stream_url(&self) -> (r: String)
        ensures
            r@ == price_stream_address(self.account(), self.subscribed()),
    {
        self.settings.price_stream_url(self.instruments.as_slice())
    }

    /// The value of the authorization header that the stream is opened with.
    pub fn authorization_header(&self) -> (r: String)
        ensures
            r@ == "Bearer "@ + self.token(),
    {
        self.settings.authorization_header()
    }

    /// The path of the raw log.
    pub fn raw_log_path(&self) -> (r: String)
        ensures
            r@ == raw_log_path_of(self.log_dir()),
    {
        let mut path = self.log_path.clone();
        path.append("/raw.log");
        path
    }

    /// The path of the binary log of `instrument`.
    pub fn bin_log_path(&self, instrument: &str) -> (r: String)
        ensures
            r@ == bin_log_path_of(self.log_dir(), instrument@),
    {
        let mut path = self.log_path.clone();
        path.append("/bin/");
        path.append(instrument);
        path.append(".bin");
        path
    }

    /// Where the stream stands.
    pub fn current_phase(&self) -> (r: Phase)
        ensures
            r == self.phase(),
    {
        if self.buffered_items.len() > 0 {
            Phase::ItemsBuffered
        } else if self.ended {
            Phase::StreamEnded
        } else if self.failed {
            Phase::StreamFailed
        } else {
            Phase::AwaitingChunk
        }
    }

    /// The bytes held back by the assembler.
    pub fn pending_bytes(&self) -> (r: &[u8])
        ensures
            r@ == self.buffer(),
    {
        self.assembler.buffer()
    }

    /// Hands out the oldest record that waits. Where none waits, says what
    /// the caller has to do: read a chunk, or deal with a stream that has
    /// ended or failed. Bytes and logs stay as they are.
    pub fn next_step(&mut self) -> (r: Step)
        requires
            old(self).wf(),
        ensures
            final(self).wf(),
            final(self).same_data(old(self)),
            final(self).same_ending(old(self)),
            match r {
                Step::Item(item) => {
                    &&& old(self).phase() == Phase::ItemsBuffered
                    &&& item@ == old(self).queued().first()
                    &&& final(self).queued() == old(self).queued().skip(1)
                },
                Step::NeedChunk => {
                    &&& old(self).phase() == Phase::AwaitingChunk
                    &&& final(self).queued() == old(self).queued()
                },
                Step::Ended => {
                    &&& old(self).phase() == Phase::StreamEnded
                    &&& final(self).queued() == old(self).queued()
                },
                Step::Failed => {
                    &&& old(self).phase() == Phase::StreamFailed
                    &&& final(self).queued() == old(self).queued()
                },
            },
    {
        match self.buffered_items.pop_front() {
            Some(item) => {
                proof {
                    assert(self.queued() =~= old(self).queued().skip(1));
                }
                Step::Item(item)
            },
            None => {
                if self.ended {
                    Step::Ended
                } else if self.failed {
                    Step::Failed
                } else {
                    Step::NeedChunk
                }
            },
        }
    }

    /// Appends a chunk to the raw log, as it is. Hands back what the raw
    /// log file is due now.
    pub fn log_raw(&mut self, chunk: &[u8]) -> (r: LogWrite)
        requires
            old(self).wf(),
        ensures
            final(self).wf(),
            final(self).raw_log() == old(self).raw_log() + chunk@,
            final(self).raw_written() == old(self).raw_written() + r.bytes@,
            old(self).raw_held().len() + chunk@.len() <= WRITER_CAPACITY ==> r.bytes@.len() == 0,
            old(self).raw_held().len() + chunk@.len() > WRITER_CAPACITY
                ==> final(self).raw_held().len() == 0,
            r.target is Raw,
            r.path@ == raw_log_path_of(old(self).log_dir()),
            final(self).buffer() == old(self).buffer(),
            final(self).queued() == old(self).queued(),
            final(self).same_binary_logs(old(self)),
            final(self).same_setup(old(self)),
            final(self).same_ending(old(self)),
    {
        let bytes = self.raw_log_writer.write(chunk);
        LogWrite { target: LogTarget::Raw, path: self.raw_log_path(), bytes }
    }

    /// Takes in how a read ended.
    ///
    /// Bytes go to the raw log first, as they are, and then to the
    /// assembler; the records and refusals that they complete come back,
    /// with what the raw log file is due now. No bytes, or a closed body,
    /// end the stream. A timeout changes nothing at all. A failure of the
    /// transport touches neither the bytes held back nor any log.
    pub fn next_items(&mut self, outcome: ChunkOutcome) -> (r: Result<Intake, StreamError>)
        requires
            old(self).wf(),
        ensures
            final(self).wf(),
            final(self).queued() == old(self).queued(),
            final(self).same_binary_logs(old(self)),
            final(self).same_setup(old(self)),
            match outcome {
                ChunkOutcome::Chunk(bytes) => if bytes@.len() > 0 {
                    &&& r matches Ok(intake)
                    &&& wire_views(intake.records@) == accepted(
                        frames(old(self).buffer() + bytes@),
                    )
                    &&& intake.errors@ == rejected(frames(old(self).buffer() + bytes@))
                    &&& final(self).buffer() == remainder(old(self).buffer() + bytes@)
                    &&& final(self).raw_log() == old(self).raw_log() + bytes@
                    &&& final(self).raw_written() == old(self).raw_written() + intake.raw.bytes@
                    &&& old(self).raw_held().len() + bytes@.len() <= WRITER_CAPACITY
                        ==> intake.raw.bytes@.len() == 0
                    &&& old(self).raw_held().len() + bytes@.len() > WRITER_CAPACITY
                        ==> final(self).raw_held().len() == 0
                    &&& intake.raw.target is Raw
                    &&& intake.raw.path@ == raw_log_path_of(old(self).log_dir())
                    &&& final(self).same_ending(old(self))
                } else {
                    &&& r matches Err(StreamError::EmptyChunk)
                    &&& final(self).same_data(old(self))
                    &&& final(self).ended()
                    &&& final(self).failed() == old(self).failed()
                },
                ChunkOutcome::Closed => {
                    &&& r matches Err(StreamError::EmptyChunk)
                    &&& final(self).same_data(old(self))
                    &&& final(self).ended()
                    &&& final(self).failed() == old(self).failed()
                },
                ChunkOutcome::TimedOut => {
                    &&& r matches Err(StreamError::Stalled)
                    &&& final(self).same_data(old(self))
                    &&& final(self).same_ending(old(self))
                    &&& final(self).phase() == old(self).phase()
                },
                ChunkOutcome::Failed(reason) => {
                    &&& r matches Err(StreamError::Transport(text))
                    &&& text@ == reason@
                    &&& final(self).same_data(old(self))
                    &&& final(self).failed()
                    &&& final(self).ended() == old(self).ended()
                },
            },
    {
        match outcome {
            ChunkOutcome::Chunk(bytes) => {
                if bytes.len() == 0 {
                    self.ended = true;
                    Err(StreamError::EmptyChunk)
                } else {
                    let raw = self.log_raw(bytes.as_slice());
                    let ghost logged = *self;
                    let (records, errors) = self.assembler.ingest(bytes.as_slice());
                    proof {
                        assert(self.bin_log_writers == logged.bin_log_writers);
                        assert forall|k: int| 0 <= k < self.log_count() implies
                            #[trigger] self.log_name(k) == logged.log_name(k) by {}
                        assert forall|name: Seq<char>|
                            #![trigger self.has_log(name)]
                            #![trigger self.binary_log(name)]
                            #![trigger self.binary_written(name)]
                            {
                                &&& self.has_log(name) == logged.has_log(name)
                                &&& self.binary_log(name) == logged.binary_log(name)
                                &&& self.binary_written(name) == logged.binary_written(name)
                            } by {}
                    }
                    Ok(Intake { raw, records, errors })
                }
            },
            ChunkOutcome::Closed => {
                self.ended = true;
                Err(StreamError::EmptyChunk)
            },
            ChunkOutcome::TimedOut => Err(StreamError::Stalled),
            ChunkOutcome::Failed(reason) => {
                self.failed = true;
                Err(StreamError::Transport(reason))
            },
        }
    }

    fn position(&self, name: &String) -> (r: Option<usize>)
        ensures
            match r {
                Some(i) => position_of(self.bin_log_writers@, name@) == Some(i as int) && i
                    < self.bin_log_writers@.len(),
                None => position_of(self.bin_log_writers@, name@) is None,
            },
    {
        let mut i: usize = 0;
        while i < self.bin_log_writers.len()
            invariant
                i <= self.bin_log_writers@.len(),
                forall|k: int|
                    0 <= k < i ==> (#[trigger] self.bin_log_writers@[k]).instrument@ != name@,
            decreases self.bin_log_writers@.len() - i,
        {
            if self.bin_log_writers[i].instrument == *name {
                proof {
                    lemma_position_is_first(self.bin_log_writers@, name@, i as int);
                }
                return Some(i);
            }
            i += 1;
        }
        proof {
            lemma_position_absent(self.bin_log_writers@, name@);
        }
        None
    }

    /// Appends the sixteen bytes of a price to the binary log of its
    /// instrument; the log comes into being if this is the first price for
    /// it. Hands back what the file of that log is due now. No other log
    /// is touched.
    pub fn log_price(&mut self, price: &Price) -> (r: Accepted)
        requires
            old(self).wf(),
        ensures
            final(self).wf(),
            final(self).buffer() == old(self).buffer(),
            final(self).queued() == old(self).queued(),
            final(self).same_raw_log(old(self)),
            final(self).same_setup(old(self)),
            final(self).same_ending(old(self)),
            final(self).price_logged(old(self), price@, r),
    {
        let ghost before = old(self).bin_log_writers@;
        let record = encode(price);
        let name = price.instrument.clone();
        let found = self.position(&name);
        let (opened, at) = match found {
            Some(i) => (false, i),
            None => {
                let at = self.bin_log_writers.len();
                let fresh = BinaryLog {
                    instrument: price.instrument.clone(),
                    writer: LogWriter::new(),
                };
                self.bin_log_writers.push(fresh);
                proof {
                    let logs = self.bin_log_writers@;
                    lemma_position_of(before, name@);
                    assert(logs.drop_last() =~= before);
                    assert forall|other: Seq<char>| other != name@ implies position_of(logs, other)
                        == position_of(before, other) by {}
                    assert(position_of(logs, name@) == Some(at as int));
                    assert(logs[at as int].writer.contents() =~= Seq::<u8>::empty());
                    assert forall|k: int| 0 <= k < at implies (#[trigger] logs[k])
                        == before[k] by {}
                }
                (true, at)
            },
        };
        // The logs with the log of the instrument in place, its bytes not yet appended.
        let ghost middle = self.bin_log_writers@;
        proof {
            assert forall|i: int, j: int| 0 <= i < j < middle.len() implies middle[i].instrument@
                != middle[j].instrument@ by {
                assert(middle[i] == before[i]);
                if j < before.len() {
                    assert(middle[j] == before[j]);
                }
            }
            assert forall|other: Seq<char>| other != name@ implies match #[trigger] position_of(
                middle,
                other,
            ) {
                Some(k) => position_of(before, other) == Some(k) && k != at && middle[k]
                    == before[k],
                None => position_of(before, other) is None,
            } by {
                lemma_position_of(middle, name@);
                lemma_position_of(middle, other);
                lemma_position_of(before, other);
            }
        }
        let mut log = self.bin_log_writers.remove(at);
        let bytes = log.writer.write(record.as_slice());
        self.bin_log_writers.insert(at, log);
        proof {
            let logs = self.bin_log_writers@;
            assert(logs.len() == middle.len());
            assert forall|k: int| 0 <= k < middle.len() implies (#[trigger] logs[k]).instrument@
                == middle[k].instrument@ by {}
            assert forall|k: int| 0 <= k < middle.len() && k != at implies (#[trigger] logs[k])
                == middle[k] by {}
            lemma_same_names(middle, logs);
            assert forall|i: int, j: int| 0 <= i < j < logs.len() implies logs[i].instrument@
                != logs[j].instrument@ by {
                assert(logs[i].instrument@ == middle[i].instrument@);
                assert(logs[j].instrument@ == middle[j].instrument@);
            }
            assert forall|other: Seq<char>|
                #![trigger self.has_log(other)]
                #![trigger self.binary_log(other)]
                #![trigger self.binary_written(other)]
                other != name@ implies {
                &&& self.has_log(other) == old(self).has_log(other)
                &&& self.binary_log(other) == old(self).binary_log(other)
                &&& self.binary_written(other) == old(self).binary_written(other)
            } by {
                assert(position_of(logs, other) == position_of(middle, other));
                lemma_position_of(middle, other);
                match position_of(middle, other) {
                    Some(k) => {
                        assert(logs[k] == middle[k]);
                    },
                    None => {},
                }
            }
            assert(self.binary_log(name@) == old(self).binary_log(name@) + encode_spec(
                price.time,
                price.bid,
                price.ask,
            ));
            assert(self.binary_written(name@) == old(self).binary_written(name@) + bytes@);
        }
        let path = self.bin_log_path(name.as_str());
        Accepted { opened, write: Some(LogWrite { target: LogTarget::Binary(name), path, bytes }) }
    }

    /// Accepts one record of an intake, with the bit patterns that its two
    /// prices convert to at single precision (`None` where the text is no
    /// number).
    ///
    /// A record that passes joins the records that wait. A price also goes
    /// to the binary log of its instrument, as sixteen bytes, and that log
    /// comes into being if this is the first price for it. A heartbeat
    /// touches no log. A price that does not pass changes nothing.
    pub fn accept(&mut self, record: WireItem, bid: Option<u32>, ask: Option<u32>) -> (r: Result<
        Accepted,
        DecodeError,
    >)
        requires
            old(self).wf(),
        ensures
            final(self).wf(),
            final(self).buffer() == old(self).buffer(),
            final(self).same_raw_log(old(self)),
            final(self).same_setup(old(self)),
            final(self).same_ending(old(self)),
            match item_of(record@, bid, ask) {
                Err(e) => {
                    &&& r matches Err(refusal)
                    &&& refusal == e
                    &&& final(self).queued() == old(self).queued()
                    &&& final(self).same_binary_logs(old(self))
                },
                Ok(ItemView::Heartbeat(time)) => {
                    &&& r matches Ok(accepted)
                    &&& !accepted.opened
                    &&& accepted.write is None
                    &&& final(self).queued() == old(self).queued().push(ItemView::Heartbeat(time))
                    &&& final(self).same_binary_logs(old(self))
                },
                Ok(ItemView::Price(price)) => {
                    &&& r matches Ok(accepted)
                    &&& final(self).queued() == old(self).queued().push(ItemView::Price(price))
                    &&& final(self).price_logged(old(self), price, accepted)
                },
            },
    {
        match record.into_item(bid, ask) {
            Err(e) => Err(e),
            Ok(StreamItem::Heartbeat(h)) => {
                let ghost time = h.time@;
                self.buffered_items.push_back(StreamItem::Heartbeat(h));
                proof {
                    assert(self.queued() =~= old(self).queued().push(ItemView::Heartbeat(time)));
                }
                Ok(Accepted { opened: false, write: None })
            },
            Ok(StreamItem::Price(price)) => {
                let ghost view = price@;
                let accepted = self.log_price(&price);
                let ghost logged = *self;
                self.buffered_items.push_back(StreamItem::Price(price));
                proof {
                    assert(self.queued() =~= old(self).queued().push(ItemView::Price(view)));
                    assert(self.bin_log_writers == logged.bin_log_writers);
                    assert forall|k: int| 0 <= k < self.log_count() implies
                        #[trigger] self.log_name(k) == logged.log_name(k) by {}
                    assert forall|name: Seq<char>|
                        #![trigger self.has_log(name)]
                        #![trigger self.binary_log(name)]
                        #![trigger self.binary_written(name)]
                        {
                            &&& self.has_log(name) == logged.has_log(name)
                            &&& self.binary_log(name) == logged.binary_log(name)
                            &&& self.binary_written(name) == logged.binary_written(name)
                        } by {}
                }
                Ok(accepted)
            },
        }
    }

    /// Hands out everything that the logs hold back: first what the raw
    /// log file is due, then what each binary log file is due, in the
    /// order in which the logs came into being. Afterwards nothing is held
    /// back, so all that ever went to a log has been handed on.
    pub fn flush(&mut self) -> (out: Vec<LogWrite>)
        requires
            old(self).wf(),
        ensures
            final(self).wf(),
            final(self).buffer() == old(self).buffer(),
            final(self).queued() == old(self).queued(),
            final(self).same_setup(old(self)),
            final(self).same_ending(old(self)),
            final(self).log_count() == old(self).log_count(),
            final(self).raw_log() == old(self).raw_log(),
            final(self).raw_written() == final(self).raw_log(),
            final(self).raw_held() == Seq::<u8>::empty(),
            out@.len() == 1 + old(self).log_count(),
            out@[0].target is Raw,
            out@[0].path@ == raw_log_path_of(old(self).log_dir()),
            old(self).raw_written() + out@[0].bytes@ == old(self).raw_log(),
            forall|name: Seq<char>|
                #![trigger final(self).has_log(name)]
                #![trigger final(self).binary_log(name)]
                #![trigger final(self).binary_written(name)]
                {
                    &&& final(self).has_log(name) == old(self).has_log(name)
                    &&& final(self).binary_log(name) == old(self).binary_log(name)
                    &&& final(self).binary_written(name) == final(self).binary_log(name)
                    &&& final(self).binary_held(name) == Seq::<u8>::empty()
                },
            forall|k: int|
                0 <= k < old(self).log_count() ==> #[trigger] final(self).log_name(k)
                    == old(self).log_name(k),
            forall|k: int|
                1 <= k < out@.len() ==> {
                    &&& (#[trigger] out@[k]).target matches LogTarget::Binary(name)
                    &&& name@ == old(self).log_name(k - 1)
                    &&& old(self).has_log(name@)
                    &&& out@[k].path@ == bin_log_path_of(old(self).log_dir(), name@)
                    &&& old(self).binary_written(name@) + out@[k].bytes@ == old(self).binary_log(
                        name@,
                    )
                },
            forall|j: int, k: int|
                1 <= j < k < out@.len() ==> (#[trigger] out@[j]).target != (
                #[trigger] out@[k]).target,
    {
        let ghost before = old(self).bin_log_writers@;
        let ghost dir = old(self).log_dir();
        let mut out: Vec<LogWrite> = Vec::new();
        let raw = self.raw_log_writer.flush();
        out.push(LogWrite { target: LogTarget::Raw, path: self.raw_log_path(), bytes: raw });
        let count = self.bin_log_writers.len();
        let mut i: usize = 0;
        while i < count
            invariant
                i <= count,
                count == self.bin_log_writers@.len(),
                count == before.len(),
                before == old(self).bin_log_writers@,
                dir == old(self).log_dir(),
                old(self).wf(),
                self.assembler == old(self).assembler,
                self.buffered_items == old(self).buffered_items,
                self.timeout_duration == old(self).timeout_duration,
                self.log_path == old(self).log_path,
                self.settings == old(self).settings,
                self.instruments == old(self).instruments,
                self.ended == old(self).ended,
                self.failed == old(self).failed,
                self.raw_log_writer.contents() == old(self).raw_log_writer.contents(),
                self.raw_log_writer.written() == self.raw_log_writer.contents(),
                out@.len() == 1 + i,
                out@[0].target is Raw,
                out@[0].path@ == raw_log_path_of(dir),
                old(self).raw_log_writer.written() + out@[0].bytes@
                    == old(self).raw_log_writer.contents(),
                forall|k: int|
                    0 <= k < count ==> (#[trigger] self.bin_log_writers@[k]).instrument@
                        == before[k].instrument@,
                forall|k: int|
                    0 <= k < count ==> (#[trigger] self.bin_log_writers@[k]).writer.contents()
                        == before[k].writer.contents(),
                forall|k: int|
                    0 <= k < i ==> (#[trigger] self.bin_log_writers@[k]).writer.written()
                        == self.bin_log_writers@[k].writer.contents(),
                forall|k: int|
                    i <= k < count ==> (#[trigger] self.bin_log_writers@[k]) == before[k],
                forall|k: int|
                    0 <= k < i ==> {
                        &&& (#[trigger] out@[k + 1]).target matches LogTarget::Binary(name)
                        &&& name@ == before[k].instrument@
                        &&& out@[k + 1].path@ == bin_log_path_of(dir, name@)
                        &&& before[k].writer.written() + out@[k + 1].bytes@
                            == before[k].writer.contents()
                    },
            decreases count - i,
        {
            let ghost middle = self.bin_log_writers@;
            let mut log = self.bin_log_writers.remove(i);
            let bytes = log.writer.flush();
            let name = log.instrument.clone();
            self.bin_log_writers.insert(i, log);
            let path = self.bin_log_path(name.as_str());
            out.push(LogWrite { target: LogTarget::Binary(name), path, bytes });
            proof {
                assert forall|k: int| 0 <= k < count && k != i implies (
                #[trigger] self.bin_log_writers@[k]) == middle[k] by {}
            }
            i += 1;
        }
        proof {
            lemma_same_names(before, self.bin_log_writers@);
            assert forall|name: Seq<char>|
                #![trigger self.has_log(name)]
                #![trigger self.binary_log(name)]
                #![trigger self.binary_written(name)]
                {
                    &&& self.has_log(name) == old(self).has_log(name)
                    &&& self.binary_log(name) == old(self).binary_log(name)
                    &&& self.binary_written(name) == self.binary_log(name)
                    &&& self.binary_held(name) == Seq::<u8>::empty()
                } by {
                lemma_position_of(self.bin_log_writers@, name);
                assert(self.binary_held(name) =~= Seq::<u8>::empty());
            }
            assert forall|k: int| 1 <= k < out@.len() implies {
                &&& (#[trigger] out@[k]).target matches LogTarget::Binary(name)
                &&& name@ == old(self).log_name(k - 1)
                &&& old(self).has_log(name@)
                &&& out@[k].path@ == bin_log_path_of(dir, name@)
                &&& old(self).binary_written(name@) + out@[k].bytes@ == old(self).binary_log(name@)
            } by {
                assert(out@[(k - 1) + 1] == out@[k]);
                lemma_names_are_distinct(before, k - 1);
            }
            assert forall|j: int, k: int| 1 <= j < k < out@.len() implies (
            #[trigger] out@[j]).target != (#[trigger] out@[k]).target by {
                assert(out@[(j - 1) + 1] == out@[j]);
                assert(out@[(k - 1) + 1] == out@[k]);
            }
        }
        out
    }

    /// Takes note that the caller has set up the connection anew, for the
    /// same instruments. The stream awaits chunks again; bytes held back,
    /// records that wait and logs stay as they are.
    pub fn refresh_connection(&mut self)
        requires
            old(self).wf(),
        ensures
            final(self).wf(),
            final(self).same_data(old(self)),
            final(self).queued() == old(self).queued(),
            !final(self).ended(),
            !final(self).failed(),
    {
        self.ended = false;
        self.failed = false;
    }
}

proof fn lemma_same_names(a: Seq<BinaryLog>, b: Seq<BinaryLog>)
    requires
        a.len() == b.len(),
        forall|k: int| 0 <= k < a.len() ==> (#[trigger] b[k]).instrument@ == a[k].instrument@,
    ensures
        forall|name: Seq<char>| #[trigger] position_of(b, name) == position_of(a, name),
{
    assert forall|name: Seq<char>| #[trigger] position_of(b, name) == position_of(a, name) by {
        lemma_position_of(a, name);
        lemma_position_of(b, name);
        match (position_of(a, name), position_of(b, name)) {
            (Some(i), Some(j)) => {
                assert(b[i].instrument@ == name);
                assert(a[j].instrument@ == b[j].instrument@);
            },
            (Some(i), None) => {
                assert(b[i].instrument@ == name);
            },
            (None, Some(j)) => {
                assert(a[j].instrument@ == b[j].instrument@);
            },
            (None, None) => {},
        }
    }
}

proof fn lemma_names_are_distinct(logs: Seq<BinaryLog>, k: int)
    requires
        0 <= k < logs.len(),
        forall|i: int, j: int|
            0 <= i < j < logs.len() ==> logs[i].instrument@ != logs[j].instrument@,
    ensures
        position_of(logs, logs[k].instrument@) == Some(k),
{
    lemma_position_of(logs, logs[k].instrument@);
}

} // verus!
