//! Assembly of records from chunks whose boundaries fall anywhere.
//!
//! The assembler keeps the bytes that have arrived and are not yet part of a
//! complete value. Each chunk is appended to them; every value that is now
//! complete is decoded and leaves the buffer, together with the whitespace in
//! front of it; the rest waits for the next chunk.

use crate::framing::{
    all_space, consumed, consumed_from, frames, frames_from, is_enclosed_value, is_partial_value,
    is_space, lemma_consumed_bounds, lemma_frames_of_concat, lemma_partial_value_stays,
    lemma_remainder_holds_no_value, lemma_skip_space_bounds, lemma_value_is_one_frame, next_frame,
    remainder, skip_space, value_end,
};
use crate::record::{decode_record, decode_spec, DecodeError, WireItem, WireView};
use vstd::prelude::*;
use vstd::slice::slice_subrange;

verus! {

/// The records among the decoded `frames`, in order.
pub open spec fn accepted(frames: Seq<Seq<u8>>) -> Seq<WireView>
    decreases frames.len(),
{
    if frames.len() == 0 {
        Seq::empty()
    } else {
        match decode_spec(frames.last()) {
            Ok(w) => accepted(frames.drop_last()).push(w),
            Err(_) => accepted(frames.drop_last()),
        }
    }
}

/// The refusals among the decoded `frames`, in order.
pub open spec fn rejected(frames: Seq<Seq<u8>>) -> Seq<DecodeError>
    decreases frames.len(),
{
    if frames.len() == 0 {
        Seq::empty()
    } else {
        match decode_spec(frames.last()) {
            Ok(_) => rejected(frames.drop_last()),
            Err(e) => rejected(frames.drop_last()).push(e),
        }
    }
}

/// The views of a run of wire records.
pub open spec fn wire_views(items: Seq<WireItem>) -> Seq<WireView> {
    items.map_values(|w: WireItem| w@)
}

/// All of `chunks`, one behind the other.
pub open spec fn joined(chunks: Seq<Seq<u8>>) -> Seq<u8>
    decreases chunks.len(),
{
    if chunks.len() == 0 {
        Seq::empty()
    } else {
        joined(chunks.drop_last()) + chunks.last()
    }
}

/// What an assembler that holds `buffer` holds after `chunks`.
pub open spec fn buffer_after(buffer: Seq<u8>, chunks: Seq<Seq<u8>>) -> Seq<u8>
    decreases chunks.len(),
{
    if chunks.len() == 0 {
        buffer
    } else {
        remainder(buffer_after(buffer, chunks.drop_last()) + chunks.last())
    }
}

/// The values that an assembler that holds `buffer` completes over `chunks`,
/// those of the first chunk first.
pub open spec fn frames_over(buffer: Seq<u8>, chunks: Seq<Seq<u8>>) -> Seq<Seq<u8>>
    decreases chunks.len(),
{
    if chunks.len() == 0 {
        Seq::empty()
    } else {
        frames_over(buffer, chunks.drop_last()) + frames(
            buffer_after(buffer, chunks.drop_last()) + chunks.last(),
        )
    }
}

/// The records that an assembler that holds `buffer` hands back over
/// `chunks`, those of the first chunk first.
pub open spec fn records_over(buffer: Seq<u8>, chunks: Seq<Seq<u8>>) -> Seq<WireView>
    decreases chunks.len(),
{
    if chunks.len() == 0 {
        Seq::empty()
    } else {
        records_over(buffer, chunks.drop_last()) + accepted(
            frames(buffer_after(buffer, chunks.drop_last()) + chunks.last()),
        )
    }
}

/// The refusals that an assembler that holds `buffer` hands back over
/// `chunks`, those of the first chunk first.
pub open spec fn refusals_over(buffer: Seq<u8>, chunks: Seq<Seq<u8>>) -> Seq<DecodeError>
    decreases chunks.len(),
{
    if chunks.len() == 0 {
        Seq::empty()
    } else {
        refusals_over(buffer, chunks.drop_last()) + rejected(
            frames(buffer_after(buffer, chunks.drop_last()) + chunks.last()),
        )
    }
}

/// Decoding goes value by value: what two runs of values yield one after
/// the other is what they yield as one run.
pub proof fn lemma_accepted_concat(a: Seq<Seq<u8>>, b: Seq<Seq<u8>>)
    ensures
        accepted(a + b) == accepted(a) + accepted(b),
        rejected(a + b) == rejected(a) + rejected(b),
    decreases b.len(),
{
    if b.len() == 0 {
        assert(a + b =~= a);
        assert(accepted(a) + accepted(b) =~= accepted(a));
        assert(rejected(a) + rejected(b) =~= rejected(a));
    } else {
        lemma_accepted_concat(a, b.drop_last());
        assert((a + b).drop_last() =~= a + b.drop_last());
        assert((a + b).last() == b.last());
        match decode_spec(b.last()) {
            Ok(w) => {
                assert((accepted(a) + accepted(b.drop_last())).push(w) =~= accepted(a) + accepted(
                    b.drop_last(),
                ).push(w));
            },
            Err(e) => {
                assert((rejected(a) + rejected(b.drop_last())).push(e) =~= rejected(a) + rejected(
                    b.drop_last(),
                ).push(e));
            },
        }
    }
}

/// Feeding a stream chunk by chunk to a fresh assembler completes the values
/// that the stream holds as a whole, hands back the records and refusals
/// that the whole would give, and leaves what the whole would leave.
pub proof fn lemma_chunks_as_one(chunks: Seq<Seq<u8>>)
    ensures
        frames_over(Seq::empty(), chunks) == frames(joined(chunks)),
        records_over(Seq::empty(), chunks) == accepted(frames(joined(chunks))),
        refusals_over(Seq::empty(), chunks) == rejected(frames(joined(chunks))),
        buffer_after(Seq::empty(), chunks) == remainder(joined(chunks)),
    decreases chunks.len(),
{
    let none = Seq::<u8>::empty();
    if chunks.len() == 0 {
        lemma_consumed_bounds(none, 0);
        assert(remainder(none) =~= none);
    } else {
        let front = chunks.drop_last();
        lemma_chunks_as_one(front);
        lemma_frames_of_concat(joined(front), chunks.last());
        lemma_accepted_concat(
            frames(joined(front)),
            frames(remainder(joined(front)) + chunks.last()),
        );
    }
}

/// The records that come out of a stream do not depend on where it is cut
/// into chunks: two runs of chunks that hold the same bytes give a fresh
/// assembler the same records and the same refusals, in the same order,
/// and leave the same bytes behind. In particular each run gives what the
/// whole stream gives as a single chunk.
pub proof fn lemma_chunk_boundaries_do_not_matter(first: Seq<Seq<u8>>, second: Seq<Seq<u8>>)
    requires
        joined(first) == joined(second),
    ensures
        records_over(Seq::empty(), first) == records_over(Seq::empty(), second),
        refusals_over(Seq::empty(), first) == refusals_over(Seq::empty(), second),
        buffer_after(Seq::empty(), first) == buffer_after(Seq::empty(), second),
        records_over(Seq::empty(), first) == records_over(Seq::empty(), seq![joined(first)]),
        refusals_over(Seq::empty(), first) == refusals_over(Seq::empty(), seq![joined(first)]),
        buffer_after(Seq::empty(), first) == buffer_after(Seq::empty(), seq![joined(first)]),
{
    lemma_chunks_as_one(first);
    lemma_chunks_as_one(second);
    let whole = seq![joined(first)];
    assert(whole.drop_last() =~= Seq::<Seq<u8>>::empty());
    assert(joined(whole.drop_last()) =~= Seq::<u8>::empty());
    assert(joined(whole) =~= joined(first));
    lemma_chunks_as_one(whole);
}

/// The stream that holds `values` with `gaps` around them: the first gap,
/// the first value, the second gap, and so on to the last gap.
pub open spec fn spaced(values: Seq<Seq<u8>>, gaps: Seq<Seq<u8>>) -> Seq<u8>
    recommends
        gaps.len() == values.len() + 1,
    decreases values.len(),
{
    if values.len() == 0 || gaps.len() == 0 {
        if gaps.len() == 0 {
            Seq::empty()
        } else {
            gaps[0]
        }
    } else {
        gaps[0] + values[0] + spaced(values.skip(1), gaps.skip(1))
    }
}

/// A stream of complete bracketed or quoted values with whitespace or
/// nothing around them, and then nothing more or the beginning of one more
/// value, holds exactly the complete values. What stays behind is the last
/// stretch of whitespace and the value that has not ended.
pub proof fn lemma_values_of_stream(values: Seq<Seq<u8>>, gaps: Seq<Seq<u8>>, partial: Seq<u8>)
    requires
        gaps.len() == values.len() + 1,
        forall|i: int| 0 <= i < values.len() ==> is_enclosed_value(#[trigger] values[i]),
        forall|i: int| 0 <= i < gaps.len() ==> all_space(#[trigger] gaps[i]),
        partial.len() == 0 || is_partial_value(partial),
    ensures
        frames(spaced(values, gaps) + partial) == values,
        remainder(spaced(values, gaps) + partial) == gaps.last() + partial,
    decreases values.len(),
{
    if values.len() == 0 {
        lemma_partial_value_stays(gaps[0], partial);
    } else {
        let rest = spaced(values.skip(1), gaps.skip(1));
        assert forall|i: int| 0 <= i < values.skip(1).len() implies is_enclosed_value(
            #[trigger] values.skip(1)[i],
        ) by {
            assert(values.skip(1)[i] == values[i + 1]);
        }
        assert forall|i: int| 0 <= i < gaps.skip(1).len() implies all_space(
            #[trigger] gaps.skip(1)[i],
        ) by {
            assert(gaps.skip(1)[i] == gaps[i + 1]);
        }
        lemma_values_of_stream(values.skip(1), gaps.skip(1), partial);
        lemma_value_is_one_frame(gaps[0], values[0], rest + partial);
        assert(spaced(values, gaps) + partial =~= gaps[0] + values[0] + (rest + partial));
        assert(seq![values[0]] + values.skip(1) =~= values);
        assert(gaps.skip(1).last() == gaps.last());
    }
}

/// However a stream of complete values is cut into chunks, a fresh
/// assembler hands back the records and the refusals of exactly these
/// values, in their order. Afterwards it holds the whitespace behind the
/// last of them, and the beginning of the next value if the stream ends in
/// one: nothing but whitespace where every value of the stream is complete,
/// and nothing but the value that has not ended where no whitespace stands
/// in front of it.
pub proof fn lemma_complete_values_in_any_chunks(
    values: Seq<Seq<u8>>,
    gaps: Seq<Seq<u8>>,
    partial: Seq<u8>,
    chunks: Seq<Seq<u8>>,
)
    requires
        gaps.len() == values.len() + 1,
        forall|i: int| 0 <= i < values.len() ==> is_enclosed_value(#[trigger] values[i]),
        forall|i: int| 0 <= i < gaps.len() ==> all_space(#[trigger] gaps[i]),
        partial.len() == 0 || is_partial_value(partial),
        joined(chunks) == spaced(values, gaps) + partial,
    ensures
        records_over(Seq::empty(), chunks) == accepted(values),
        refusals_over(Seq::empty(), chunks) == rejected(values),
        buffer_after(Seq::empty(), chunks) == gaps.last() + partial,
        partial.len() == 0 ==> all_space(buffer_after(Seq::empty(), chunks)),
        gaps.last().len() == 0 ==> buffer_after(Seq::empty(), chunks) == partial,
{
    lemma_chunks_as_one(chunks);
    lemma_values_of_stream(values, gaps, partial);
    if partial.len() == 0 {
        assert(gaps.last() + partial =~= gaps.last());
    }
    if gaps.last().len() == 0 {
        assert(gaps.last() + partial =~= partial);
    }
}

/// After any run of chunks the buffer holds no complete value. It is
/// whitespace up to some index. Either that is all of it, or a value begins
/// there that has not ended, and reaches to the end of the buffer.
pub proof fn lemma_buffer_is_minimal(buffer: Seq<u8>, chunks: Seq<Seq<u8>>)
    requires
        chunks.len() > 0,
    ensures
        value_end(buffer_after(buffer, chunks), 0) is None,
        frames(buffer_after(buffer, chunks)) == Seq::<Seq<u8>>::empty(),
        remainder(buffer_after(buffer, chunks)) == buffer_after(buffer, chunks),
        0 <= skip_space(buffer_after(buffer, chunks), 0) <= buffer_after(buffer, chunks).len(),
        forall|k: int|
            0 <= k < skip_space(buffer_after(buffer, chunks), 0) ==> is_space(
                #[trigger] buffer_after(buffer, chunks)[k],
            ),
        skip_space(buffer_after(buffer, chunks), 0) < buffer_after(buffer, chunks).len()
            ==> !is_space(
            buffer_after(buffer, chunks)[skip_space(buffer_after(buffer, chunks), 0)],
        ),
{
    lemma_remainder_holds_no_value(buffer_after(buffer, chunks.drop_last()) + chunks.last());
    lemma_skip_space_bounds(buffer_after(buffer, chunks), 0);
}

/// The bytes that have arrived and belong to no complete value yet.
pub struct Assembler {
    buffer: Vec<u8>,
}

impl View for Assembler {
    type V = Seq<u8>;

    closed spec fn view(&self) -> Seq<u8> {
        self.buffer@
    }
}

impl Assembler {
    /// An assembler that holds nothing.
    pub fn new() -> (r: Assembler)
        ensures
            r@ == Seq::<u8>::empty(),
    {
        Assembler { buffer: Vec::new() }
    }

    /// The bytes held back.
    pub fn buffer(&self) -> (r: &[u8])
        ensures
            r@ == self@,
    {
        self.buffer.as_slice()
    }

    /// Whether the bytes held back are the beginning of a value, and not
    /// whitespace alone.
    pub fn holds_partial_value(&self) -> (r: bool)
        ensures
            r == (skip_space(self@, 0) < self@.len()),
    {
        let len = self.buffer.len();
        let mut i: usize = 0;
        while i < len && (self.buffer[i] == 0x20 || self.buffer[i] == 0x09 || self.buffer[i] == 0x0a
            || self.buffer[i] == 0x0d)
            invariant
                i <= len,
                len == self.buffer@.len(),
                skip_space(self.buffer@, 0) == skip_space(self.buffer@, i as int),
            decreases len - i,
        {
            i += 1;
        }
        i < len
    }

    /// Takes one chunk in. Hands back the records of the values that are now
    /// complete, and the refusals of those that are no record, each list in
    /// the order of arrival. Keeps what follows the last complete value.
    pub fn ingest(&mut self, chunk: &[u8]) -> (out: (Vec<WireItem>, Vec<DecodeError>))
        ensures
            wire_views(out.0@) == accepted(frames(old(self)@ + chunk@)),
            out.1@ == rejected(frames(old(self)@ + chunk@)),
            final(self)@ == remainder(old(self)@ + chunk@),
    {
        self.buffer.extend_from_slice(chunk);
        let ghost all = self.buffer@;
        let mut items: Vec<WireItem> = Vec::new();
        let mut errors: Vec<DecodeError> = Vec::new();
        let ghost mut done: Seq<Seq<u8>> = Seq::empty();
        let mut pos: usize = 0;
        let len = self.buffer.len();
        proof {
            assert(wire_views(items@) =~= accepted(done));
            assert(done + frames_from(all, 0) =~= frames(all));
        }
        loop
            invariant
                self.buffer@ == all,
                all == old(self)@ + chunk@,
                len == all.len(),
                pos <= len,
                frames(all) == done + frames_from(all, pos as int),
                consumed(all) == consumed_from(all, pos as int),
                wire_views(items@) == accepted(done),
                errors@ == rejected(done),
            ensures
                value_end(all, pos as int) is None,
            decreases len - pos,
        {
            match next_frame(self.buffer.as_slice(), pos) {
                None => {
                    break ;
                },
                Some((start, end)) => {
                    let frame = slice_subrange(self.buffer.as_slice(), start, end);
                    let ghost rest = frames_from(all, end as int);
                    proof {
                        assert(frames_from(all, pos as int) == seq![frame@] + rest);
                        assert(done + (seq![frame@] + rest) =~= done.push(frame@) + rest);
                        assert(done.push(frame@).drop_last() =~= done);
                    }
                    match decode_record(frame) {
                        Ok(item) => {
                            let ghost before = items@;
                            items.push(item);
                            proof {
                                assert(wire_views(items@) =~= wire_views(before).push(item@));
                            }
                        },
                        Err(e) => {
                            errors.push(e);
                        },
                    }
                    proof {
                        done = done.push(frame@);
                    }
                    pos = end;
                },
            }
        }
        proof {
            assert(frames(all) =~= done);
        }
        let rest = self.buffer.split_off(pos);
        self.buffer = rest;
        (items, errors)
    }
}

} // verus!
