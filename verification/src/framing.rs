//! Where one value of the stream ends and the next begins.
//!
//! The stream is a run of JSON values with optional whitespace between them.
//! A value that opens with a brace, a bracket or a quote ends where the
//! nesting that it opened closes again, brackets inside strings not counted.
//! Any other value is a bare run of bytes, which ends in front of the next
//! whitespace or opening byte. A value whose end has not arrived is left
//! alone: nothing here guesses at it.

use vstd::prelude::*;

verus! {

/// Space, tab, line feed and carriage return.
pub open spec fn is_space(b: u8) -> bool {
    b == 0x20 || b == 0x09 || b == 0x0a || b == 0x0d
}

/// An opening brace, an opening bracket or a quote.
pub open spec fn is_opener(b: u8) -> bool {
    b == 0x7b || b == 0x5b || b == 0x22
}

/// A byte that ends a bare run.
pub open spec fn is_break(b: u8) -> bool {
    is_space(b) || is_opener(b)
}

/// How far into a bracketed or quoted value the scan is.
pub struct Scan {
    /// Brackets and braces opened and not yet closed.
    pub depth: nat,
    /// Inside a string.
    pub in_string: bool,
    /// Inside a string, directly behind a backslash.
    pub escaped: bool,
}

impl Scan {
    /// The scan in front of a value.
    pub open spec fn start() -> Scan {
        Scan { depth: 0, in_string: false, escaped: false }
    }

    /// The scan after one more byte.
    pub open spec fn step(self, b: u8) -> Scan {
        if self.in_string {
            if self.escaped {
                Scan { escaped: false, ..self }
            } else if b == 0x5c {
                Scan { escaped: true, ..self }
            } else if b == 0x22 {
                Scan { in_string: false, ..self }
            } else {
                self
            }
        } else if b == 0x22 {
            Scan { in_string: true, ..self }
        } else if b == 0x7b || b == 0x5b {
            Scan { depth: self.depth + 1, ..self }
        } else if (b == 0x7d || b == 0x5d) && self.depth > 0 {
            Scan { depth: (self.depth - 1) as nat, ..self }
        } else {
            self
        }
    }

    /// Everything that was opened is closed.
    pub open spec fn closed(self) -> bool {
        self.depth == 0 && !self.in_string
    }
}

/// The first index at or behind `i` that holds no whitespace, or the length.
pub open spec fn skip_space(s: Seq<u8>, i: int) -> int
    decreases s.len() - i,
{
    if 0 <= i < s.len() && is_space(s[i]) {
        skip_space(s, i + 1)
    } else {
        i
    }
}

/// The index behind the byte at which a scan in state `st` at `i` closes.
pub open spec fn enclosed_end(s: Seq<u8>, i: int, st: Scan) -> Option<int>
    decreases s.len() - i,
{
    if 0 <= i < s.len() {
        let next = st.step(s[i]);
        if next.closed() {
            Some(i + 1)
        } else {
            enclosed_end(s, i + 1, next)
        }
    } else {
        None
    }
}

/// The index of the first break at or behind `i`.
pub open spec fn bare_end(s: Seq<u8>, i: int) -> Option<int>
    decreases s.len() - i,
{
    if 0 <= i < s.len() {
        if is_break(s[i]) {
            Some(i)
        } else {
            bare_end(s, i + 1)
        }
    } else {
        None
    }
}

/// The end of the first value at or behind `i`, if all of it is there.
pub open spec fn value_end(s: Seq<u8>, i: int) -> Option<int> {
    let j = skip_space(s, i);
    if 0 <= j < s.len() {
        if is_opener(s[j]) {
            enclosed_end(s, j, Scan::start())
        } else {
            bare_end(s, j + 1)
        }
    } else {
        None
    }
}

/// The complete values of `s` from `i` on, in order, each without the
/// whitespace around it.
pub open spec fn frames_from(s: Seq<u8>, i: int) -> Seq<Seq<u8>>
    decreases s.len() - i,
{
    match value_end(s, i) {
        Some(e) => if i < e <= s.len() {
            seq![s.subrange(skip_space(s, i), e)] + frames_from(s, e)
        } else {
            Seq::empty()
        },
        None => Seq::empty(),
    }
}

/// The index directly behind the last complete value of `s` from `i` on;
/// `i` itself where there is none.
pub open spec fn consumed_from(s: Seq<u8>, i: int) -> int
    decreases s.len() - i,
{
    match value_end(s, i) {
        Some(e) => if i < e <= s.len() {
            consumed_from(s, e)
        } else {
            i
        },
        None => i,
    }
}

/// The complete values of `s`.
pub open spec fn frames(s: Seq<u8>) -> Seq<Seq<u8>> {
    frames_from(s, 0)
}

/// How many bytes of `s` its complete values take up, with the whitespace
/// in front of each.
pub open spec fn consumed(s: Seq<u8>) -> int {
    consumed_from(s, 0)
}

/// What is left of `s` behind its last complete value.
pub open spec fn remainder(s: Seq<u8>) -> Seq<u8> {
    s.skip(consumed(s))
}

/// `o` moved right by `k`.
pub open spec fn shifted(o: Option<int>, k: int) -> Option<int> {
    match o {
        Some(e) => Some(e + k),
        None => None,
    }
}

/// Skipping whitespace stops inside the input, behind whitespace alone, and
/// in front of a byte that is none, if any byte is left.
pub proof fn lemma_skip_space_bounds(s: Seq<u8>, i: int)
    requires
        0 <= i <= s.len(),
    ensures
        i <= skip_space(s, i) <= s.len(),
        forall|k: int| i <= k < skip_space(s, i) ==> is_space(#[trigger] s[k]),
        skip_space(s, i) < s.len() ==> !is_space(s[skip_space(s, i)]),
    decreases s.len() - i,
{
    if i < s.len() && is_space(s[i]) {
        lemma_skip_space_bounds(s, i + 1);
    }
}

proof fn lemma_enclosed_end_bounds(s: Seq<u8>, i: int, st: Scan)
    requires
        0 <= i <= s.len(),
    ensures
        enclosed_end(s, i, st) matches Some(e) ==> i < e <= s.len(),
    decreases s.len() - i,
{
    if i < s.len() && !st.step(s[i]).closed() {
        lemma_enclosed_end_bounds(s, i + 1, st.step(s[i]));
    }
}

proof fn lemma_bare_end_bounds(s: Seq<u8>, i: int)
    requires
        0 <= i <= s.len(),
    ensures
        bare_end(s, i) matches Some(e) ==> i <= e < s.len() && is_break(s[e]),
    decreases s.len() - i,
{
    if i < s.len() && !is_break(s[i]) {
        lemma_bare_end_bounds(s, i + 1);
    }
}

/// A complete value lies behind the whitespace in front of it and inside `s`.
pub proof fn lemma_value_end_bounds(s: Seq<u8>, i: int)
    requires
        0 <= i <= s.len(),
    ensures
        i <= skip_space(s, i) <= s.len(),
        value_end(s, i) matches Some(e) ==> skip_space(s, i) < e <= s.len(),
{
    lemma_skip_space_bounds(s, i);
    let j = skip_space(s, i);
    if j < s.len() {
        if is_opener(s[j]) {
            lemma_enclosed_end_bounds(s, j, Scan::start());
        } else {
            lemma_bare_end_bounds(s, j + 1);
        }
    }
}

/// What the complete values take up ends inside the input, and no complete
/// value begins there.
pub proof fn lemma_consumed_bounds(s: Seq<u8>, i: int)
    requires
        0 <= i <= s.len(),
    ensures
        i <= consumed_from(s, i) <= s.len(),
        value_end(s, consumed_from(s, i)) is None,
    decreases s.len() - i,
{
    lemma_value_end_bounds(s, i);
    match value_end(s, i) {
        Some(e) => {
            lemma_consumed_bounds(s, e);
        },
        None => {},
    }
}

proof fn lemma_skip_space_extend(p: Seq<u8>, t: Seq<u8>, i: int)
    requires
        0 <= i <= p.len(),
        skip_space(p, i) < p.len(),
    ensures
        skip_space(p + t, i) == skip_space(p, i),
    decreases p.len() - i,
{
    if i < p.len() && is_space(p[i]) {
        lemma_skip_space_extend(p, t, i + 1);
    }
}

proof fn lemma_enclosed_end_extend(p: Seq<u8>, t: Seq<u8>, i: int, st: Scan)
    requires
        0 <= i <= p.len(),
        enclosed_end(p, i, st) is Some,
    ensures
        enclosed_end(p + t, i, st) == enclosed_end(p, i, st),
    decreases p.len() - i,
{
    if i < p.len() && !st.step(p[i]).closed() {
        lemma_enclosed_end_extend(p, t, i + 1, st.step(p[i]));
    }
}

proof fn lemma_bare_end_extend(p: Seq<u8>, t: Seq<u8>, i: int)
    requires
        0 <= i <= p.len(),
        bare_end(p, i) is Some,
    ensures
        bare_end(p + t, i) == bare_end(p, i),
    decreases p.len() - i,
{
    if i < p.len() && !is_break(p[i]) {
        lemma_bare_end_extend(p, t, i + 1);
    }
}

/// A value that is complete stays what it is, whatever arrives behind it.
pub proof fn lemma_value_end_extend(p: Seq<u8>, t: Seq<u8>, i: int)
    requires
        0 <= i <= p.len(),
        value_end(p, i) is Some,
    ensures
        value_end(p + t, i) == value_end(p, i),
        skip_space(p + t, i) == skip_space(p, i),
        (p + t).subrange(skip_space(p, i), value_end(p, i).unwrap()) == p.subrange(
            skip_space(p, i),
            value_end(p, i).unwrap(),
        ),
{
    lemma_value_end_bounds(p, i);
    lemma_skip_space_extend(p, t, i);
    let j = skip_space(p, i);
    if is_opener(p[j]) {
        lemma_enclosed_end_extend(p, t, j, Scan::start());
    } else {
        lemma_bare_end_extend(p, t, j + 1);
    }
    let e = value_end(p, i).unwrap();
    assert((p + t).subrange(j, e) =~= p.subrange(j, e));
}

/// The values of a longer input are those of its first part, and then
/// those that start where the first part's last complete value ended.
pub proof fn lemma_frames_extend(p: Seq<u8>, t: Seq<u8>, i: int)
    requires
        0 <= i <= p.len(),
    ensures
        i <= consumed_from(p, i) <= p.len(),
        frames_from(p + t, i) == frames_from(p, i) + frames_from(p + t, consumed_from(p, i)),
        consumed_from(p + t, i) == consumed_from(p + t, consumed_from(p, i)),
    decreases p.len() - i,
{
    lemma_value_end_bounds(p, i);
    match value_end(p, i) {
        Some(e) => {
            lemma_value_end_extend(p, t, i);
            lemma_frames_extend(p, t, e);
            let first = seq![p.subrange(skip_space(p, i), e)];
            assert(frames_from(p + t, i) == first + frames_from(p + t, e));
            assert(first + (frames_from(p, e) + frames_from(p + t, consumed_from(p, e))) =~= (first
                + frames_from(p, e)) + frames_from(p + t, consumed_from(p, e)));
        },
        None => {
            assert(frames_from(p, i) + frames_from(p + t, i) =~= frames_from(p + t, i));
        },
    }
}

proof fn lemma_skip_space_shift(s: Seq<u8>, k: int, i: int)
    requires
        0 <= k <= s.len(),
        0 <= i <= s.len() - k,
    ensures
        skip_space(s, k + i) == k + skip_space(s.skip(k), i),
    decreases s.len() - k - i,
{
    if i < s.len() - k && is_space(s[k + i]) {
        lemma_skip_space_shift(s, k, i + 1);
    }
}

proof fn lemma_enclosed_end_shift(s: Seq<u8>, k: int, i: int, st: Scan)
    requires
        0 <= k <= s.len(),
        0 <= i <= s.len() - k,
    ensures
        enclosed_end(s, k + i, st) == shifted(enclosed_end(s.skip(k), i, st), k),
    decreases s.len() - k - i,
{
    if i < s.len() - k && !st.step(s[k + i]).closed() {
        lemma_enclosed_end_shift(s, k, i + 1, st.step(s[k + i]));
    }
}

proof fn lemma_bare_end_shift(s: Seq<u8>, k: int, i: int)
    requires
        0 <= k <= s.len(),
        0 <= i <= s.len() - k,
    ensures
        bare_end(s, k + i) == shifted(bare_end(s.skip(k), i), k),
    decreases s.len() - k - i,
{
    if i < s.len() - k && !is_break(s[k + i]) {
        lemma_bare_end_shift(s, k, i + 1);
    }
}

proof fn lemma_value_end_shift(s: Seq<u8>, k: int, i: int)
    requires
        0 <= k <= s.len(),
        0 <= i <= s.len() - k,
    ensures
        value_end(s, k + i) == shifted(value_end(s.skip(k), i), k),
        skip_space(s, k + i) == k + skip_space(s.skip(k), i),
{
    lemma_skip_space_shift(s, k, i);
    lemma_skip_space_bounds(s.skip(k), i);
    let j = skip_space(s.skip(k), i);
    if j < s.len() - k {
        if is_opener(s[k + j]) {
            lemma_enclosed_end_shift(s, k, j, Scan::start());
        } else {
            lemma_bare_end_shift(s, k, j + 1);
        }
    }
}

/// Scanning from `k` on is scanning what is left when the first `k` bytes are dropped.
pub proof fn lemma_frames_shift(s: Seq<u8>, k: int, i: int)
    requires
        0 <= k <= s.len(),
        0 <= i <= s.len() - k,
    ensures
        frames_from(s, k + i) == frames_from(s.skip(k), i),
        consumed_from(s, k + i) == k + consumed_from(s.skip(k), i),
    decreases s.len() - k - i,
{
    let r = s.skip(k);
    lemma_value_end_shift(s, k, i);
    lemma_value_end_bounds(r, i);
    match value_end(r, i) {
        Some(e) => {
            lemma_frames_shift(s, k, e);
            assert(s.subrange(k + skip_space(r, i), k + e) =~= r.subrange(skip_space(r, i), e));
        },
        None => {},
    }
}

/// Nothing complete is left in what stays behind: the remainder is
/// whitespace alone, or whitespace and then one value that has not ended.
pub proof fn lemma_remainder_holds_no_value(s: Seq<u8>)
    ensures
        value_end(remainder(s), 0) is None,
        frames(remainder(s)) == Seq::<Seq<u8>>::empty(),
        consumed(remainder(s)) == 0,
        remainder(remainder(s)) == remainder(s),
{
    lemma_consumed_bounds(s, 0);
    let k = consumed(s);
    lemma_value_end_shift(s, k, 0);
    assert(remainder(s).skip(0) =~= remainder(s));
}

/// What two inputs yield one after the other, the second scanned from the
/// first one's remainder on, is what their concatenation yields.
pub proof fn lemma_frames_of_concat(p: Seq<u8>, t: Seq<u8>)
    ensures
        frames(p + t) == frames(p) + frames(remainder(p) + t),
        remainder(p + t) == remainder(remainder(p) + t),
{
    lemma_frames_extend(p, t, 0);
    let k = consumed(p);
    let s = p + t;
    lemma_frames_shift(s, k, 0);
    assert(s.skip(k) =~= remainder(p) + t);
    lemma_consumed_bounds(s.skip(k), 0);
    assert(s.skip(k + consumed(s.skip(k))) =~= s.skip(k).skip(consumed(s.skip(k))));
}

/// Whether `v` is one bracketed or quoted value, from its first byte to
/// its last.
pub open spec fn is_enclosed_value(v: Seq<u8>) -> bool {
    v.len() > 0 && is_opener(v[0]) && enclosed_end(v, 0, Scan::start()) == Some(v.len() as int)
}

/// Whether `w` is whitespace alone.
pub open spec fn all_space(w: Seq<u8>) -> bool {
    forall|i: int| 0 <= i < w.len() ==> is_space(#[trigger] w[i])
}

proof fn lemma_skip_space_over(w: Seq<u8>, s: Seq<u8>, i: int)
    requires
        all_space(w),
        0 <= i <= w.len(),
    ensures
        skip_space(w + s, i) == w.len() + skip_space(s, 0),
    decreases w.len() - i,
{
    if i < w.len() {
        assert((w + s)[i] == w[i]);
        lemma_skip_space_over(w, s, i + 1);
    } else {
        lemma_skip_space_shift(w + s, w.len() as int, 0);
        assert((w + s).skip(w.len() as int) =~= s);
    }
}

/// Whitespace in front of a stream changes none of its values.
pub proof fn lemma_leading_space_is_skipped(w: Seq<u8>, s: Seq<u8>)
    requires
        all_space(w),
    ensures
        frames(w + s) == frames(s),
{
    let k = w.len() as int;
    let t = w + s;
    lemma_skip_space_over(w, s, 0);
    lemma_value_end_shift(t, k, 0);
    lemma_value_end_bounds(s, 0);
    lemma_frames_shift(t, k, 0);
    assert(t.skip(k) =~= s);
    assert(value_end(t, 0) == value_end(t, k));
    match value_end(s, 0) {
        Some(e) => {
            lemma_frames_shift(t, k, e);
            assert(frames_from(t, 0) == seq![t.subrange(skip_space(t, 0), k + e)] + frames_from(
                t,
                k + e,
            ));
            assert(frames_from(t, k) == seq![t.subrange(skip_space(t, k), k + e)] + frames_from(
                t,
                k + e,
            ));
            lemma_skip_space_shift(t, k, 0);
        },
        None => {},
    }
}

/// Whether `p` is the beginning of one value that has not ended: it opens
/// with a byte that is no whitespace, and no value in it is complete.
pub open spec fn is_partial_value(p: Seq<u8>) -> bool {
    p.len() > 0 && !is_space(p[0]) && value_end(p, 0) is None
}

/// A value that has not ended, behind whitespace or none, stays behind
/// whole, with the whitespace in front of it.
pub proof fn lemma_partial_value_stays(w: Seq<u8>, p: Seq<u8>)
    requires
        all_space(w),
        p.len() == 0 || is_partial_value(p),
    ensures
        frames(w + p) == Seq::<Seq<u8>>::empty(),
        remainder(w + p) == w + p,
{
    let t = w + p;
    let k = w.len() as int;
    lemma_skip_space_over(w, p, 0);
    lemma_value_end_shift(t, k, 0);
    assert(t.skip(k) =~= p);
    assert(value_end(t, k) is None);
    assert(value_end(t, 0) == value_end(t, k));
    assert(t.skip(0) =~= t);
}

/// A complete bracketed or quoted value at the head of a stream, behind
/// whitespace or none, is the first of its values, byte for byte. The rest
/// follow as they would without it, and what stays behind is what the rest
/// leaves behind.
pub proof fn lemma_value_is_one_frame(w: Seq<u8>, v: Seq<u8>, rest: Seq<u8>)
    requires
        all_space(w),
        is_enclosed_value(v),
    ensures
        frames(w + v + rest) == seq![v] + frames(rest),
        remainder(w + v + rest) == remainder(rest),
{
    let t = w + v + rest;
    let k = w.len() as int;
    let n = v.len() as int;
    assert(t =~= w + (v + rest));
    lemma_skip_space_over(w, v + rest, 0);
    assert((v + rest)[0] == v[0]);
    assert(skip_space(v + rest, 0) == 0);
    assert(skip_space(t, 0) == k);
    // The value ends in `v + rest` where it ends in `v`.
    assert(skip_space(v, 0) == 0);
    assert(value_end(v, 0) == Some(n));
    lemma_value_end_extend(v, rest, 0);
    // And so it does behind the whitespace.
    lemma_value_end_shift(t, k, 0);
    assert(t.skip(k) =~= v + rest);
    assert(value_end(t, k) == Some(k + n));
    assert(value_end(t, 0) == Some(k + n));
    lemma_frames_shift(t, k + n, 0);
    assert(t.skip(k + n) =~= rest);
    assert(t.subrange(k, k + n) =~= v);
    lemma_consumed_bounds(rest, 0);
    assert(t.skip(k + n + consumed(rest)) =~= rest.skip(consumed(rest)));
}

fn is_space_byte(b: u8) -> (r: bool)
    ensures
        r == is_space(b),
{
    b == 0x20 || b == 0x09 || b == 0x0a || b == 0x0d
}

fn is_opener_byte(b: u8) -> (r: bool)
    ensures
        r == is_opener(b),
{
    b == 0x7b || b == 0x5b || b == 0x22
}

/// Finds the first value of `buf` at or behind `from`: where it starts and
/// where it ends. `None` where only whitespace is left, or the value has
/// not ended yet.
pub fn next_frame(buf: &[u8], from: usize) -> (r: Option<(usize, usize)>)
    requires
        from <= buf@.len(),
    ensures
        match r {
            Some((start, end)) => value_end(buf@, from as int) == Some(end as int) && start
                == skip_space(buf@, from as int) && from <= start < end <= buf@.len(),
            None => value_end(buf@, from as int) is None,
        },
{
    let len = buf.len();
    let mut j = from;
    while j < len && is_space_byte(buf[j])
        invariant
            from <= j <= len,
            len == buf@.len(),
            skip_space(buf@, from as int) == skip_space(buf@, j as int),
        decreases len - j,
    {
        j += 1;
    }
    if j >= len {
        return None;
    }
    assert(skip_space(buf@, j as int) == j);
    if is_opener_byte(buf[j]) {
        let mut i = j;
        let mut depth: usize = 0;
        let mut in_string = false;
        let mut escaped = false;
        while i < len
            invariant
                j <= i <= len,
                len == buf@.len(),
                depth <= i - j,
                from <= j,
                skip_space(buf@, from as int) == j,
                is_opener(buf@[j as int]),
                enclosed_end(buf@, j as int, Scan::start()) == enclosed_end(
                    buf@,
                    i as int,
                    Scan { depth: depth as nat, in_string, escaped },
                ),
            decreases len - i,
        {
            let b = buf[i];
            let ghost before = Scan { depth: depth as nat, in_string, escaped };
            if in_string {
                if escaped {
                    escaped = false;
                } else if b == 0x5c {
                    escaped = true;
                } else if b == 0x22 {
                    in_string = false;
                }
            } else if b == 0x22 {
                in_string = true;
            } else if b == 0x7b || b == 0x5b {
                depth += 1;
            } else if (b == 0x7d || b == 0x5d) && depth > 0 {
                depth -= 1;
            }
            i += 1;
            assert(Scan { depth: depth as nat, in_string, escaped } == before.step(b));
            if depth == 0 && !in_string {
                return Some((j, i));
            }
        }
        None
    } else {
        let mut i = j + 1;
        while i < len
            invariant
                j < i <= len,
                len == buf@.len(),
                from <= j,
                skip_space(buf@, from as int) == j,
                !is_opener(buf@[j as int]),
                bare_end(buf@, j + 1) == bare_end(buf@, i as int),
            decreases len - i,
        {
            if is_space_byte(buf[i]) || is_opener_byte(buf[i]) {
                return Some((j, i));
            }
            i += 1;
        }
        None
    }
}

} // verus!
