//! The bookkeeping of one append-only log file.
//!
//! Bytes written to a log are held back until they no longer fit, or until
//! a flush; then they are handed on, to be appended to the file. What was
//! handed on and what is held back make up, in this order, everything that
//! was ever written.

use vstd::prelude::*;

verus! {

/// How many bytes a log holds back at most.
pub const WRITER_CAPACITY: usize = 8192;

/// One append-only log.
pub struct LogWriter {
    pending: Vec<u8>,
    written: Ghost<Seq<u8>>,
}

impl LogWriter {
    /// The bytes that were handed on for writing, oldest first.
    pub closed spec fn written(&self) -> Seq<u8> {
        self.written@
    }

    /// The bytes that are held back.
    pub closed spec fn pending(&self) -> Seq<u8> {
        self.pending@
    }

    /// Everything that was ever written to the log.
    pub open spec fn contents(&self) -> Seq<u8> {
        self.written() + self.pending()
    }

    /// A log to which nothing was written.
    pub fn new() -> (r: LogWriter)
        ensures
            r.written() == Seq::<u8>::empty(),
            r.pending() == Seq::<u8>::empty(),
    {
        LogWriter { pending: Vec::new(), written: Ghost(Seq::empty()) }
    }

    /// The number of bytes held back.
    pub fn pending_len(&self) -> (r: usize)
        ensures
            r == self.pending().len(),
    {
        self.pending.len()
    }

    /// Appends `bytes` to the log. Hands back what the file is due now:
    /// nothing while the bytes held back and the new ones fit together,
    /// else all of them, the new ones last.
    pub fn write(&mut self, bytes: &[u8]) -> (out: Vec<u8>)
        ensures
            final(self).contents() == old(self).contents() + bytes@,
            final(self).written() == old(self).written() + out@,
            old(self).pending().len() + bytes@.len() <= WRITER_CAPACITY ==> out@.len() == 0,
            old(self).pending().len() + bytes@.len() > WRITER_CAPACITY
                ==> final(self).pending().len() == 0,
    {
        if bytes.len() > WRITER_CAPACITY || self.pending.len() > WRITER_CAPACITY - bytes.len() {
            let mut out: Vec<u8> = Vec::new();
            out.append(&mut self.pending);
            out.extend_from_slice(bytes);
            proof {
                assert(out@ =~= old(self).pending@ + bytes@);
                self.written = Ghost(self.written@ + out@);
                assert(self.contents() =~= old(self).contents() + bytes@);
            }
            out
        } else {
            self.pending.extend_from_slice(bytes);
            let out: Vec<u8> = Vec::new();
            proof {
                assert(self.pending@ =~= old(self).pending@ + bytes@);
                assert(self.contents() =~= old(self).contents() + bytes@);
                assert(self.written() =~= old(self).written() + out@);
            }
            out
        }
    }

    /// Hands on everything that is held back.
    pub fn flush(&mut self) -> (out: Vec<u8>)
        ensures
            out@ == old(self).pending(),
            final(self).pending() == Seq::<u8>::empty(),
            final(self).written() == old(self).contents(),
            final(self).contents() == old(self).contents(),
    {
        let mut out: Vec<u8> = Vec::new();
        out.append(&mut self.pending);
        proof {
            assert(out@ =~= old(self).pending@);
            self.written = Ghost(self.written@ + out@);
            assert(self.contents() =~= old(self).contents());
        }
        out
    }
}

} // verus!
