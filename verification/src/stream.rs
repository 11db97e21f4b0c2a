//! The line reassembly buffer: accumulates raw byte chunks and emits
//! newline-terminated text units, keeping a partial tail, plus the decoding
//! and masking of one emitted unit.
//!
//! No byte is ever lost or duplicated: the ghost history of appended bytes
//! always equals the emitted bytes followed by the pending tail, and after a
//! final flush the emitted bytes are exactly the appended bytes.

use vstd::prelude::*;

use crate::masker::{apply_global_standard_masking, mask_text};

verus! {

/// The byte that ends a text unit.
pub const UNIT_END: u8 = 10;

/// A stateful accumulator that cuts a chunked byte stream at line ends.
pub struct LineBuffer {
    buf: Vec<u8>,
    appended: Ghost<Seq<u8>>,
    emitted: Ghost<Seq<u8>>,
}

impl LineBuffer {
    /// The bytes appended so far always equal the bytes emitted so far
    /// followed by the pending tail.
    pub closed spec fn wf(&self) -> bool {
        self.appended@ == self.emitted@ + self.buf@
    }

    /// The retained tail: bytes after the last emitted line end.
    pub closed spec fn pending(&self) -> Seq<u8> {
        self.buf@
    }

    /// All bytes ever handed to `append`.
    pub closed spec fn appended_bytes(&self) -> Seq<u8> {
        self.appended@
    }

    /// All bytes ever returned inside a text unit.
    pub closed spec fn emitted_bytes(&self) -> Seq<u8> {
        self.emitted@
    }

    /// An empty buffer with an empty history.
    pub fn new() -> (r: LineBuffer)
        ensures
            r.wf(),
            r.appended_bytes() == Seq::<u8>::empty(),
            r.emitted_bytes() == Seq::<u8>::empty(),
            r.pending() == Seq::<u8>::empty(),
    {
        LineBuffer { buf: Vec::new(), appended: Ghost(Seq::empty()), emitted: Ghost(Seq::empty()) }
    }

    /// Takes one chunk. When the grown tail holds a line end, everything up
    /// to and including the last one is emitted as one unit and only the
    /// bytes after it are retained; otherwise nothing is emitted and the
    /// tail keeps growing.
    pub fn append(&mut self, chunk: &[u8]) -> (unit: Option<Vec<u8>>)
        requires
            old(self).wf(),
        ensures
            final(self).wf(),
            final(self).appended_bytes() == old(self).appended_bytes() + chunk@,
            match unit {
                Some(u) => {
                    &&& u@.len() > 0
                    &&& u@.last() == UNIT_END
                    &&& final(self).emitted_bytes() == old(self).emitted_bytes() + u@
                    &&& u@ + final(self).pending() == old(self).pending() + chunk@
                    &&& forall|i: int|
                        0 <= i < final(self).pending().len() ==> final(self).pending()[i]
                            != UNIT_END
                },
                None => {
                    &&& final(self).emitted_bytes() == old(self).emitted_bytes()
                    &&& final(self).pending() == old(self).pending() + chunk@
                    &&& forall|i: int|
                        0 <= i < final(self).pending().len() ==> final(self).pending()[i]
                            != UNIT_END
                },
            },
    {
        self.buf.extend_from_slice(chunk);
        proof {
            self.appended@ = self.appended@ + chunk@;
        }
        let ghost whole = self.buf@;
        let mut p: usize = self.buf.len();
        while p > 0 && self.buf[p - 1] != UNIT_END
            invariant
                p <= self.buf@.len(),
                self.buf@ == whole,
                forall|i: int| p <= i < whole.len() ==> whole[i] != UNIT_END,
            decreases p,
        {
            p = p - 1;
        }
        if p == 0 {
            proof {
                assert(self.appended@ =~= self.emitted@ + self.buf@);
            }
            None
        } else {
            let mut rest = self.buf.split_off(p);
            core::mem::swap(&mut self.buf, &mut rest);
            proof {
                self.emitted@ = self.emitted@ + rest@;
                assert(rest@ + self.buf@ =~= whole);
                assert(self.appended@ =~= self.emitted@ + self.buf@);
            }
            Some(rest)
        }
    }

    /// Emits the retained tail as a final unit, if any, and clears it.
    /// Afterwards every appended byte has been emitted.
    pub fn flush(&mut self) -> (unit: Option<Vec<u8>>)
        requires
            old(self).wf(),
        ensures
            final(self).wf(),
            final(self).appended_bytes() == old(self).appended_bytes(),
            final(self).pending() == Seq::<u8>::empty(),
            final(self).emitted_bytes() == final(self).appended_bytes(),
            match unit {
                Some(u) => u@ == old(self).pending() && old(self).pending().len() > 0,
                None => old(self).pending().len() == 0,
            },
    {
        if self.buf.is_empty() {
            proof {
                assert(self.emitted@ =~= self.appended@);
            }
            None
        } else {
            let mut taken: Vec<u8> = Vec::new();
            core::mem::swap(&mut self.buf, &mut taken);
            proof {
                self.emitted@ = self.emitted@ + taken@;
                assert(self.emitted@ =~= self.appended@);
            }
            Some(taken)
        }
    }
}

/// What a byte sequence reads as when decoded permissively: invalid
/// sequences are replaced, never rejected, so decoding depends on the bytes
/// alone and is total.
pub uninterp spec fn lossy_text_of(bytes: Seq<u8>) -> Seq<char>;

/// Relies on `String::from_utf8_lossy`: the decoded text is a function of
/// the bytes alone; malformed sequences become replacement characters
/// rather than errors.
#[verifier::external_body]
fn lossy_decode(bytes: &[u8]) -> (r: String)
    ensures
        r@ == lossy_text_of(bytes@),
{
    String::from_utf8_lossy(bytes).into_owned()
}

/// Decodes one emitted unit permissively and applies the four masking
/// passes to the decoded text.
pub fn mask_unit(unit: &[u8]) -> (r: String)
    ensures
        r@ == mask_text(lossy_text_of(unit@)),
{
    let text = lossy_decode(unit);
    apply_global_standard_masking(text.as_str())
}

} // verus!
