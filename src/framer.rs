//! Line framing over the serial byte stream. Bytes that cannot belong to
//! well-formed UTF-8 text are dropped; the first bytes of a multi-byte
//! character are held until the character is complete, so every frame is
//! well-formed UTF-8.
use vstd::prelude::*;
use vstd::utf8::{pop_first_scalar, valid_first_scalar, valid_utf8, valid_utf8_concat};

verus! {

pub const NEWLINE: u8 = 10;

/// Number of bytes of the UTF-8 sequence that `lead` starts, or 0 where no
/// well-formed sequence starts with it.
pub open spec fn sequence_width(lead: u8) -> nat {
    if lead <= 0x7f {
        1
    } else if 0xc2 <= lead <= 0xdf {
        2
    } else if 0xe0 <= lead <= 0xef {
        3
    } else if 0xf0 <= lead <= 0xf4 {
        4
    } else {
        0
    }
}

/// Whether `b` can follow the incomplete sequence `pending` in well-formed
/// UTF-8 (no overlong form, no surrogate, nothing above U+10FFFF).
pub open spec fn continues(pending: Seq<u8>, b: u8) -> bool {
    if pending.len() == 1 && pending[0] == 0xe0 {
        0xa0 <= b <= 0xbf
    } else if pending.len() == 1 && pending[0] == 0xed {
        0x80 <= b <= 0x9f
    } else if pending.len() == 1 && pending[0] == 0xf0 {
        0x90 <= b <= 0xbf
    } else if pending.len() == 1 && pending[0] == 0xf4 {
        0x80 <= b <= 0x8f
    } else {
        0x80 <= b <= 0xbf
    }
}

/// The line and the incomplete sequence after one more byte. A byte that
/// cannot continue the pending sequence abandons it and is taken on its own:
/// kept if it is a one-byte character, held if it starts a longer one,
/// dropped otherwise.
pub open spec fn accept_byte(line: Seq<u8>, pending: Seq<u8>, b: u8) -> (Seq<u8>, Seq<u8>) {
    if pending.len() > 0 && continues(pending, b) {
        let held = pending.push(b);
        if held.len() == sequence_width(held[0]) {
            (line + held, Seq::empty())
        } else {
            (line, held)
        }
    } else if sequence_width(b) == 1 {
        (line.push(b), Seq::empty())
    } else if sequence_width(b) > 1 {
        (line, seq![b])
    } else {
        (line, Seq::empty())
    }
}

pub open spec fn no_newline(s: Seq<u8>) -> bool {
    forall|i: int| 0 <= i < s.len() ==> s[i] != NEWLINE
}

/// A frame: one newline, at its end.
pub open spec fn is_frame(s: Seq<u8>) -> bool {
    s.len() >= 1 && s.last() == NEWLINE && no_newline(s.drop_last())
}

/// Whether each byte after the first of `p` may follow the ones before it.
pub open spec fn continuations_fit(p: Seq<u8>) -> bool {
    forall|i: int| 1 <= i < p.len() ==> continues(p.take(i), #[trigger] p[i])
}

proof fn lemma_one_byte_valid(b: u8)
    requires
        b <= 0x7f,
    ensures
        valid_utf8(seq![b]),
{
    let h = seq![b];
    assert((b & 0x7f) as u32 <= 0x7f) by (bit_vector)
        requires
            b <= 0x7f,
    ;
    assert(valid_first_scalar(h));
    assert(pop_first_scalar(h) =~= Seq::<u8>::empty());
    assert(valid_utf8(Seq::<u8>::empty()));
}

/// A sequence that the framer completes encodes one Unicode scalar.
proof fn lemma_complete_sequence_valid(h: Seq<u8>)
    requires
        h.len() >= 2,
        h.len() == sequence_width(h[0]),
        continuations_fit(h),
    ensures
        valid_utf8(h),
{
    let b1 = h[0];
    let b2 = h[1];
    assert(continues(h.take(1), b2));
    assert(h.take(1)[0] == b1);
    if h.len() == 2 {
        assert(((((b1 & 0x1f) as u32) << 6) | ((b2 & 0x3f) as u32)) >= 0x80 && ((((b1 & 0x1f)
            as u32) << 6) | ((b2 & 0x3f) as u32)) <= 0x7ff) by (bit_vector)
            requires
                0xc2 <= b1 <= 0xdf,
                0x80 <= b2 <= 0xbf,
        ;
    } else if h.len() == 3 {
        let b3 = h[2];
        assert(continues(h.take(2), b3));
        assert({
            let c = (((b1 & 0x0f) as u32) << 12) | (((b2 & 0x3f) as u32) << 6) | ((b3 & 0x3f)
                as u32);
            c >= 0x800 && !(0xd800 <= c <= 0xdfff)
        }) by (bit_vector)
            requires
                0xe0 <= b1 <= 0xef,
                0x80 <= b2 <= 0xbf,
                0x80 <= b3 <= 0xbf,
                b1 == 0xe0 ==> 0xa0 <= b2,
                b1 == 0xed ==> b2 <= 0x9f,
        ;
    } else {
        let b3 = h[2];
        let b4 = h[3];
        assert(continues(h.take(2), b3));
        assert(continues(h.take(3), b4));
        assert({
            let c = (((b1 & 0x07) as u32) << 18) | (((b2 & 0x3f) as u32) << 12) | (((b3 & 0x3f)
                as u32) << 6) | ((b4 & 0x3f) as u32);
            0x10000 <= c <= 0x10ffff
        }) by (bit_vector)
            requires
                0xf0 <= b1 <= 0xf4,
                0x80 <= b2 <= 0xbf,
                0x80 <= b3 <= 0xbf,
                0x80 <= b4 <= 0xbf,
                b1 == 0xf0 ==> 0x90 <= b2,
                b1 == 0xf4 ==> b2 <= 0x8f,
        ;
    }
    assert(valid_first_scalar(h));
    assert(pop_first_scalar(h) =~= Seq::<u8>::empty());
    assert(valid_utf8(Seq::<u8>::empty()));
}

/// Accumulates bytes into newline-terminated frames.
pub struct LineFramer {
    line: Vec<u8>,
    pending: Vec<u8>,
}

impl View for LineFramer {
    /// The text accumulated so far, and the start of a character not yet
    /// complete.
    type V = (Seq<u8>, Seq<u8>);

    closed spec fn view(&self) -> (Seq<u8>, Seq<u8>) {
        (self.line@, self.pending@)
    }
}

impl LineFramer {
    /// The line is well-formed UTF-8 and holds no newline, and the pending
    /// bytes are a proper prefix of a well-formed sequence.
    pub open spec fn wf(&self) -> bool {
        let p = self@.1;
        &&& valid_utf8(self@.0)
        &&& no_newline(self@.0)
        &&& p.len() == 0 || (sequence_width(p[0]) > 1 && p.len() < sequence_width(p[0])
            && continuations_fit(p))
    }

    pub fn new() -> (r: LineFramer)
        ensures
            r@ == (Seq::<u8>::empty(), Seq::<u8>::empty()),
            r.wf(),
    {
        let r = LineFramer { line: Vec::new(), pending: Vec::new() };
        assert(valid_utf8(r.line@)) by {
            assert(r.line@ =~= Seq::<u8>::empty());
        }
        r
    }

    /// Forgets a partial frame, as when the link is lost mid-line.
    pub fn reset(&mut self)
        ensures
            final(self)@ == (Seq::<u8>::empty(), Seq::<u8>::empty()),
            final(self).wf(),
    {
        self.line = Vec::new();
        self.pending = Vec::new();
        assert(valid_utf8(self.line@)) by {
            assert(self.line@ =~= Seq::<u8>::empty());
        }
    }

    /// Takes one byte. Returns the frame, newline included, when the byte is a
    /// newline, and starts the next frame empty.
    pub fn push_byte(&mut self, b: u8) -> (r: Option<Vec<u8>>)
        requires
            old(self).wf(),
        ensures
            final(self).wf(),
            r is Some ==> valid_utf8(r->0@),
            r is Some ==> is_frame(r->0@),
            ({
                let next = accept_byte(old(self)@.0, old(self)@.1, b);
                if b == NEWLINE {
                    &&& r is Some
                    &&& r->0@ == next.0
                    &&& final(self)@ == (Seq::<u8>::empty(), next.1)
                } else {
                    &&& r is None
                    &&& final(self)@ == next
                }
            }),
    {
        let width = Self::width_of(b);
        let ghost next = accept_byte(self@.0, self@.1, b);
        let ghost line_before = self@.0;
        if self.pending.len() > 0 && Self::can_continue(&self.pending, b) {
            let ghost p = self.pending@;
            self.pending.push(b);
            assert(continuations_fit(self.pending@)) by {
                assert forall|i: int| 1 <= i < self.pending@.len() implies continues(
                    self.pending@.take(i),
                    #[trigger] self.pending@[i],
                ) by {
                    if i < p.len() {
                        assert(self.pending@.take(i) =~= p.take(i));
                    } else {
                        assert(self.pending@.take(i) =~= p);
                    }
                }
            }
            if self.pending.len() == Self::width_of(self.pending[0]) {
                let mut i: usize = 0;
                let ghost line0 = self.line@;
                let ghost held = self.pending@;
                while i < self.pending.len()
                    invariant
                        self.pending@ == held,
                        0 <= i <= self.pending@.len(),
                        self.line@ == line0 + self.pending@.take(i as int),
                    decreases self.pending@.len() - i,
                {
                    self.line.push(self.pending[i]);
                    i = i + 1;
                    assert(self.pending@.take(i as int) =~= self.pending@.take(i - 1).push(
                        self.pending@[i - 1],
                    ));
                }
                assert(self.pending@.take(i as int) =~= self.pending@);
                proof {
                    lemma_complete_sequence_valid(held);
                    valid_utf8_concat(line0, held);
                }
                self.pending = Vec::new();
            }
        } else if width == 1 {
            self.pending = Vec::new();
            self.line.push(b);
            proof {
                lemma_one_byte_valid(b);
                valid_utf8_concat(line_before, seq![b]);
                assert(self.line@ =~= line_before + seq![b]);
            }
        } else if width > 1 {
            self.pending = Vec::new();
            self.pending.push(b);
            assert(self.pending@ =~= seq![b]);
        } else {
            self.pending = Vec::new();
        }
        if b == NEWLINE {
            let mut frame: Vec<u8> = Vec::new();
            std::mem::swap(&mut frame, &mut self.line);
            assert(valid_utf8(self.line@)) by {
                assert(self.line@ =~= Seq::<u8>::empty());
            }
            Some(frame)
        } else {
            None
        }
    }

    fn width_of(lead: u8) -> (r: usize)
        ensures
            r == sequence_width(lead),
    {
        if lead <= 0x7f {
            1
        } else if 0xc2 <= lead && lead <= 0xdf {
            2
        } else if 0xe0 <= lead && lead <= 0xef {
            3
        } else if 0xf0 <= lead && lead <= 0xf4 {
            4
        } else {
            0
        }
    }

    fn can_continue(pending: &Vec<u8>, b: u8) -> (r: bool)
        requires
            pending@.len() > 0,
        ensures
            r == continues(pending@, b),
    {
        let first = pending.len() == 1;
        if first && pending[0] == 0xe0 {
            0xa0 <= b && b <= 0xbf
        } else if first && pending[0] == 0xed {
            0x80 <= b && b <= 0x9f
        } else if first && pending[0] == 0xf0 {
            0x90 <= b && b <= 0xbf
        } else if first && pending[0] == 0xf4 {
            0x80 <= b && b <= 0x8f
        } else {
            0x80 <= b && b <= 0xbf
        }
    }
}

} // verus!
