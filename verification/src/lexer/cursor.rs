//! A byte/char cursor over a source file that never panics.
//!
//! The cursor works on the UTF-8 bytes for cheap ASCII checks and only decodes
//! a `char` when it must advance past non-ASCII text. All offsets are byte
//! offsets.

use vstd::prelude::*;
use crate::source::{strip_bom, strip_bom_spec};
use vstd::string::*;
use vstd::utf8::*;

verus! {

/// Whether `i` starts a character of `b` or is its end.
///
/// For valid UTF-8 this is exactly `str::is_char_boundary`
/// (see [`lemma_boundary_iff`]).
pub open spec fn boundary(b: Seq<u8>, i: int) -> bool {
    i == b.len() || (0 <= i < b.len() && !is_continuation_byte(b[i]))
}

/// The byte length of the character whose leading byte is `byte`.
pub open spec fn lead_width(byte: u8) -> int {
    if byte < 0x80 {
        1
    } else if byte < 0xE0 {
        2
    } else if byte < 0xF0 {
        3
    } else {
        4
    }
}

/// The byte at `i`, if any.
pub open spec fn byte_at(b: Seq<u8>, i: int) -> Option<u8> {
    if 0 <= i < b.len() {
        Some(b[i])
    } else {
        None
    }
}

/// The character that starts at boundary `i`.
pub open spec fn char_at(b: Seq<u8>, i: int) -> char {
    decode_utf8(b.subrange(i, b.len() as int))[0]
}

/// [`boundary`] agrees with `is_char_boundary` on valid UTF-8.
pub proof fn lemma_boundary_iff(b: Seq<u8>, i: int)
    requires
        valid_utf8(b),
        0 <= i <= b.len(),
    ensures
        boundary(b, i) <==> is_char_boundary(b, i),
{
    if i == b.len() {
        is_char_boundary_start_end_of_seq(b);
    } else {
        is_char_boundary_iff_not_is_continuation_byte(b, i);
    }
}

/// Stepping over the character at a boundary lands on the next boundary.
pub proof fn lemma_next_boundary(b: Seq<u8>, i: int)
    requires
        valid_utf8(b),
        boundary(b, i),
        i < b.len(),
    ensures
        i + lead_width(b[i]) <= b.len(),
        boundary(b, i + lead_width(b[i])),
{
    lemma_boundary_iff(b, i);
    valid_utf8_split(b, i);
    let s = b.subrange(i, b.len() as int);
    assert(s.len() > 0);
    assert(valid_first_scalar(s));
    assert(s[0] == b[i]);
    let w = length_of_first_scalar(s);
    assert(w == lead_width(b[i]));
    let rest = pop_first_scalar(s);
    assert(valid_utf8(rest));
    if rest.len() > 0 {
        assert(valid_first_scalar(rest));
        assert(rest[0] == b[i + w]);
    }
}

/// The byte after an ASCII byte at a boundary is a boundary.
pub proof fn lemma_ascii_step(b: Seq<u8>, i: int)
    requires
        valid_utf8(b),
        boundary(b, i),
        0 <= i < b.len(),
        b[i] < 0x80,
    ensures
        boundary(b, i + 1),
{
    lemma_next_boundary(b, i);
}

/// Both ends of an ASCII byte are character boundaries.
pub proof fn lemma_ascii_boundaries(b: Seq<u8>, k: int)
    requires
        valid_utf8(b),
        0 <= k < b.len(),
        b[k] < 0x80,
    ensures
        boundary(b, k),
        boundary(b, k + 1),
{
    lemma_ascii_step(b, k);
}

/// A cursor over the bytes of one source file.
#[derive(Clone, Debug)]
pub struct Cursor<'a> {
    text: &'a str,
    bytes: &'a [u8],
    pos: usize,
}

impl<'a> Cursor<'a> {
    /// The bytes being scanned.
    pub closed spec fn bytes_spec(&self) -> Seq<u8> {
        self.bytes@
    }

    /// The text being scanned (BOM stripped).
    pub closed spec fn text_spec(&self) -> Seq<char> {
        self.text@
    }

    /// The current byte offset.
    pub closed spec fn pos_spec(&self) -> int {
        self.pos as int
    }

    /// The cursor's invariant: the bytes encode the text, the position is in
    /// range and the text is small enough for `u32` spans.
    pub closed spec fn wf(&self) -> bool {
        &&& self.bytes@ == encode_utf8(self.text@)
        &&& self.pos <= self.bytes@.len()
        &&& self.bytes@.len() <= usize::MAX
    }

    /// The same cursor moved to `pos`.
    pub proof fn lemma_wf_facts(&self)
        requires
            self.wf(),
        ensures
            self.bytes_spec() == encode_utf8(self.text_spec()),
            valid_utf8(self.bytes_spec()),
            0 <= self.pos_spec() <= self.bytes_spec().len(),
            self.bytes_spec().len() <= usize::MAX,
    {
        encode_utf8_valid_utf8(self.text@);
    }

    /// Creates a cursor at the start of `text`, skipping a leading BOM.
    pub fn new(text: &'a str) -> (c: Cursor<'a>)
        ensures
            c.wf(),
            c.text_spec() == strip_bom_spec(text@),
            c.pos_spec() == 0,
    {
        let trimmed = strip_bom(text);
        let bytes = trimmed.as_bytes();
        let _n = bytes.len();
        Cursor { text: trimmed, bytes, pos: 0 }
    }

    /// Creates a cursor at the start of `text`, taking every character as
    /// content (the caller has already dealt with a BOM).
    pub(crate) fn over(text: &'a str) -> (c: Cursor<'a>)
        ensures
            c.wf(),
            c.text_spec() == text@,
            c.pos_spec() == 0,
    {
        let bytes = text.as_bytes();
        let _n = bytes.len();
        Cursor { text, bytes, pos: 0 }
    }

    /// The whole (BOM-stripped) source text.
    pub fn text(&self) -> (t: &'a str)
        ensures
            t@ == self.text_spec(),
    {
        self.text
    }

    /// Current byte offset.
    pub fn pos(&self) -> (p: usize)
        ensures
            p as int == self.pos_spec(),
    {
        self.pos
    }

    /// Whether the cursor is past the last byte.
    pub fn is_eof(&self) -> (b: bool)
        ensures
            b == (self.pos_spec() >= self.bytes_spec().len()),
    {
        self.pos >= self.bytes.len()
    }

    /// The remaining source, starting at the current offset; empty when the
    /// offset is not on a character boundary.
    pub fn rest(&self) -> (r: &'a str)
        requires
            self.wf(),
        ensures
            boundary(self.bytes_spec(), self.pos_spec()) ==>
                r@ == decode_utf8(self.bytes_spec().subrange(self.pos_spec(), self.bytes_spec().len() as int)),
            !boundary(self.bytes_spec(), self.pos_spec()) ==> r@.len() == 0,
    {
        proof {
            self.lemma_wf_facts();
            lemma_boundary_iff(self.bytes@, self.pos as int);
        }
        if self.text.is_char_boundary(self.pos) {
            let (_, tail) = self.text.split_at(self.pos);
            proof {
                let b = self.bytes@;
                let sub = b.subrange(self.pos as int, b.len() as int);
                assert(tail.spec_bytes() =~= sub);
                encode_utf8_decode_utf8(tail@);
            }
            tail
        } else {
            proof { reveal_strlit(""); }
            ""
        }
    }

    /// All the bytes being scanned.
    pub fn whole(&self) -> (r: &'a [u8])
        ensures
            r@ == self.bytes_spec(),
    {
        self.bytes
    }

    /// The source between two character boundaries `a <= b`.
    pub fn slice(&self, a: usize, b: usize) -> (r: &'a str)
        requires
            self.wf(),
            a <= b <= self.bytes_spec().len(),
            boundary(self.bytes_spec(), a as int),
            boundary(self.bytes_spec(), b as int),
        ensures
            r@ == decode_utf8(self.bytes_spec().subrange(a as int, b as int)),
    {
        proof {
            self.lemma_wf_facts();
            lemma_boundary_iff(self.bytes@, a as int);
        }
        let (_, tail) = self.text.split_at(a);
        let ghost whole = self.bytes@;
        let ghost tb = whole.subrange(a as int, whole.len() as int);
        proof {
            assert(tail.spec_bytes() =~= tb);
            valid_utf8_split(whole, a as int);
            if (b as int) < whole.len() {
                assert(tb[b - a] == whole[b as int]);
            }
            lemma_boundary_iff(tb, (b - a) as int);
        }
        let (mid, _) = tail.split_at(b - a);
        proof {
            assert(mid.spec_bytes() =~= whole.subrange(a as int, b as int));
            encode_utf8_decode_utf8(mid@);
        }
        mid
    }

    /// Moves the cursor back (or forward) to `pos`, clamped to the end.
    pub fn rewind_to(&mut self, pos: usize)
        requires
            old(self).wf(),
        ensures
            final(self).wf(),
            final(self).bytes_spec() == old(self).bytes_spec(),
            final(self).text_spec() == old(self).text_spec(),
            final(self).pos_spec() == if (pos as int) <= old(self).bytes_spec().len() {
                pos as int
            } else {
                old(self).bytes_spec().len() as int
            },
    {
        self.pos = if pos < self.bytes.len() { pos } else { self.bytes.len() };
    }

    /// The remaining bytes, starting at the current offset.
    pub fn rest_bytes(&self) -> (r: &'a [u8])
        requires
            self.wf(),
        ensures
            r@ == self.bytes_spec().subrange(self.pos_spec(), self.bytes_spec().len() as int),
    {
        vstd::slice::slice_subrange(self.bytes, self.pos, self.bytes.len())
    }

    /// The byte at `pos + offset`, if any.
    pub fn peek_byte(&self, offset: usize) -> (b: Option<u8>)
        requires
            self.wf(),
        ensures
            b == byte_at(self.bytes_spec(), self.pos_spec() + offset),
    {
        proof { self.lemma_wf_facts(); }
        match self.pos.checked_add(offset) {
            Some(i) => {
                if i < self.bytes.len() {
                    Some(self.bytes[i])
                } else {
                    None
                }
            },
            None => None,
        }
    }

    /// The byte at the current offset, if any.
    pub fn peek(&self) -> (b: Option<u8>)
        requires
            self.wf(),
        ensures
            b == byte_at(self.bytes_spec(), self.pos_spec()),
    {
        self.peek_byte(0)
    }

    /// The character at the current offset, if any.
    pub fn peek_char(&self) -> (c: Option<char>)
        requires
            self.wf(),
        ensures
            boundary(self.bytes_spec(), self.pos_spec()) && self.pos_spec() < self.bytes_spec().len()
                ==> c == Some(char_at(self.bytes_spec(), self.pos_spec())),
            !(boundary(self.bytes_spec(), self.pos_spec()) && self.pos_spec() < self.bytes_spec().len())
                ==> c.is_none(),
    {
        let r = self.rest();
        proof {
            self.lemma_wf_facts();
            broadcast use vstd::string::axiom_spec_iter;
            broadcast use vstd::string::next_postcondition;
            if boundary(self.bytes@, self.pos as int) {
                let b = self.bytes@;
                let sub = b.subrange(self.pos as int, b.len() as int);
                lemma_boundary_iff(b, self.pos as int);
                valid_utf8_split(b, self.pos as int);
                decode_utf8_encode_utf8(sub);
                assert(encode_utf8(r@) == sub);
                if sub.len() > 0 {
                    assert(r@.len() > 0);
                } else {
                    assert(r@.len() == 0);
                }
            }
        }
        let mut chars = r.chars();
        chars.next()
    }

    /// Advances by `n` bytes, clamped to the end of input. A landing inside a
    /// character is clamped to the end of input too, so the position stays
    /// on a character boundary.
    pub fn advance(&mut self, n: usize)
        requires
            old(self).wf(),
        ensures
            final(self).wf(),
            final(self).bytes_spec() == old(self).bytes_spec(),
            final(self).text_spec() == old(self).text_spec(),
            ({
                let b = old(self).bytes_spec();
                let p = old(self).pos_spec() + n;
                final(self).pos_spec() == if p <= b.len() && boundary(b, p) { p } else { b.len() as int }
            }),
            ({
                let b = old(self).bytes_spec();
                let p = old(self).pos_spec() + n;
                0 < n && p <= b.len() && b[p - 1] < 0x80 ==> final(self).pos_spec() == p
            }),
    {
        proof { self.lemma_wf_facts(); }
        let p = self.pos.saturating_add(n);
        if p < self.bytes.len() && !(0x80u8 <= self.bytes[p] && self.bytes[p] <= 0xbfu8) {
            self.pos = p;
        } else {
            self.pos = self.bytes.len();
        }
        proof {
            let b = old(self).bytes_spec();
            let q = old(self).pos_spec() + n;
            if 0 < n && q < b.len() && b[q - 1] < 0x80 {
                lemma_ascii_boundaries(b, q - 1);
            }
        }
    }

    /// Steps over one byte, whatever it is, stopping at the end of input.
    /// Comment scanning walks bytes this way: it only stops at ASCII bytes,
    /// so where it stops is a character boundary again.
    pub(crate) fn skip_byte(&mut self)
        requires
            old(self).wf(),
        ensures
            final(self).wf(),
            final(self).bytes_spec() == old(self).bytes_spec(),
            final(self).text_spec() == old(self).text_spec(),
            final(self).pos_spec() == if old(self).pos_spec() < old(self).bytes_spec().len() {
                old(self).pos_spec() + 1
            } else {
                old(self).bytes_spec().len() as int
            },
    {
        if self.pos < self.bytes.len() {
            self.pos = self.pos + 1;
        }
    }

    /// Advances past the current character and returns it.
    pub fn bump_char(&mut self) -> (c: Option<char>)
        requires
            old(self).wf(),
        ensures
            final(self).wf(),
            final(self).bytes_spec() == old(self).bytes_spec(),
            final(self).text_spec() == old(self).text_spec(),
            ({
                let b = old(self).bytes_spec();
                let p = old(self).pos_spec();
                if boundary(b, p) && p < b.len() {
                    &&& c == Some(char_at(b, p))
                    &&& final(self).pos_spec() == p + lead_width(b[p])
                } else {
                    &&& c.is_none()
                    &&& final(self).pos_spec() == p
                }
            }),
    {
        let c = self.peek_char();
        match c {
            Some(ch) => {
                proof {
                    self.lemma_wf_facts();
                    lemma_next_boundary(self.bytes@, self.pos as int);
                }
                let b = self.bytes[self.pos];
                let w: usize = if b < 0x80 {
                    1
                } else if b < 0xE0 {
                    2
                } else if b < 0xF0 {
                    3
                } else {
                    4
                };
                self.pos = self.pos + w;
                Some(ch)
            },
            None => None,
        }
    }
}

} // verus!
