//! Byte ranges into source text.
use crate::parser::diagnostic::char_index;
use crate::text::{byte_offset, chars_of, char_width_exec, lemma_byte_offset_step, lemma_byte_len_encode, byte_len};
use vstd::prelude::*;

verus! {

/// A half-open range `start..end` of UTF-8 byte offsets into a source text.
#[derive(Debug, Copy, Clone, PartialEq, Eq, Structural)]
pub struct Span {
    pub start: usize,
    pub end: usize,
}

/// An empty span at `size`.
impl From<usize> for Span {
    fn from(size: usize) -> (r: Span) {
        Span { start: size, end: size }
    }
}

impl vstd::std_specs::convert::FromSpecImpl<usize> for Span {
    open spec fn obeys_from_spec() -> bool {
        true
    }

    open spec fn from_spec(size: usize) -> Span {
        Span { start: size, end: size }
    }
}

/// `b` is the byte offset at which some char of `s` starts, or the end of `s`.
pub open spec fn is_boundary(s: Seq<char>, b: int) -> bool {
    exists|k: int| 0 <= k <= s.len() && byte_offset(s, k) == b
}

impl Span {
    /// Both ends fall on char boundaries of `s`, in order.
    pub open spec fn valid_in(self, s: Seq<char>) -> bool {
        &&& self.start <= self.end
        &&& is_boundary(s, self.start as int)
        &&& is_boundary(s, self.end as int)
    }

    /// The chars of `s` that the span covers.
    pub open spec fn text_in(self, s: Seq<char>) -> Seq<char> {
        s.subrange(char_index(s, self.start as int), char_index(s, self.end as int))
    }

    /// The text of `source` that this span covers.
    ///
    /// Both ends must fall on char boundaries of `source`, as slicing a `str`
    /// demands.
    pub fn in_source<'a>(&self, source: &'a str) -> (r: &'a str)
        requires
            self.start <= self.end,
            is_boundary(source@, self.start as int),
            is_boundary(source@, self.end as int),
        ensures
            exists|i: int, j: int|
                0 <= i <= j <= source@.len() && byte_offset(source@, i) == self.start
                    && byte_offset(source@, j) == self.end && r@ == source@.subrange(i, j),
            r@ == self.text_in(source@),
    {
        let chars = chars_of(source);
        let total = source.as_bytes().len();
        let ghost s = source@;
        let mut k: usize = 0;
        let mut b: usize = 0;
        let mut from: usize = 0;
        let mut found_from = self.start == 0;
        let mut to: usize = 0;
        let mut found_to = self.end == 0;
        proof {
            lemma_byte_len_encode(s);
            assert(s.take(0) =~= Seq::<char>::empty());
        }
        while k < chars.len()
            invariant
                chars@ == s,
                byte_len(s) == total,
                k <= s.len(),
                b == byte_offset(s, k as int),
                found_from ==> from <= k && byte_offset(s, from as int) == self.start,
                !found_from ==> forall|i: int| 0 <= i <= k ==> byte_offset(s, i) != self.start,
                found_to ==> to <= k && byte_offset(s, to as int) == self.end,
                !found_to ==> forall|i: int| 0 <= i <= k ==> byte_offset(s, i) != self.end,
            decreases s.len() - k,
        {
            proof {
                lemma_byte_offset_step(s, k as int);
                crate::text::lemma_byte_offset_mono(s, k as int + 1, s.len() as int);
                assert(s.take(s.len() as int) =~= s);
            }
            b = b + char_width_exec(chars[k]);
            k = k + 1;
            if !found_from && b == self.start {
                from = k;
                found_from = true;
            }
            if !found_to && b == self.end {
                to = k;
                found_to = true;
            }
        }
        assert(found_from && found_to);
        proof {
            if from > to {
                crate::text::lemma_byte_offset_strict(s, to as int, from as int);
            }
            let a = char_index(s, self.start as int);
            let c = char_index(s, self.end as int);
            if a < from {
                crate::text::lemma_byte_offset_strict(s, a, from as int);
            } else if a > from {
                crate::text::lemma_byte_offset_strict(s, from as int, a);
            }
            if c < to {
                crate::text::lemma_byte_offset_strict(s, c, to as int);
            } else if c > to {
                crate::text::lemma_byte_offset_strict(s, to as int, c);
            }
        }
        source.substring_char(from, to)
    }
}

} // verus!
