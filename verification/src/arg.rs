//! One argument of the command line.
//!
//! An argument is a raw byte span (quote bytes intact, except for an
//! opening quote the tokenizer already consumed) together with the offset
//! of the first `=` byte in that span, or the span's length when there is
//! none. Name and value are read out of the span on demand, with quotes
//! stripped; names compare under dash/underscore normalization.

use vstd::prelude::*;

use crate::matching::norm_eq;
use crate::matching::norm_slices_eq;
use crate::quoting::strip_quotes;
use crate::quoting::strip_quotes_seq;
use crate::quoting::Stripped;
use crate::scan::first_eq;
use crate::EQ_BYTE;

verus! {

/// An argument on the command line: a raw span and the offset of its
/// name/value separator.
pub struct Arg<'a> {
    data: &'a [u8],
    eq_offs: usize,
}

impl<'a> Arg<'a> {
    /// The raw bytes of the argument's span.
    pub closed spec fn raw(&self) -> Seq<u8> {
        self.data@
    }

    /// The separator offset: either `raw().len()` (no value) or the
    /// position of the `=` byte splitting name from value.
    pub closed spec fn eq_at(&self) -> int {
        self.eq_offs as int
    }

    /// The structural invariant: the separator offset points at an `=`
    /// byte of the raw span, or equals the span's length.
    pub open spec fn wf(&self) -> bool {
        &&& 0 <= self.eq_at() <= self.raw().len()
        &&& self.eq_at() == self.raw().len() || self.raw()[self.eq_at()] == EQ_BYTE
    }

    /// The argument's name: the bytes before the separator, quotes
    /// stripped.
    pub open spec fn name_seq(&self) -> Seq<u8> {
        strip_quotes_seq(self.raw().subrange(0, self.eq_at()))
    }

    /// Whether the argument carries a value, that is, whether its span
    /// holds an `=` byte.
    pub open spec fn has_value(&self) -> bool {
        self.eq_at() < self.raw().len()
    }

    /// The argument's value: the bytes past the separator, quotes
    /// stripped.
    pub open spec fn value_seq(&self) -> Seq<u8> {
        strip_quotes_seq(self.raw().subrange(self.eq_at() + 1, self.raw().len() as int))
    }

    /// Build an argument from its raw span and an already-located
    /// separator offset. The offset must point at an `=` byte of the span
    /// or equal the span's length; anything else is a caller bug.
    pub fn with_eq_offs(data: &'a [u8], eq_offs: usize) -> (r: Self)
        requires
            eq_offs <= data@.len(),
            eq_offs == data@.len() || data@[eq_offs as int] == EQ_BYTE,
        ensures
            r.raw() == data@,
            r.eq_at() == eq_offs,
            r.wf(),
    {
        Self { data, eq_offs }
    }

    /// Build an argument from its raw span alone, locating the separator
    /// as the first literal `=` byte of the span. Quotes are not skipped,
    /// which is exactly how the tokenizer locates separators, so both
    /// constructions agree.
    pub fn from_bytes(data: &'a [u8]) -> (r: Self)
        ensures
            r.raw() == data@,
            r.eq_at() == first_eq(data@, 0, data@.len() as int),
            r.wf(),
    {
        let eq_offs = match find_eq(data) {
            Some(i) => i,
            None => data.len(),
        };
        proof {
            crate::scan::lemma_first_eq_position(
                data@,
                0,
                data@.len() as int,
                eq_offs as int,
            );
        }
        Self::with_eq_offs(data, eq_offs)
    }

    /// Whether `param` names this argument, under the kernel's matching
    /// rules: the quote-stripped name and `param` must have the same
    /// length and agree byte for byte with `-` and `_` interchangeable.
    pub fn param_matches(&self, param: &[u8]) -> (r: bool)
        requires
            self.wf(),
        ensures
            r == norm_eq(self.name_seq(), param@),
    {
        let name = self.param();
        norm_slices_eq(name.as_slice(), param)
    }

    /// The argument's name, quotes stripped. Borrows the span when it held
    /// no quote byte.
    pub fn param(&self) -> (r: Stripped<'a>)
        requires
            self.wf(),
        ensures
            r@ == self.name_seq(),
    {
        strip_quotes(vstd::slice::slice_subrange(self.data, 0, self.eq_offs))
    }

    /// The argument's value, quotes stripped, or `None` when the span
    /// holds no separator. Borrows the span's tail when it held no quote
    /// byte.
    pub fn value(&self) -> (r: Option<Stripped<'a>>)
        requires
            self.wf(),
        ensures
            match r {
                None => !self.has_value(),
                Some(v) => self.has_value() && v@ == self.value_seq(),
            },
    {
        if self.eq_offs == self.data.len() {
            None
        } else {
            Some(
                strip_quotes(
                    vstd::slice::slice_subrange(self.data, self.eq_offs + 1, self.data.len()),
                ),
            )
        }
    }
}

/// Relies on `memchr::memchr`: the index of the first occurrence of the
/// needle byte in the haystack, or `None` when the haystack does not hold
/// the needle. Used to locate the `=` separator in a raw span.
#[verifier::external_body]
fn find_eq(data: &[u8]) -> (r: Option<usize>)
    ensures
        match r {
            Some(i) => i < data@.len() && data@[i as int] == EQ_BYTE && forall|j: int|
                0 <= j < i ==> data@[j] != EQ_BYTE,
            None => forall|j: int| 0 <= j < data@.len() ==> data@[j] != EQ_BYTE,
        },
{
    memchr::memchr(b'=', data)
}

} // verus!
