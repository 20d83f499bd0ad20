//! Removing double-quote bytes from a span.
//!
//! Quoting on the command line has no escape mechanism, so recovering the
//! bytes a quoted span stands for amounts to dropping every `"` byte while
//! keeping all other bytes in order. The common case has no quotes at all,
//! and then no allocation is made: the stripper hands back a borrowed view.

use vstd::prelude::*;

use crate::QUOTE;

verus! {

/// The sequence `s` with every `"` byte removed and all other bytes kept in
/// their original order.
pub open spec fn strip_quotes_seq(s: Seq<u8>) -> Seq<u8>
    decreases s.len(),
{
    if s.len() == 0 {
        Seq::empty()
    } else if s.last() == QUOTE {
        strip_quotes_seq(s.drop_last())
    } else {
        strip_quotes_seq(s.drop_last()).push(s.last())
    }
}

/// Law: stripping quotes from a span that holds no quote byte returns the
/// identical bytes. Together with the fact that a stripped span is
/// quote-free, this makes quote-stripping idempotent.
pub proof fn lemma_strip_quote_free(s: Seq<u8>)
    requires
        forall|i: int| 0 <= i < s.len() ==> s[i] != QUOTE,
    ensures
        strip_quotes_seq(s) == s,
    decreases s.len(),
{
    if s.len() == 0 {
        assert(strip_quotes_seq(s) =~= s);
    } else {
        lemma_strip_quote_free(s.drop_last());
        assert(strip_quotes_seq(s) =~= s);
    }
}

/// A stripped span never holds a quote byte, so stripping twice is the same
/// as stripping once.
pub proof fn lemma_strip_idempotent(s: Seq<u8>)
    ensures
        forall|i: int| 0 <= i < strip_quotes_seq(s).len() ==> strip_quotes_seq(s)[i] != QUOTE,
        strip_quotes_seq(strip_quotes_seq(s)) == strip_quotes_seq(s),
    decreases s.len(),
{
    if s.len() == 0 {
    } else {
        lemma_strip_idempotent(s.drop_last());
    }
    lemma_strip_quote_free(strip_quotes_seq(s));
}

/// A byte span that either borrows the input (when no quote byte had to be
/// removed) or owns a freshly built buffer with the quotes elided.
pub enum Stripped<'a> {
    Borrowed(&'a [u8]),
    Owned(Vec<u8>),
}

impl<'a> View for Stripped<'a> {
    type V = Seq<u8>;

    open spec fn view(&self) -> Seq<u8> {
        match self {
            Stripped::Borrowed(s) => s@,
            Stripped::Owned(v) => v@,
        }
    }
}

impl<'a> Stripped<'a> {
    /// The stripped bytes as a plain slice.
    pub fn as_slice(&self) -> (r: &[u8])
        ensures
            r@ == self@,
    {
        match self {
            Stripped::Borrowed(s) => s,
            Stripped::Owned(v) => v.as_slice(),
        }
    }

    /// Number of stripped bytes.
    pub fn len(&self) -> (r: usize)
        ensures
            r == self@.len(),
    {
        match self {
            Stripped::Borrowed(s) => s.len(),
            Stripped::Owned(v) => v.len(),
        }
    }
}

/// Remove every `"` byte from `data`, keeping all other bytes in order.
/// When `data` holds no quote byte the input is handed back borrowed, with
/// no allocation.
pub fn strip_quotes<'a>(data: &'a [u8]) -> (r: Stripped<'a>)
    ensures
        r@ == strip_quotes_seq(data@),
        (forall|i: int| 0 <= i < data@.len() ==> data@[i] != QUOTE) ==> r is Borrowed,
{
    let n = data.len();
    let mut i: usize = 0;
    while i < n
        invariant
            n == data@.len(),
            0 <= i <= n,
            forall|j: int| 0 <= j < i ==> data@[j] != QUOTE,
        decreases n - i,
    {
        if *vstd::slice::slice_index_get(data, i) == QUOTE {
            return build_stripped(data);
        }
        i += 1;
    }
    proof {
        lemma_strip_quote_free(data@);
    }
    Stripped::Borrowed(data)
}

/// Copy `data` into a fresh buffer, leaving the quote bytes out.
fn build_stripped<'a>(data: &'a [u8]) -> (r: Stripped<'a>)
    ensures
        r@ == strip_quotes_seq(data@),
{
    let n = data.len();
    let mut out: Vec<u8> = Vec::new();
    let mut i: usize = 0;
    while i < n
        invariant
            n == data@.len(),
            0 <= i <= n,
            out@ == strip_quotes_seq(data@.subrange(0, i as int)),
        decreases n - i,
    {
        let c = *vstd::slice::slice_index_get(data, i);
        if c != QUOTE {
            out.push(c);
        }
        proof {
            assert(data@.subrange(0, i + 1).drop_last() =~= data@.subrange(0, i as int));
        }
        i += 1;
    }
    proof {
        assert(data@.subrange(0, n as int) =~= data@);
    }
    Stripped::Owned(out)
}

} // verus!
