//! The command-line view and its argument iterator.
//!
//! `CmdLine` borrows the raw buffer and never copies it. `iter` starts a
//! fresh scan from the beginning of the buffer; the iterator's only state
//! is the suffix that remains to scan, and once that suffix is empty the
//! iterator is terminally exhausted.

use vstd::prelude::*;
use vstd::string::StringSliceAdditionalSpecFns;

use crate::arg::Arg;
use crate::scan::first_eq;
use crate::scan::is_ws;
use crate::scan::lemma_first_eq_bounds;
use crate::scan::lemma_first_eq_position;
use crate::scan::lemma_skip_ws_bounds;
use crate::scan::lemma_token_end_bounds;
use crate::scan::lemma_tokens_of_step;
use crate::scan::skip_ws;
use crate::scan::suffix_after;
use crate::scan::token_end;
use crate::scan::token_start;
use crate::scan::token_stop;
use crate::scan::tokens_of;
use crate::EQ_BYTE;
use crate::QUOTE;

verus! {

/// A borrowed view over a command-line byte buffer.
#[derive(Debug, Clone, PartialEq, Eq)]
pub struct CmdLine<'a> {
    data: &'a [u8],
}

impl<'a> CmdLine<'a> {
    /// The bytes of the command line.
    pub closed spec fn raw(&self) -> Seq<u8> {
        self.data@
    }

    /// Create the command line from a string, viewed as its bytes.
    pub fn from_str(data: &'a str) -> (r: Self)
        ensures
            r.raw() == data.spec_bytes(),
    {
        Self { data: data.as_bytes() }
    }

    /// Create the command line from a byte buffer.
    pub fn from_bytes(data: &'a [u8]) -> (r: Self)
        ensures
            r.raw() == data@,
    {
        Self { data }
    }

    /// Iterate over the arguments of the command line, scanning from the
    /// beginning of the buffer.
    pub fn iter(&self) -> (r: CmdLineIter<'a>)
        ensures
            r.remaining() == self.raw(),
    {
        CmdLineIter { remain: self.data }
    }
}

/// A forward-only scan over the arguments of a command line. Its only
/// state is the suffix of the buffer that remains to scan.
#[derive(Debug, Clone, PartialEq, Eq)]
pub struct CmdLineIter<'a> {
    remain: &'a [u8],
}

impl<'a> CmdLineIter<'a> {
    /// The suffix of the buffer that remains to scan.
    pub closed spec fn remaining(&self) -> Seq<u8> {
        self.remain@
    }

    /// Produce the next argument, or `None` once only whitespace remains,
    /// after which the iterator stays exhausted.
    ///
    /// The emitted argument's span runs from past the leading whitespace
    /// (and past an opening quote, which is consumed as a mode switch) to
    /// the first whitespace byte met outside quotes, or to the end of the
    /// buffer: a final token that no whitespace terminates is still
    /// emitted. Its separator offset is the first `=` in the span. The
    /// cursor moves one byte past the token's end, and altogether the
    /// emitted arguments walk through `tokens_of` the remaining buffer.
    pub fn next(&mut self) -> (r: Option<Arg<'a>>)
        ensures
            ({
                let s = old(self).remaining();
                if skip_ws(s, 0) >= s.len() {
                    &&& r is None
                    &&& final(self).remaining() == Seq::<u8>::empty()
                    &&& tokens_of(s) == Seq::<Seq<u8>>::empty()
                } else {
                    let start = token_start(s, 0);
                    let end = token_stop(s, 0);
                    &&& (r matches Some(a) && a.wf() && a.raw() == s.subrange(start, end)
                        && a.eq_at() == first_eq(s, start, end) - start)
                    &&& final(self).remaining() == suffix_after(s, end)
                    &&& (r matches Some(a) ==> tokens_of(s) == seq![a.raw()] + tokens_of(
                        final(self).remaining(),
                    ))
                }
            }),
    {
        let ghost s = self.remain@;
        let rem = self.remain;
        let n = rem.len();

        // Skip the whitespace before the next token.
        let k = ws_prefix(rem);
        if k == n {
            self.remain = vstd::slice::slice_subrange(rem, n, n);
            proof {
                assert(self.remain@ =~= Seq::<u8>::empty());
                lemma_tokens_of_step(s);
            }
            return None;
        }

        // An opening quote is consumed here: it switches the scan into the
        // quoted state but is not part of the token's span.
        let c0 = *vstd::slice::slice_index_get(rem, k);
        let (start, quoted0) = if c0 == QUOTE {
            (k + 1, true)
        } else {
            (k, false)
        };
        proof {
            lemma_skip_ws_bounds(s, 0);
            assert(start as int == token_start(s, 0));
        }

        let (end, eq_abs) = scan_token(rem, start, quoted0);
        let span = vstd::slice::slice_subrange(rem, start, end);
        let eq_rel = eq_abs - start;
        proof {
            lemma_token_end_bounds(s, start as int, quoted0);
            lemma_first_eq_bounds(s, start as int, end as int);
            if (eq_abs as int) < end as int {
                assert(span@[eq_rel as int] == s[eq_abs as int]);
            }
        }
        let a = Arg::with_eq_offs(span, eq_rel);

        // Step one byte past the terminating whitespace; a token that ran
        // to the end of the buffer leaves nothing to scan.
        if end == n {
            self.remain = vstd::slice::slice_subrange(rem, n, n);
        } else {
            self.remain = vstd::slice::slice_subrange(rem, end + 1, n);
        }
        proof {
            assert(end as int == token_stop(s, 0));
            if end == n {
                assert(self.remain@ =~= suffix_after(s, end as int));
            }
            lemma_tokens_of_step(s);
        }
        Some(a)
    }
}

/// Exec counterpart of [`is_ws`].
fn is_ws_byte(b: u8) -> (r: bool)
    ensures
        r == is_ws(b),
{
    b == 32 || b == 9 || b == 10 || b == 12 || b == 13
}

/// The length of the whitespace prefix of `rem`.
fn ws_prefix(rem: &[u8]) -> (k: usize)
    ensures
        k as int == skip_ws(rem@, 0),
        0 <= k <= rem@.len(),
{
    let n = rem.len();
    let mut i: usize = 0;
    while i < n
        invariant
            0 <= i <= n,
            n == rem@.len(),
            skip_ws(rem@, 0) == skip_ws(rem@, i as int),
        decreases n - i,
    {
        let c = *vstd::slice::slice_index_get(rem, i);
        if !is_ws_byte(c) {
            return i;
        }
        i += 1;
    }
    i
}

/// Scan one token of `rem` from `start` in quote state `quoted0`, up to
/// the first whitespace met in the normal state or the end of the buffer.
/// Returns the end of the token's span and the absolute position of the
/// first `=` within the span (the span's end when there is none).
fn scan_token(rem: &[u8], start: usize, quoted0: bool) -> (r: (usize, usize))
    requires
        start <= rem@.len(),
    ensures
        r.0 as int == token_end(rem@, start as int, quoted0),
        r.1 as int == first_eq(rem@, start as int, r.0 as int),
        start <= r.1 <= r.0 <= rem@.len(),
{
    let ghost s = rem@;
    let n = rem.len();
    let mut j: usize = start;
    let mut quoted = quoted0;
    let mut eq: Option<usize> = None;
    while j < n
        invariant
            n == s.len(),
            rem@ == s,
            start <= j <= n,
            token_end(s, start as int, quoted0) == token_end(s, j as int, quoted),
            match eq {
                None => forall|m: int| start <= m < j ==> s[m] != EQ_BYTE,
                Some(e) => start <= e < j && s[e as int] == EQ_BYTE && forall|m: int|
                    start <= m < e ==> s[m] != EQ_BYTE,
            },
        decreases n - j,
    {
        let c = *vstd::slice::slice_index_get(rem, j);
        if is_ws_byte(c) && !quoted {
            let e = match eq {
                Some(e) => e,
                None => j,
            };
            proof {
                lemma_first_eq_position(s, start as int, j as int, e as int);
            }
            return (j, e);
        }
        if eq.is_none() && c == EQ_BYTE {
            eq = Some(j);
        }
        if c == QUOTE {
            quoted = !quoted;
        }
        j += 1;
    }
    let e = match eq {
        Some(e) => e,
        None => n,
    };
    proof {
        lemma_first_eq_position(s, start as int, n as int, e as int);
    }
    (n, e)
}

} // verus!
