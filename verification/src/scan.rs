//! The mathematical model of tokenization.
//!
//! A command line is split into whitespace-delimited tokens. A `"` byte
//! toggles the scanner between a normal state, where ASCII whitespace ends
//! the token, and a quoted state, where whitespace is ordinary content. A
//! quote standing at the very start of a token is consumed as a pure mode
//! switch and is not part of the token's span; every later quote stays in
//! the span. The first `=` seen while scanning a token, whatever the quote
//! state, marks the name/value separator. Unbalanced quotes are tolerated:
//! the quoted state simply runs to the end of the buffer, and a token in
//! progress when the buffer ends is still emitted.

use vstd::prelude::*;

use crate::EQ_BYTE;
use crate::QUOTE;

verus! {

/// Whether `b` is ASCII whitespace: space, tab, line feed, form feed or
/// carriage return.
pub open spec fn is_ws(b: u8) -> bool {
    b == 32 || b == 9 || b == 10 || b == 12 || b == 13
}

/// The first position at or after `i` holding a non-whitespace byte, or
/// `s.len()` if only whitespace remains.
pub open spec fn skip_ws(s: Seq<u8>, i: int) -> int
    decreases s.len() - i,
{
    if i < 0 || i >= s.len() {
        i
    } else if is_ws(s[i]) {
        skip_ws(s, i + 1)
    } else {
        i
    }
}

/// Where a token that is being scanned at position `i` in quote state
/// `quoted` ends: the first position holding whitespace while the state is
/// normal, or `s.len()` if the buffer runs out first.
pub open spec fn token_end(s: Seq<u8>, i: int, quoted: bool) -> int
    decreases s.len() - i,
{
    if i < 0 || i >= s.len() {
        i
    } else if is_ws(s[i]) && !quoted {
        i
    } else if s[i] == QUOTE {
        token_end(s, i + 1, !quoted)
    } else {
        token_end(s, i + 1, quoted)
    }
}

/// The position of the first `=` byte in `s[i..end]`, or `end` if there is
/// none. Quote state plays no part: quotes are not skipped.
pub open spec fn first_eq(s: Seq<u8>, i: int, end: int) -> int
    decreases end - i,
{
    if i < 0 || i >= end || end > s.len() {
        end
    } else if s[i] == EQ_BYTE {
        i
    } else {
        first_eq(s, i + 1, end)
    }
}

/// Whether the token that starts at or after `i` opens with a quote byte
/// (which is then consumed as a mode switch).
pub open spec fn token_quoted(s: Seq<u8>, i: int) -> bool {
    let k = skip_ws(s, i);
    k < s.len() && s[k] == QUOTE
}

/// Where the span of the token that starts at or after `i` begins: past the
/// leading whitespace, and past the opening quote if there is one.
pub open spec fn token_start(s: Seq<u8>, i: int) -> int {
    if token_quoted(s, i) {
        skip_ws(s, i) + 1
    } else {
        skip_ws(s, i)
    }
}

/// Where the span of the token that starts at or after `i` ends.
pub open spec fn token_stop(s: Seq<u8>, i: int) -> int {
    token_end(s, token_start(s, i), token_quoted(s, i))
}

/// The spans `(start, end)` of all tokens found at or after position `i`,
/// in scanning order. The cursor steps one byte past each token's end, over
/// the whitespace byte that terminated it.
pub open spec fn token_spans_from(s: Seq<u8>, i: int) -> Seq<(int, int)>
    decreases s.len() + 1 - i,
    via token_spans_from_decreases
{
    if i < 0 || skip_ws(s, i) >= s.len() {
        Seq::empty()
    } else {
        seq![(token_start(s, i), token_stop(s, i))] + token_spans_from(s, token_stop(s, i) + 1)
    }
}

#[via_fn]
proof fn token_spans_from_decreases(s: Seq<u8>, i: int) {
    if !(i < 0 || skip_ws(s, i) >= s.len()) {
        lemma_skip_ws_bounds(s, i);
        lemma_token_end_bounds(s, token_start(s, i), token_quoted(s, i));
    }
}

/// The spans of all tokens of the buffer `s`.
pub open spec fn token_spans(s: Seq<u8>) -> Seq<(int, int)> {
    token_spans_from(s, 0)
}

/// The contents of all tokens of the buffer `s`, in order.
pub open spec fn tokens_of(s: Seq<u8>) -> Seq<Seq<u8>> {
    Seq::new(token_spans(s).len(), |j: int| s.subrange(token_spans(s)[j].0, token_spans(s)[j].1))
}

/// What remains to scan once the token ending at `end` has been consumed:
/// everything past the terminating whitespace byte, or nothing when the
/// token ran to the end of the buffer.
pub open spec fn suffix_after(s: Seq<u8>, end: int) -> Seq<u8> {
    if end < s.len() {
        s.subrange(end + 1, s.len() as int)
    } else {
        Seq::empty()
    }
}

pub proof fn lemma_skip_ws_bounds(s: Seq<u8>, i: int)
    requires
        0 <= i <= s.len(),
    ensures
        i <= skip_ws(s, i) <= s.len(),
        skip_ws(s, i) < s.len() ==> !is_ws(s[skip_ws(s, i)]),
        forall|j: int| i <= j < skip_ws(s, i) ==> is_ws(s[j]),
    decreases s.len() - i,
{
    if i < s.len() && is_ws(s[i]) {
        lemma_skip_ws_bounds(s, i + 1);
    }
}

pub proof fn lemma_token_end_bounds(s: Seq<u8>, i: int, quoted: bool)
    requires
        0 <= i <= s.len(),
    ensures
        i <= token_end(s, i, quoted) <= s.len(),
        token_end(s, i, quoted) < s.len() ==> is_ws(s[token_end(s, i, quoted)]),
    decreases s.len() - i,
{
    if i < s.len() && !(is_ws(s[i]) && !quoted) {
        if s[i] == QUOTE {
            lemma_token_end_bounds(s, i + 1, !quoted);
        } else {
            lemma_token_end_bounds(s, i + 1, quoted);
        }
    }
}

pub proof fn lemma_first_eq_bounds(s: Seq<u8>, i: int, end: int)
    requires
        0 <= i <= end <= s.len(),
    ensures
        i <= first_eq(s, i, end) <= end,
        first_eq(s, i, end) < end ==> s[first_eq(s, i, end)] == EQ_BYTE,
        forall|j: int| i <= j < first_eq(s, i, end) ==> s[j] != EQ_BYTE,
    decreases end - i,
{
    if i < end && s[i] != EQ_BYTE {
        lemma_first_eq_bounds(s, i + 1, end);
    }
}

/// `first_eq` is pinned down by its characterization: a position `e` in
/// `[i, end]` that holds an `=` (unless it is `end` itself), with no `=`
/// before it, is the position `first_eq` returns.
pub proof fn lemma_first_eq_position(s: Seq<u8>, i: int, end: int, e: int)
    requires
        0 <= i <= e <= end <= s.len(),
        e < end ==> s[e] == EQ_BYTE,
        forall|j: int| i <= j < e ==> s[j] != EQ_BYTE,
    ensures
        first_eq(s, i, end) == e,
{
    lemma_first_eq_bounds(s, i, end);
    let fe = first_eq(s, i, end);
    if fe < e {
        assert(s[fe] == EQ_BYTE);
        assert(false);
    }
    if e < fe {
        assert(s[e] != EQ_BYTE);
        assert(false);
    }
}

/// Within a quote-free buffer a token scanned in the normal state never
/// contains whitespace: the first whitespace byte ends it.
pub proof fn lemma_token_end_no_ws(s: Seq<u8>, i: int)
    requires
        0 <= i <= s.len(),
        forall|j: int| 0 <= j < s.len() ==> s[j] != QUOTE,
    ensures
        forall|m: int| i <= m < token_end(s, i, false) ==> !is_ws(s[m]),
    decreases s.len() - i,
{
    if i < s.len() && !is_ws(s[i]) {
        lemma_token_end_no_ws(s, i + 1);
    }
}

/// Spans of tokens found at or after `i` lie within `[i, s.len()]`, come in
/// strictly increasing order with at least one byte between consecutive
/// spans, and each span that does not run to the end of the buffer is
/// terminated by a whitespace byte that belongs to no span.
pub proof fn lemma_token_spans_props(s: Seq<u8>, i: int)
    requires
        0 <= i <= s.len(),
    ensures
        forall|j: int|
            0 <= j < token_spans_from(s, i).len() ==> i <= (#[trigger] token_spans_from(s, i)[j]).0
                <= token_spans_from(s, i)[j].1 <= s.len(),
        forall|j: int|
            0 <= j < token_spans_from(s, i).len() - 1 ==> (#[trigger] token_spans_from(s, i)[j]).1
                < token_spans_from(s, i)[j + 1].0,
        forall|j: int|
            0 <= j < token_spans_from(s, i).len() && (#[trigger] token_spans_from(s, i)[j]).1
                < s.len() ==> is_ws(s[token_spans_from(s, i)[j].1]),
    decreases s.len() + 1 - i,
{
    lemma_skip_ws_bounds(s, i);
    let k = skip_ws(s, i);
    if k < s.len() {
        let start = token_start(s, i);
        let quoted = token_quoted(s, i);
        let end = token_stop(s, i);
        lemma_token_end_bounds(s, start, quoted);
        let spans = token_spans_from(s, i);
        let tail = token_spans_from(s, end + 1);
        assert(spans == seq![(start, end)] + tail);
        if end < s.len() {
            lemma_token_spans_props(s, end + 1);
            assert forall|j: int| 0 <= j < spans.len() implies i <= (#[trigger] spans[j]).0
                <= spans[j].1 <= s.len() by {
                if j > 0 {
                    assert(spans[j] == tail[j - 1]);
                }
            }
            assert forall|j: int| 0 <= j < spans.len() - 1 implies (#[trigger] spans[j]).1
                < spans[j + 1].0 by {
                if j == 0 {
                    if tail.len() > 0 {
                        assert(spans[1] == tail[0]);
                        assert(end + 1 <= tail[0].0);
                    }
                } else {
                    assert(spans[j] == tail[j - 1]);
                    assert(spans[j + 1] == tail[j]);
                }
            }
            assert forall|j: int|
                0 <= j < spans.len() && (#[trigger] spans[j]).1 < s.len() implies is_ws(
                s[spans[j].1],
            ) by {
                if j > 0 {
                    assert(spans[j] == tail[j - 1]);
                }
            }
        } else {
            assert(skip_ws(s, end + 1) == end + 1);
            assert(tail =~= Seq::<(int, int)>::empty());
            assert(spans =~= seq![(start, end)]);
        }
    }
}

/// In a quote-free buffer no token contains whitespace.
pub proof fn lemma_token_spans_quote_free(s: Seq<u8>, i: int)
    requires
        0 <= i <= s.len(),
        forall|j: int| 0 <= j < s.len() ==> s[j] != QUOTE,
    ensures
        forall|j: int, m: int|
            #![trigger token_spans_from(s, i)[j], s[m]]
            0 <= j < token_spans_from(s, i).len() && token_spans_from(s, i)[j].0 <= m
                < token_spans_from(s, i)[j].1 ==> !is_ws(s[m]),
    decreases s.len() + 1 - i,
{
    lemma_skip_ws_bounds(s, i);
    let k = skip_ws(s, i);
    if k < s.len() {
        let start = token_start(s, i);
        let end = token_stop(s, i);
        assert(!token_quoted(s, i));
        assert(start == k);
        lemma_token_end_bounds(s, start, false);
        lemma_token_end_no_ws(s, start);
        let spans = token_spans_from(s, i);
        let tail = token_spans_from(s, end + 1);
        assert(spans == seq![(start, end)] + tail);
        if end < s.len() {
            lemma_token_spans_quote_free(s, end + 1);
            assert forall|j: int, m: int|
                #![trigger spans[j], s[m]]
                0 <= j < spans.len() && spans[j].0 <= m < spans[j].1 implies !is_ws(s[m]) by {
                if j > 0 {
                    assert(spans[j] == tail[j - 1]);
                }
            }
        } else {
            assert(skip_ws(s, end + 1) == end + 1);
            assert(tail =~= Seq::<(int, int)>::empty());
            assert(spans =~= seq![(start, end)]);
        }
    }
}

pub proof fn lemma_skip_ws_shift(s: Seq<u8>, m: int, i: int)
    requires
        0 <= m <= i <= s.len(),
    ensures
        skip_ws(s.subrange(m, s.len() as int), i - m) == skip_ws(s, i) - m,
    decreases s.len() - i,
{
    let t = s.subrange(m, s.len() as int);
    if i < s.len() {
        assert(t[i - m] == s[i]);
        if is_ws(s[i]) {
            lemma_skip_ws_shift(s, m, i + 1);
        }
    }
}

pub proof fn lemma_token_end_shift(s: Seq<u8>, m: int, i: int, quoted: bool)
    requires
        0 <= m <= i <= s.len(),
    ensures
        token_end(s.subrange(m, s.len() as int), i - m, quoted) == token_end(s, i, quoted) - m,
    decreases s.len() - i,
{
    let t = s.subrange(m, s.len() as int);
    if i < s.len() {
        assert(t[i - m] == s[i]);
        if !(is_ws(s[i]) && !quoted) {
            if s[i] == QUOTE {
                lemma_token_end_shift(s, m, i + 1, !quoted);
            } else {
                lemma_token_end_shift(s, m, i + 1, quoted);
            }
        }
    }
}

/// Scanning a suffix of the buffer finds the same tokens, with every span
/// shifted back by the offset of the suffix.
pub proof fn lemma_token_spans_shift(s: Seq<u8>, m: int, i: int)
    requires
        0 <= m <= i <= s.len(),
    ensures
        token_spans_from(s.subrange(m, s.len() as int), i - m).len() == token_spans_from(
            s,
            i,
        ).len(),
        forall|j: int|
            0 <= j < token_spans_from(s, i).len() ==> (#[trigger] token_spans_from(
                s.subrange(m, s.len() as int),
                i - m,
            )[j]).0 == token_spans_from(s, i)[j].0 - m && token_spans_from(
                s.subrange(m, s.len() as int),
                i - m,
            )[j].1 == token_spans_from(s, i)[j].1 - m,
    decreases s.len() + 1 - i,
{
    let t = s.subrange(m, s.len() as int);
    lemma_skip_ws_bounds(s, i);
    lemma_skip_ws_shift(s, m, i);
    let k = skip_ws(s, i);
    if k >= s.len() {
        assert(skip_ws(t, i - m) >= t.len());
        assert(token_spans_from(t, i - m) =~= Seq::<(int, int)>::empty());
    } else {
        assert(t[k - m] == s[k]);
        assert(token_quoted(t, i - m) == token_quoted(s, i));
        assert(token_start(t, i - m) == token_start(s, i) - m);
        let start = token_start(s, i);
        let quoted = token_quoted(s, i);
        let end = token_stop(s, i);
        lemma_token_end_bounds(s, start, quoted);
        lemma_token_end_shift(s, m, start, quoted);
        assert(token_stop(t, i - m) == end - m);
        let spans = token_spans_from(s, i);
        let tail = token_spans_from(s, end + 1);
        let tspans = token_spans_from(t, i - m);
        let ttail = token_spans_from(t, end + 1 - m);
        assert(spans == seq![(start, end)] + tail);
        assert(tspans == seq![(start - m, end - m)] + ttail);
        if end < s.len() {
            lemma_token_spans_shift(s, m, end + 1);
            assert forall|j: int|
                0 <= j < spans.len() implies (#[trigger] tspans[j]).0 == spans[j].0 - m
                && tspans[j].1 == spans[j].1 - m by {
                if j > 0 {
                    assert(spans[j] == tail[j - 1]);
                    assert(tspans[j] == ttail[j - 1]);
                }
            }
        } else {
            assert(skip_ws(s, end + 1) == end + 1);
            assert(tail =~= Seq::<(int, int)>::empty());
            assert(skip_ws(t, end + 1 - m) == end + 1 - m);
            assert(ttail =~= Seq::<(int, int)>::empty());
        }
    }
}

/// One step of tokenization: a buffer of pure whitespace has no tokens; any
/// other buffer's token sequence is its first token followed by the tokens
/// of what remains past that token's terminator.
pub proof fn lemma_tokens_of_step(s: Seq<u8>)
    ensures
        skip_ws(s, 0) >= s.len() ==> tokens_of(s) == Seq::<Seq<u8>>::empty(),
        skip_ws(s, 0) < s.len() ==> tokens_of(s) == seq![
            s.subrange(token_start(s, 0), token_stop(s, 0)),
        ] + tokens_of(suffix_after(s, token_stop(s, 0))),
{
    lemma_skip_ws_bounds(s, 0);
    let k = skip_ws(s, 0);
    if k >= s.len() {
        assert(token_spans(s) =~= Seq::<(int, int)>::empty());
        assert(tokens_of(s) =~= Seq::<Seq<u8>>::empty());
    } else {
        let start = token_start(s, 0);
        let quoted = token_quoted(s, 0);
        let end = token_stop(s, 0);
        lemma_token_end_bounds(s, start, quoted);
        let spans = token_spans(s);
        let tail = token_spans_from(s, end + 1);
        assert(spans == seq![(start, end)] + tail);
        lemma_token_spans_props(s, 0);
        let rest = suffix_after(s, end);
        if end < s.len() {
            lemma_token_spans_shift(s, end + 1, end + 1);
            lemma_token_spans_props(s, end + 1);
            assert(rest == s.subrange(end + 1, s.len() as int));
            assert(token_spans(rest).len() == tail.len());
            assert forall|j: int| 0 <= j < tokens_of(s).len() implies tokens_of(s)[j] == (seq![
                s.subrange(start, end),
            ] + tokens_of(rest))[j] by {
                if j > 0 {
                    assert(spans[j] == tail[j - 1]);
                    assert(token_spans(rest)[j - 1].0 == tail[j - 1].0 - (end + 1));
                    assert(token_spans(rest)[j - 1].1 == tail[j - 1].1 - (end + 1));
                    assert(span_in_bounds(s, tail[j - 1]));
                    assert(rest.subrange(
                        tail[j - 1].0 - (end + 1),
                        tail[j - 1].1 - (end + 1),
                    ) =~= s.subrange(tail[j - 1].0, tail[j - 1].1));
                }
            }
            assert(tokens_of(s) =~= seq![s.subrange(start, end)] + tokens_of(rest));
        } else {
            assert(skip_ws(s, end + 1) == end + 1);
            assert(tail =~= Seq::<(int, int)>::empty());
            assert(rest =~= Seq::<u8>::empty());
            assert(skip_ws(rest, 0) == 0);
            assert(token_spans(rest) =~= Seq::<(int, int)>::empty());
            assert(tokens_of(rest) =~= Seq::<Seq<u8>>::empty());
            assert(tokens_of(s) =~= seq![s.subrange(start, end)] + tokens_of(rest));
        }
    }
}

/// Whether a span lies within the bounds of `s`. A helper for stating that
/// subranges are well formed.
pub open spec fn span_in_bounds(s: Seq<u8>, span: (int, int)) -> bool {
    0 <= span.0 <= span.1 <= s.len()
}

/// Law: re-concatenating the tokens of a buffer, with a single space
/// between consecutive tokens, preserves token content and order and never
/// reproduces the buffer's inter-token whitespace. Each token is a
/// contiguous span of the buffer; the spans come in strictly increasing
/// order, separated by at least one byte; the byte that terminated each
/// non-final token is whitespace and belongs to no token; and in a
/// quote-free buffer no token contains whitespace at all, so the only
/// whitespace of the rebuilt line is the single separating spaces.
pub proof fn lemma_tokens_preserve_order(s: Seq<u8>)
    ensures
        tokens_of(s).len() == token_spans(s).len(),
        forall|j: int| 0 <= j < token_spans(s).len() ==> span_in_bounds(s, #[trigger] token_spans(s)[j]),
        forall|j: int|
            0 <= j < token_spans(s).len() ==> #[trigger] tokens_of(s)[j] == s.subrange(
                token_spans(s)[j].0,
                token_spans(s)[j].1,
            ),
        forall|j: int|
            0 <= j < token_spans(s).len() - 1 ==> (#[trigger] token_spans(s)[j]).1 < token_spans(
                s,
            )[j + 1].0,
        forall|j: int|
            0 <= j < token_spans(s).len() && (#[trigger] token_spans(s)[j]).1 < s.len() ==> is_ws(
                s[token_spans(s)[j].1],
            ),
        (forall|i: int| 0 <= i < s.len() ==> s[i] != QUOTE) ==> (forall|j: int, m: int|
            #![trigger token_spans(s)[j], s[m]]
            0 <= j < token_spans(s).len() && token_spans(s)[j].0 <= m < token_spans(s)[j].1
                ==> !is_ws(s[m])),
{
    lemma_token_spans_props(s, 0);
    if forall|i: int| 0 <= i < s.len() ==> s[i] != QUOTE {
        lemma_token_spans_quote_free(s, 0);
    }
}

} // verus!
