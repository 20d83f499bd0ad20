//! Normalized name comparison.
//!
//! Kernel parameters treat `-` and `_` as the same character: `a-b` and
//! `a_b` name the same parameter. Comparison maps both to one canonical
//! byte and is otherwise exact and case-sensitive, over the full length.

use vstd::prelude::*;

use crate::DASH;
use crate::UNDERSCORE;

verus! {

/// The canonical form of one byte: `-` maps to `_`, every other byte maps
/// to itself.
pub open spec fn norm_byte_spec(b: u8) -> u8 {
    if b == DASH {
        UNDERSCORE
    } else {
        b
    }
}

/// Whether `a` and `b` have the same length and agree byte for byte once
/// `-` and `_` are identified.
pub open spec fn norm_eq(a: Seq<u8>, b: Seq<u8>) -> bool {
    &&& a.len() == b.len()
    &&& forall|i: int| 0 <= i < a.len() ==> norm_byte_spec(a[i]) == norm_byte_spec(b[i])
}

/// Exec counterpart of [`norm_byte_spec`].
pub(crate) fn norm_byte(b: u8) -> (r: u8)
    ensures
        r == norm_byte_spec(b),
{
    if b == DASH {
        UNDERSCORE
    } else {
        b
    }
}

/// Compare two byte slices under dash/underscore normalization.
pub fn norm_slices_eq(a: &[u8], b: &[u8]) -> (r: bool)
    ensures
        r == norm_eq(a@, b@),
{
    let n = a.len();
    if n != b.len() {
        return false;
    }
    let mut i: usize = 0;
    while i < n
        invariant
            n == a@.len() && n == b@.len(),
            0 <= i <= n,
            forall|j: int| 0 <= j < i ==> norm_byte_spec(a@[j]) == norm_byte_spec(b@[j]),
        decreases n - i,
    {
        let ca = *vstd::slice::slice_index_get(a, i);
        let cb = *vstd::slice::slice_index_get(b, i);
        if norm_byte(ca) != norm_byte(cb) {
            return false;
        }
        i += 1;
    }
    true
}

/// Law: matching is reflexive under dash/underscore normalization. A
/// candidate that differs from `name` only in that some of its `-` and `_`
/// bytes were swapped for the other character still compares equal; in
/// particular every name matches itself.
pub proof fn lemma_norm_eq_dash_underscore(name: Seq<u8>, cand: Seq<u8>)
    requires
        cand.len() == name.len(),
        forall|i: int|
            0 <= i < name.len() ==> (cand[i] == name[i] || ((name[i] == DASH || name[i]
                == UNDERSCORE) && (cand[i] == DASH || cand[i] == UNDERSCORE))),
    ensures
        norm_eq(name, cand),
        norm_eq(name, name),
{
    assert forall|i: int| 0 <= i < name.len() implies norm_byte_spec(name[i]) == norm_byte_spec(
        cand[i],
    ) by {
        if cand[i] != name[i] {
            assert(norm_byte_spec(name[i]) == UNDERSCORE);
            assert(norm_byte_spec(cand[i]) == UNDERSCORE);
        }
    }
}

/// Law: matching is length-sensitive. Appending any byte to a candidate
/// that matches `name` makes it stop matching.
pub proof fn lemma_norm_eq_length_sensitive(name: Seq<u8>, cand: Seq<u8>, extra: u8)
    requires
        norm_eq(name, cand),
    ensures
        !norm_eq(name, cand.push(extra)),
{
    assert(cand.push(extra).len() == cand.len() + 1);
}

} // verus!
