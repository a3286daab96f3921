//! A totally ordered priority domain with a proved comparison.

use vstd::prelude::*;

verus! {

/// A totally ordered priority domain.
///
/// The heap's proofs need a comparison whose meaning Verus knows, together
/// with totality and transitivity; the standard `Ord` machinery gives no such
/// guarantees for an arbitrary type, so priorities implement this trait
/// instead. Implementations are provided for the primitive integer types.
pub trait Priority: Sized {
    /// What "less than or equal" means in this domain.
    spec fn le_spec(&self, other: &Self) -> bool;

    /// The order relates every pair of values, one way or the other.
    proof fn lemma_total(a: &Self, b: &Self)
        ensures
            a.le_spec(b) || b.le_spec(a),
    ;

    /// The order is transitive.
    proof fn lemma_transitive(a: &Self, b: &Self, c: &Self)
        requires
            a.le_spec(b),
            b.le_spec(c),
        ensures
            a.le_spec(c),
    ;

    /// Decides `le_spec`.
    fn le(&self, other: &Self) -> (r: bool)
        ensures
            r == self.le_spec(other),
    ;
}

impl Priority for usize {
    open spec fn le_spec(&self, other: &Self) -> bool {
        *self <= *other
    }

    proof fn lemma_total(a: &Self, b: &Self) {
    }

    proof fn lemma_transitive(a: &Self, b: &Self, c: &Self) {
    }

    fn le(&self, other: &Self) -> (r: bool) {
        *self <= *other
    }
}

impl Priority for u32 {
    open spec fn le_spec(&self, other: &Self) -> bool {
        *self <= *other
    }

    proof fn lemma_total(a: &Self, b: &Self) {
    }

    proof fn lemma_transitive(a: &Self, b: &Self, c: &Self) {
    }

    fn le(&self, other: &Self) -> (r: bool) {
        *self <= *other
    }
}

impl Priority for u64 {
    open spec fn le_spec(&self, other: &Self) -> bool {
        *self <= *other
    }

    proof fn lemma_total(a: &Self, b: &Self) {
    }

    proof fn lemma_transitive(a: &Self, b: &Self, c: &Self) {
    }

    fn le(&self, other: &Self) -> (r: bool) {
        *self <= *other
    }
}

impl Priority for i32 {
    open spec fn le_spec(&self, other: &Self) -> bool {
        *self <= *other
    }

    proof fn lemma_total(a: &Self, b: &Self) {
    }

    proof fn lemma_transitive(a: &Self, b: &Self, c: &Self) {
    }

    fn le(&self, other: &Self) -> (r: bool) {
        *self <= *other
    }
}

impl Priority for i64 {
    open spec fn le_spec(&self, other: &Self) -> bool {
        *self <= *other
    }

    proof fn lemma_total(a: &Self, b: &Self) {
    }

    proof fn lemma_transitive(a: &Self, b: &Self, c: &Self) {
    }

    fn le(&self, other: &Self) -> (r: bool) {
        *self <= *other
    }
}

impl Priority for u8 {
    open spec fn le_spec(&self, other: &Self) -> bool {
        *self <= *other
    }

    proof fn lemma_total(a: &Self, b: &Self) {
    }

    proof fn lemma_transitive(a: &Self, b: &Self, c: &Self) {
    }

    fn le(&self, other: &Self) -> (r: bool) {
        *self <= *other
    }
}

impl Priority for u16 {
    open spec fn le_spec(&self, other: &Self) -> bool {
        *self <= *other
    }

    proof fn lemma_total(a: &Self, b: &Self) {
    }

    proof fn lemma_transitive(a: &Self, b: &Self, c: &Self) {
    }

    fn le(&self, other: &Self) -> (r: bool) {
        *self <= *other
    }
}

impl Priority for i8 {
    open spec fn le_spec(&self, other: &Self) -> bool {
        *self <= *other
    }

    proof fn lemma_total(a: &Self, b: &Self) {
    }

    proof fn lemma_transitive(a: &Self, b: &Self, c: &Self) {
    }

    fn le(&self, other: &Self) -> (r: bool) {
        *self <= *other
    }
}

impl Priority for i16 {
    open spec fn le_spec(&self, other: &Self) -> bool {
        *self <= *other
    }

    proof fn lemma_total(a: &Self, b: &Self) {
    }

    proof fn lemma_transitive(a: &Self, b: &Self, c: &Self) {
    }

    fn le(&self, other: &Self) -> (r: bool) {
        *self <= *other
    }
}

} // verus!
