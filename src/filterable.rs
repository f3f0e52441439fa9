use vstd::prelude::*;

use crate::coordinate::Coordinate2D;

verus! {

/// Errors of mask-based filtering.
#[derive(Clone, Copy, PartialEq, Eq, Structural, Debug)]
pub enum FilterableError {
    /// The mask does not have one entry per feature.
    MaskDoesNotMatchFeatures,
}

/// Selection of features by a boolean mask or a predicate, copying or in place.
pub trait Filterable: Sized {
    /// Whether the collection is in the well-formed state that filtering needs.
    spec fn filterable(&self) -> bool;

    /// The number of features, and so of mask entries.
    spec fn mask_len(&self) -> nat;

    /// A collection that keeps feature `i` iff `mask[i]` is true.
    fn filter(&self, mask: &[bool]) -> (r: Result<Self, FilterableError>)
        requires
            self.filterable(),
        ensures
            r is Err <==> mask@.len() != self.mask_len(),
            r is Err ==> r == Err::<Self, FilterableError>(FilterableError::MaskDoesNotMatchFeatures),
            r matches Ok(c) ==> c.filterable(),
    ;

    /// A collection that keeps the features on whose coordinates `predicate` holds.
    fn filter_with_predicate<P: Fn(&[Coordinate2D]) -> bool>(&self, predicate: P) -> (r: Self)
        requires
            self.filterable(),
            forall|s: &[Coordinate2D]| predicate.requires((s,)),
        ensures
            r.filterable(),
    ;

    /// Keeps feature `i` iff `mask[i]` is true, compacting this collection.
    fn filter_inplace(&mut self, mask: &[bool]) -> (r: Result<(), FilterableError>)
        requires
            old(self).filterable(),
        ensures
            final(self).filterable(),
            r is Err <==> mask@.len() != old(self).mask_len(),
            r is Err ==> r == Err::<(), FilterableError>(FilterableError::MaskDoesNotMatchFeatures),
    ;

    /// Keeps the features on whose coordinates `predicate` holds, compacting this collection.
    fn filter_inplace_with_predicate<P: Fn(&[Coordinate2D]) -> bool>(&mut self, predicate: P)
        requires
            old(self).filterable(),
            forall|s: &[Coordinate2D]| predicate.requires((s,)),
        ensures
            final(self).filterable(),
    ;
}

} // verus!
