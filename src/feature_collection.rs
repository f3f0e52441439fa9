use vstd::prelude::*;

verus! {

/// Errors of building and shrinking feature collections.
#[derive(Clone, Copy, PartialEq, Eq, Structural, Debug)]
pub enum FeatureCollectionError {
    /// The feature offsets do not delimit the coordinate buffer.
    UnmatchedFeatureIndices,
    /// There is no feature left to delete.
    DeleteFromEmpty,
}

/// Common features of all feature collections.
pub trait FeatureCollection {
    /// The number of features, in specifications.
    ///
    /// It is left unspecified here; a collection that verifies its `len` defines it.
    open spec fn spec_len(&self) -> nat {
        arbitrary()
    }

    /// Returns the number of features.
    fn len(&self) -> (r: usize)
        ensures
            r == self.spec_len(),
    ;

    /// Returns whether the feature collection contains no features.
    fn is_empty(&self) -> (r: bool)
        ensures
            r == (self.spec_len() == 0),
    {
        self.len() == 0
    }

    /// Returns whether this feature collection is simple, i.e., contains no multi-types.
    fn is_simple(&self) -> bool;

    /// Removes the last feature from the collection.
    fn remove_last_feature(&mut self) -> Result<(), FeatureCollectionError>;
}

} // verus!
