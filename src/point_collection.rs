use vstd::prelude::*;

use crate::coordinate::Coordinate2D;
use crate::feature_collection::{FeatureCollection, FeatureCollectionError};
use crate::filterable::{Filterable, FilterableError};

verus! {

/// Whether every earlier entry is smaller than every later one.
pub open spec fn strictly_increasing(s: Seq<usize>) -> bool {
    forall|i: int, j: int| 0 <= i < j < s.len() ==> s[i] < s[j]
}

/// Whether `offsets` delimits a buffer of `n_coords` coordinates into non-empty runs:
/// it is non-empty, strictly increasing and ends at the buffer's length.
pub open spec fn valid_layout(offsets: Seq<usize>, n_coords: int) -> bool {
    &&& offsets.len() > 0
    &&& strictly_increasing(offsets)
    &&& offsets.last() == n_coords
}

/// The runs of `coords` that `offsets` delimits, one per feature.
pub open spec fn features_of(offsets: Seq<usize>, coords: Seq<Coordinate2D>) -> Seq<
    Seq<Coordinate2D>,
> {
    Seq::new(
        (offsets.len() - 1) as nat,
        |k: int| coords.subrange(offsets[k] as int, offsets[k + 1] as int),
    )
}

/// The features whose entry in `mask` is true, in their original order.
pub open spec fn filter_features(features: Seq<Seq<Coordinate2D>>, mask: Seq<bool>) -> Seq<
    Seq<Coordinate2D>,
>
    decreases features.len(),
{
    if features.len() == 0 {
        Seq::empty()
    } else {
        let rest = filter_features(features.drop_last(), mask);
        if mask[features.len() - 1] {
            rest.push(features.last())
        } else {
            rest
        }
    }
}

/// Whether `keep` is a value that `predicate` may return on a slice holding `run`.
pub open spec fn decided_by<P: Fn(&[Coordinate2D]) -> bool>(
    predicate: P,
    run: Seq<Coordinate2D>,
    keep: bool,
) -> bool {
    exists|s: &[Coordinate2D]| s@ == run && #[trigger] predicate.ensures((s,), keep)
}

/// Whether `mask` holds, for each feature, a value that `predicate` may return on it.
pub open spec fn decided_mask<P: Fn(&[Coordinate2D]) -> bool>(
    predicate: P,
    features: Seq<Seq<Coordinate2D>>,
    mask: Seq<bool>,
) -> bool {
    &&& mask.len() == features.len()
    &&& forall|k: int| 0 <= k < mask.len() ==> decided_by(predicate, features[k], mask[k])
}

/// Filtering one more feature either appends it or leaves the result as it was.
proof fn lemma_filter_step(features: Seq<Seq<Coordinate2D>>, mask: Seq<bool>, i: int)
    requires
        0 <= i < features.len(),
    ensures
        filter_features(features.take(i + 1), mask) == if mask[i] {
            filter_features(features.take(i), mask).push(features[i])
        } else {
            filter_features(features.take(i), mask)
        },
{
    assert(features.take(i + 1).drop_last() =~= features.take(i));
}

/// The mask that holds `keep` of each feature.
pub open spec fn mask_by(
    keep: spec_fn(Seq<Coordinate2D>) -> bool,
    features: Seq<Seq<Coordinate2D>>,
) -> Seq<bool> {
    Seq::new(features.len(), |k: int| keep(features[k]))
}

/// Filtering by a mask that is true on every feature keeps every feature.
proof fn lemma_filter_keeps_all(features: Seq<Seq<Coordinate2D>>, mask: Seq<bool>)
    requires
        mask.len() >= features.len(),
        forall|k: int| 0 <= k < features.len() ==> #[trigger] mask[k],
    ensures
        filter_features(features, mask) == features,
    decreases features.len(),
{
    if features.len() > 0 {
        lemma_filter_keeps_all(features.drop_last(), mask);
        assert(features.drop_last().push(features.last()) =~= features);
    }
}

/// Every feature that a filter keeps has a true mask entry.
proof fn lemma_filter_kept_satisfy(
    features: Seq<Seq<Coordinate2D>>,
    mask: Seq<bool>,
    keep: spec_fn(Seq<Coordinate2D>) -> bool,
)
    requires
        mask.len() >= features.len(),
        forall|k: int| 0 <= k < features.len() ==> (#[trigger] mask[k] ==> keep(features[k])),
    ensures
        forall|j: int|
            0 <= j < filter_features(features, mask).len() ==> keep(
                #[trigger] filter_features(features, mask)[j],
            ),
    decreases features.len(),
{
    if features.len() > 0 {
        let rest = features.drop_last();
        assert forall|k: int| 0 <= k < rest.len() && #[trigger] mask[k] implies keep(rest[k]) by {
            assert(rest[k] == features[k]);
        }
        lemma_filter_kept_satisfy(rest, mask, keep);
        let r = filter_features(features, mask);
        let r0 = filter_features(rest, mask);
        assert forall|j: int| 0 <= j < r.len() implies keep(#[trigger] r[j]) by {
            if j < r0.len() {
                assert(r[j] == r0[j]);
            } else {
                assert(mask[features.len() - 1]);
                assert(r[j] == features.last());
            }
        }
    }
}

/// Filtering with a mask that is true everywhere returns the features unchanged.
pub proof fn lemma_filter_all_true(features: Seq<Seq<Coordinate2D>>, mask: Seq<bool>)
    requires
        mask.len() == features.len(),
        forall|k: int| 0 <= k < mask.len() ==> mask[k],
    ensures
        filter_features(features, mask) == features,
{
    lemma_filter_keeps_all(features, mask);
}

/// Filtering is idempotent: filtering the result again by the same per-feature decision
/// keeps everything that the first filtering kept.
pub proof fn lemma_filter_idempotent(
    features: Seq<Seq<Coordinate2D>>,
    keep: spec_fn(Seq<Coordinate2D>) -> bool,
)
    ensures
        ({
            let once = filter_features(features, mask_by(keep, features));
            filter_features(once, mask_by(keep, once)) == once
        }),
{
    let once = filter_features(features, mask_by(keep, features));
    lemma_filter_kept_satisfy(features, mask_by(keep, features), keep);
    lemma_filter_keeps_all(once, mask_by(keep, once));
}

/// In a valid layout that starts at zero, the coordinates are the features laid end to
/// end, and each offset is the number of coordinates of the features before it.
proof fn lemma_packed_layout(offsets: Seq<usize>, coords: Seq<Coordinate2D>)
    requires
        valid_layout(offsets, coords.len() as int),
        offsets[0] == 0,
    ensures
        coords == features_of(offsets, coords).flatten(),
        forall|k: int|
            0 <= k < offsets.len() ==> offsets[k] == #[trigger] features_of(offsets, coords).take(
                k,
            ).flatten().len(),
    decreases offsets.len(),
{
    let fs = features_of(offsets, coords);
    if offsets.len() == 1 {
        assert(coords =~= fs.flatten());
        assert forall|k: int| 0 <= k < offsets.len() implies offsets[k] == #[trigger] fs.take(
            k,
        ).flatten().len() by {
            assert(fs.take(k) =~= Seq::<Seq<Coordinate2D>>::empty());
        }
    } else {
        let n = offsets.len() - 1;
        lemma_layout_pop(offsets, coords);
        let o2 = offsets.drop_last();
        let c2 = coords.take(offsets[n - 1] as int);
        lemma_packed_layout(o2, c2);
        let f2 = features_of(o2, c2);
        assert(f2 == fs.drop_last());
        assert(fs.drop_last().push(fs.last()) =~= fs);
        Seq::lemma_flatten_push(fs.drop_last(), fs.last());
        assert(offsets[n - 1] < offsets[n]);
        assert(c2 + fs.last() =~= coords);
        assert forall|k: int| 0 <= k < offsets.len() implies offsets[k] == #[trigger] fs.take(
            k,
        ).flatten().len() by {
            if k < n {
                assert(fs.take(k) =~= f2.take(k));
                assert(o2[k] == offsets[k]);
            } else {
                assert(fs.take(k) =~= fs);
            }
        }
    }
}

/// Appending a run to a valid layout gives a valid layout with that run as its last feature.
proof fn lemma_layout_push(offsets: Seq<usize>, coords: Seq<Coordinate2D>, run: Seq<Coordinate2D>)
    requires
        valid_layout(offsets, coords.len() as int),
        run.len() > 0,
        coords.len() + run.len() <= usize::MAX,
    ensures
        valid_layout(
            offsets.push((coords.len() + run.len()) as usize),
            (coords + run).len() as int,
        ),
        features_of(offsets.push((coords.len() + run.len()) as usize), coords + run)
            == features_of(offsets, coords).push(run),
        offsets.push((coords.len() + run.len()) as usize)[0] == offsets[0],
{
    let o2 = offsets.push((coords.len() + run.len()) as usize);
    let c2 = coords + run;
    assert forall|i: int, j: int| 0 <= i < j < o2.len() implies o2[i] < o2[j] by {
        if j < offsets.len() {
            assert(o2[i] == offsets[i] && o2[j] == offsets[j]);
        } else if i < offsets.len() - 1 {
            assert(offsets[i] < offsets[offsets.len() - 1]);
        }
    }
    let f1 = features_of(o2, c2);
    let f0 = features_of(offsets, coords).push(run);
    assert forall|k: int| 0 <= k < f1.len() implies f1[k] == f0[k] by {
        if k + 1 < offsets.len() {
            if k + 1 < offsets.len() - 1 {
                assert(offsets[k + 1] < offsets[offsets.len() - 1]);
            }
            assert(offsets[k] < offsets[k + 1]);
            assert(f1[k] =~= f0[k]);
        } else {
            assert(f1[k] =~= run);
        }
    }
    assert(f1 =~= f0);
}

/// Dropping the last offset and the coordinates after the new last offset removes the
/// last feature of a valid layout.
proof fn lemma_layout_pop(offsets: Seq<usize>, coords: Seq<Coordinate2D>)
    requires
        valid_layout(offsets, coords.len() as int),
        offsets.len() >= 2,
    ensures
        valid_layout(offsets.drop_last(), offsets[offsets.len() - 2] as int),
        features_of(offsets.drop_last(), coords.take(offsets[offsets.len() - 2] as int))
            == features_of(offsets, coords).drop_last(),
        offsets.drop_last()[0] == offsets[0],
{
    let o2 = offsets.drop_last();
    let n = offsets[offsets.len() - 2] as int;
    let c2 = coords.take(n);
    assert(offsets[offsets.len() - 2] < offsets[offsets.len() - 1]);
    let f1 = features_of(o2, c2);
    let f0 = features_of(offsets, coords).drop_last();
    assert forall|k: int| 0 <= k < f1.len() implies f1[k] == f0[k] by {
        if k + 1 < o2.len() - 1 {
            assert(offsets[k + 1] < offsets[o2.len() - 1]);
        }
        assert(offsets[k] < offsets[k + 1]);
        assert(f1[k] =~= f0[k]);
    }
    assert(f1 =~= f0);
}

/// A collection of points and multi-points in columnar form: a flat coordinate buffer
/// and the offsets that delimit each feature's run in it.
#[derive(Clone, Debug)]
pub struct PointCollection {
    feature_indices: Vec<usize>,
    coordinates: Vec<Coordinate2D>,
}

impl PointCollection {
    /// The feature offsets.
    pub closed spec fn offsets(&self) -> Seq<usize> {
        self.feature_indices@
    }

    /// The flat coordinate buffer.
    pub closed spec fn coords(&self) -> Seq<Coordinate2D> {
        self.coordinates@
    }

    /// Whether the offsets delimit the coordinate buffer into non-empty runs.
    pub open spec fn wf(&self) -> bool {
        valid_layout(self.offsets(), self.coords().len() as int)
    }

    /// The features, each as its run of coordinates.
    pub open spec fn features(&self) -> Seq<Seq<Coordinate2D>> {
        features_of(self.offsets(), self.coords())
    }

    /// Whether every feature is a single point.
    pub open spec fn is_simple_spec(&self) -> bool {
        forall|k: int| 0 <= k < self.num_features() ==> #[trigger] self.features()[k].len() == 1
    }

    /// The number of features.
    pub open spec fn num_features(&self) -> int {
        self.offsets().len() - 1
    }

    /// Create a new, empty collection.
    pub fn new() -> (r: Self)
        ensures
            r.offsets() == seq![0usize],
            r.coords() == Seq::<Coordinate2D>::empty(),
            r.wf(),
            r.features() == Seq::<Seq<Coordinate2D>>::empty(),
    {
        let r = PointCollection { feature_indices: vec![0usize], coordinates: Vec::new() };
        assert(r.features() =~= Seq::<Seq<Coordinate2D>>::empty());
        r
    }

    /// Create a collection from data and check that the offsets delimit the coordinates.
    pub fn from_data(feature_indices: Vec<usize>, coordinates: Vec<Coordinate2D>) -> (r: Result<
        Self,
        FeatureCollectionError,
    >)
        ensures
            r is Ok <==> valid_layout(feature_indices@, coordinates@.len() as int),
            r matches Ok(pc) ==> pc.offsets() == feature_indices@ && pc.coords() == coordinates@,
            r is Err ==> r == Err::<Self, FeatureCollectionError>(
                FeatureCollectionError::UnmatchedFeatureIndices,
            ),
    {
        let instance = PointCollection { feature_indices, coordinates };
        if instance.is_valid() {
            Ok(instance)
        } else {
            Err(FeatureCollectionError::UnmatchedFeatureIndices)
        }
    }

    /// Create a collection from data without checking it.
    ///
    /// The caller vouches that the offsets delimit the coordinates; the operations that
    /// need a well-formed collection are not defined on one built otherwise.
    pub fn from_data_unchecked(feature_indices: Vec<usize>, coordinates: Vec<Coordinate2D>) -> (r:
        Self)
        ensures
            r.offsets() == feature_indices@,
            r.coords() == coordinates@,
    {
        PointCollection { feature_indices, coordinates }
    }

    /// Checks whether this collection is valid.
    pub fn is_valid(&self) -> (r: bool)
        ensures
            r == self.wf(),
    {
        let n = self.feature_indices.len();
        if n == 0 {
            return false;
        }
        if self.feature_indices[n - 1] != self.coordinates.len() {
            return false;
        }
        let mut k: usize = 1;
        while k < n
            invariant
                1 <= k <= n,
                n == self.feature_indices@.len(),
                forall|a: int, b: int| 0 <= a < b < k ==> self.feature_indices@[a] < self.feature_indices@[b],
            decreases n - k,
        {
            if self.feature_indices[k - 1] >= self.feature_indices[k] {
                return false;
            }
            k += 1;
        }
        true
    }

    /// Add a new point to the collection.
    pub fn add_point(&mut self, coordinate: Coordinate2D)
        ensures
            final(self).coords() == old(self).coords().push(coordinate),
            final(self).offsets() == old(self).offsets().push(final(self).coords().len() as usize),
            old(self).wf() ==> final(self).wf() && final(self).features() == old(self).features().push(
                seq![coordinate],
            ),
    {
        self.coordinates.push(coordinate);
        let len = self.coordinates.len();
        self.feature_indices.push(len);
        proof {
            if old(self).wf() {
                assert(old(self).coords() + seq![coordinate] =~= self.coords());
                lemma_layout_push(old(self).offsets(), old(self).coords(), seq![coordinate]);
            }
        }
    }

    /// Add a new multi point to the collection; an empty one adds nothing.
    pub fn add_multipoint(&mut self, coordinates: &[Coordinate2D])
        ensures
            coordinates@.len() == 0 ==> *final(self) == *old(self),
            coordinates@.len() > 0 ==> final(self).coords() == old(self).coords() + coordinates@
                && final(self).offsets() == old(self).offsets().push(
                final(self).coords().len() as usize,
            ),
            old(self).wf() && coordinates@.len() > 0 ==> final(self).wf() && final(self).features()
                == old(self).features().push(coordinates@),
    {
        if coordinates.len() > 0 {
            let mut i: usize = 0;
            while i < coordinates.len()
                invariant
                    0 <= i <= coordinates@.len(),
                    self.coordinates@ == old(self).coordinates@ + coordinates@.take(i as int),
                    self.feature_indices@ == old(self).feature_indices@,
                decreases coordinates@.len() - i,
            {
                self.coordinates.push(coordinates[i]);
                i += 1;
                assert(self.coordinates@ =~= old(self).coordinates@ + coordinates@.take(i as int));
            }
            assert(coordinates@.take(i as int) =~= coordinates@);
            let len = self.coordinates.len();
            self.feature_indices.push(len);
            proof {
                if old(self).wf() {
                    lemma_layout_push(old(self).offsets(), old(self).coords(), coordinates@);
                }
            }
        }
    }

    /// Access the feature offsets.
    pub fn feature_indices(&self) -> (r: &[usize])
        ensures
            r@ == self.offsets(),
    {
        self.feature_indices.as_slice()
    }

    /// Access the coordinates of one feature.
    pub fn feature_coordinates(&self, i: usize) -> (r: &[Coordinate2D])
        requires
            self.wf(),
            i < self.num_features(),
        ensures
            r@ == self.features()[i as int],
    {
        proof {
            if i + 1 < self.num_features() {
                assert(self.offsets()[i + 1] < self.offsets()[self.num_features()]);
            }
            assert(self.offsets()[i as int] < self.offsets()[i + 1]);
        }
        // the offsets' length is a usize, so `i + 1` cannot overflow
        let _n_offsets = self.feature_indices.len();
        let start = self.feature_indices[i];
        let end = self.feature_indices[i + 1];
        vstd::slice::slice_subrange(self.coordinates.as_slice(), start, end)
    }

    /// Access the coordinate buffer.
    pub fn coordinates(&self) -> (r: &[Coordinate2D])
        ensures
            r@ == self.coords(),
    {
        self.coordinates.as_slice()
    }
}

/// The offsets shifted down so that the first one is zero.
pub open spec fn rebased(offsets: Seq<usize>) -> Seq<usize> {
    offsets.map_values(|o: usize| (o - offsets[0]) as usize)
}

/// Shifting a valid layout's offsets down to zero, and dropping the coordinates in front
/// of its first offset, keeps the layout valid and the features as they are.
proof fn lemma_layout_rebase(offsets: Seq<usize>, coords: Seq<Coordinate2D>)
    requires
        valid_layout(offsets, coords.len() as int),
    ensures
        valid_layout(rebased(offsets), coords.skip(offsets[0] as int).len() as int),
        rebased(offsets)[0] == 0,
        features_of(rebased(offsets), coords.skip(offsets[0] as int)) == features_of(
            offsets,
            coords,
        ),
{
    let o2 = rebased(offsets);
    let c2 = coords.skip(offsets[0] as int);
    let last = offsets.len() - 1;
    assert forall|i: int| 0 <= i < offsets.len() implies offsets[0] <= offsets[i] && offsets[i]
        <= offsets[last] && o2[i] == offsets[i] - offsets[0] by {
        if 0 < i {
            assert(offsets[0] < offsets[i]);
        }
        if i < last {
            assert(offsets[i] < offsets[last]);
        }
    }
    assert forall|i: int, j: int| 0 <= i < j < o2.len() implies o2[i] < o2[j] by {
        assert(offsets[i] < offsets[j]);
    }
    let f1 = features_of(o2, c2);
    let f0 = features_of(offsets, coords);
    assert forall|k: int| 0 <= k < f1.len() implies f1[k] == f0[k] by {
        assert(offsets[k] < offsets[k + 1]);
        assert(f1[k] =~= f0[k]);
    }
    assert(f1 =~= f0);
}

/// Two valid layouts that start at zero and delimit the same features are the same.
proof fn lemma_packed_determined(
    o1: Seq<usize>,
    c1: Seq<Coordinate2D>,
    o2: Seq<usize>,
    c2: Seq<Coordinate2D>,
)
    requires
        valid_layout(o1, c1.len() as int),
        valid_layout(o2, c2.len() as int),
        o1[0] == 0,
        o2[0] == 0,
        features_of(o1, c1) == features_of(o2, c2),
    ensures
        o1 == o2,
        c1 == c2,
{
    let fs = features_of(o1, c1);
    lemma_packed_layout(o1, c1);
    lemma_packed_layout(o2, c2);
    assert forall|k: int| 0 <= k < o1.len() implies o1[k] == o2[k] by {
        assert(o1[k] == fs.take(k).flatten().len());
        assert(o2[k] == fs.take(k).flatten().len());
    }
    assert(o1 =~= o2);
}

/// Two well-formed collections whose offsets start at zero and that hold the same
/// features have the same offsets and the same coordinates.
pub proof fn lemma_features_determine_packed(a: PointCollection, b: PointCollection)
    requires
        a.wf(),
        b.wf(),
        a.offsets()[0] == 0,
        b.offsets()[0] == 0,
        a.features() == b.features(),
    ensures
        a.offsets() == b.offsets(),
        a.coords() == b.coords(),
{
    lemma_packed_determined(a.offsets(), a.coords(), b.offsets(), b.coords());
}

/// Filtering with a mask that is true on every feature returns the same features, with
/// the offsets shifted down to start at zero and the coordinates in front of the first
/// offset dropped; a collection whose offsets already start at zero comes back unchanged.
pub proof fn lemma_filter_all_true_round_trip(
    pc: PointCollection,
    mask: Seq<bool>,
    filtered: PointCollection,
)
    requires
        pc.wf(),
        mask.len() == pc.num_features(),
        forall|k: int| 0 <= k < mask.len() ==> mask[k],
        filtered.wf(),
        filtered.offsets()[0] == 0,
        filtered.features() == filter_features(pc.features(), mask),
    ensures
        filtered.features() == pc.features(),
        filtered.offsets() == rebased(pc.offsets()),
        filtered.coords() == pc.coords().skip(pc.offsets()[0] as int),
        pc.offsets()[0] == 0 ==> filtered.offsets() == pc.offsets() && filtered.coords()
            == pc.coords(),
{
    lemma_filter_all_true(pc.features(), mask);
    lemma_layout_rebase(pc.offsets(), pc.coords());
    lemma_packed_determined(
        filtered.offsets(),
        filtered.coords(),
        rebased(pc.offsets()),
        pc.coords().skip(pc.offsets()[0] as int),
    );
    if pc.offsets()[0] == 0 {
        assert(rebased(pc.offsets()) =~= pc.offsets());
        assert(pc.coords().skip(0) =~= pc.coords());
    }
}

impl Default for PointCollection {
    /// The empty collection.
    fn default() -> (r: Self)
        ensures
            r.offsets() == seq![0usize],
            r.coords() == Seq::<Coordinate2D>::empty(),
    {
        PointCollection { feature_indices: vec![0usize], coordinates: Vec::new() }
    }
}

impl FeatureCollection for PointCollection {
    open spec fn spec_len(&self) -> nat {
        if self.offsets().len() > 0 {
            (self.offsets().len() - 1) as nat
        } else {
            0
        }
    }

    fn len(&self) -> (r: usize) {
        let n = self.feature_indices.len();
        if n == 0 {
            0
        } else {
            n - 1
        }
    }

    fn is_simple(&self) -> (r: bool)
        ensures
            self.wf() ==> r == self.is_simple_spec(),
    {
        let n_offsets = self.feature_indices.len();
        let n = if n_offsets == 0 {
            0
        } else {
            n_offsets - 1
        };
        let mut k: usize = 0;
        while k < n
            invariant
                0 <= k <= n,
                n == 0 || n + 1 == self.offsets().len(),
                self.wf() ==> n == self.num_features(),
                self.wf() ==> forall|a: int| 0 <= a < k ==> #[trigger] self.features()[a].len() == 1,
            decreases n - k,
        {
            let start = self.feature_indices[k];
            let end = self.feature_indices[k + 1];
            proof {
                if self.wf() {
                    if k + 1 < n {
                        assert(self.offsets()[k + 1] < self.offsets()[n as int]);
                    }
                    assert(self.offsets()[k as int] < self.offsets()[k + 1]);
                }
            }
            if end <= start || end - start != 1 {
                assert(self.wf() ==> self.features()[k as int].len() != 1);
                return false;
            }
            k += 1;
        }
        true
    }

    fn remove_last_feature(&mut self) -> (r: Result<(), FeatureCollectionError>)
        ensures
            r is Err ==> *final(self) == *old(self),
            old(self).wf() ==> {
                &&& final(self).wf()
                &&& r is Err <==> old(self).num_features() == 0
                &&& r is Err ==> r == Err::<(), FeatureCollectionError>(
                    FeatureCollectionError::DeleteFromEmpty,
                )
                &&& r is Ok ==> final(self).features() == old(self).features().drop_last()
                &&& r is Ok ==> final(self).offsets() == old(self).offsets().drop_last()
                &&& r is Ok ==> final(self).coords() == old(self).coords().take(
                    old(self).offsets()[old(self).offsets().len() - 2] as int,
                )
            },
    {
        if self.feature_indices.len() <= 1 {
            return Err(FeatureCollectionError::DeleteFromEmpty);
        }
        proof {
            if self.wf() {
                lemma_layout_pop(self.offsets(), self.coords());
            }
        }
        self.feature_indices.pop();
        let n = self.feature_indices[self.feature_indices.len() - 1];
        self.coordinates.truncate(n);
        Ok(())
    }
}

impl Filterable for PointCollection {
    open spec fn filterable(&self) -> bool {
        self.wf()
    }

    open spec fn mask_len(&self) -> nat {
        self.num_features() as nat
    }

    fn filter(&self, mask: &[bool]) -> (r: Result<Self, FilterableError>)
        ensures
            r matches Ok(c) ==> c.offsets()[0] == 0 && c.features() == filter_features(
                self.features(),
                mask@,
            ),
    {
        if mask.len() != self.feature_indices.len() - 1 {
            return Err(FilterableError::MaskDoesNotMatchFeatures);
        }
        Ok(self.gather(mask))
    }

    fn filter_with_predicate<P: Fn(&[Coordinate2D]) -> bool>(&self, predicate: P) -> (r: Self)
        ensures
            exists|m: Seq<bool>|
                decided_mask(predicate, self.features(), m) && r.offsets()[0] == 0 && r.features()
                    == filter_features(self.features(), m),
    {
        let mask = self.feature_mask(predicate);
        let r = self.gather(mask.as_slice());
        assert(decided_mask(predicate, self.features(), mask@));
        r
    }

    fn filter_inplace(&mut self, mask: &[bool]) -> (r: Result<(), FilterableError>)
        ensures
            r is Err ==> *final(self) == *old(self),
            r is Ok ==> final(self).offsets()[0] == 0 && final(self).features() == filter_features(
                old(self).features(),
                mask@,
            ),
    {
        if mask.len() != self.feature_indices.len() - 1 {
            return Err(FilterableError::MaskDoesNotMatchFeatures);
        }
        self.compact(mask);
        Ok(())
    }

    fn filter_inplace_with_predicate<P: Fn(&[Coordinate2D]) -> bool>(&mut self, predicate: P)
        ensures
            exists|m: Seq<bool>|
                decided_mask(predicate, old(self).features(), m) && final(self).offsets()[0] == 0
                    && final(self).features() == filter_features(old(self).features(), m),
    {
        let mask = self.feature_mask(predicate);
        self.compact(mask.as_slice());
        assert(decided_mask(predicate, old(self).features(), mask@));
    }
}

impl PointCollection {
    /// Whether each feature's entry is a value that `predicate` may return on its coordinates.
    fn feature_mask<P: Fn(&[Coordinate2D]) -> bool>(&self, predicate: P) -> (m: Vec<bool>)
        requires
            self.wf(),
            forall|s: &[Coordinate2D]| predicate.requires((s,)),
        ensures
            decided_mask(predicate, self.features(), m@),
    {
        let n = self.feature_indices.len() - 1;
        let mut mask: Vec<bool> = Vec::new();
        let mut i: usize = 0;
        while i < n
            invariant
                self.wf(),
                n == self.num_features(),
                0 <= i <= n,
                mask@.len() == i,
                forall|s: &[Coordinate2D]| predicate.requires((s,)),
                forall|k: int| 0 <= k < i ==> decided_by(predicate, self.features()[k], mask@[k]),
            decreases n - i,
        {
            let start = self.feature_indices[i];
            let end = self.feature_indices[i + 1];
            proof {
                if i + 1 < n {
                    assert(self.offsets()[i + 1] < self.offsets()[n as int]);
                }
                assert(self.offsets()[i as int] < self.offsets()[i + 1]);
            }
            let run = vstd::slice::slice_subrange(self.coordinates.as_slice(), start, end);
            let keep = predicate(run);
            assert(run@ == self.features()[i as int]);
            mask.push(keep);
            i += 1;
        }
        mask
    }

    /// The collection of the features whose mask entry is true, in fresh buffers.
    fn gather(&self, mask: &[bool]) -> (r: Self)
        requires
            self.wf(),
            mask@.len() == self.num_features(),
        ensures
            r.wf(),
            r.offsets()[0] == 0,
            r.features() == filter_features(self.features(), mask@),
    {
        let n = self.feature_indices.len() - 1;
        let ghost fs = self.features();
        let mut out_offsets: Vec<usize> = Vec::new();
        let mut out_coords: Vec<Coordinate2D> = Vec::new();
        let mut i: usize = 0;
        while i < n
            invariant
                self.wf(),
                n == self.num_features(),
                fs == self.features(),
                mask@.len() == n,
                0 <= i <= n,
                out_coords@.len() <= self.offsets()[i as int],
                valid_layout(out_offsets@.push(out_coords@.len() as usize), out_coords@.len() as int),
                out_offsets@.push(out_coords@.len() as usize)[0] == 0,
                features_of(out_offsets@.push(out_coords@.len() as usize), out_coords@)
                    == filter_features(fs.take(i as int), mask@),
            decreases n - i,
        {
            let start = self.feature_indices[i];
            let end = self.feature_indices[i + 1];
            proof {
                if i + 1 < n {
                    assert(self.offsets()[i + 1] < self.offsets()[n as int]);
                }
                assert(self.offsets()[i as int] < self.offsets()[i + 1]);
                lemma_filter_step(fs, mask@, i as int);
            }
            if mask[i] {
                let ghost prev_offsets = out_offsets@.push(out_coords@.len() as usize);
                let ghost prev_coords = out_coords@;
                let ghost run = fs[i as int];
                let len = out_coords.len();
                out_offsets.push(len);
                let mut j: usize = start;
                while j < end
                    invariant
                        start <= j <= end,
                        end <= self.coords().len(),
                        self.coords() == self.coordinates@,
                        out_coords@ == prev_coords + self.coords().subrange(start as int, j as int),
                    decreases end - j,
                {
                    out_coords.push(self.coordinates[j]);
                    j += 1;
                    assert(out_coords@ =~= prev_coords + self.coords().subrange(
                        start as int,
                        j as int,
                    ));
                }
                proof {
                    lemma_layout_push(prev_offsets, prev_coords, run);
                    assert(out_offsets@.push(out_coords@.len() as usize) =~= prev_offsets.push(
                        (prev_coords.len() + run.len()) as usize,
                    ));
                }
            }
            i += 1;
        }
        let len = out_coords.len();
        out_offsets.push(len);
        assert(fs.take(n as int) =~= fs);
        PointCollection { feature_indices: out_offsets, coordinates: out_coords }
    }

    /// Keeps the features whose mask entry is true, copying each kept run down to the
    /// front of the buffer and truncating both buffers afterwards.
    fn compact(&mut self, mask: &[bool])
        requires
            old(self).wf(),
            mask@.len() == old(self).num_features(),
        ensures
            final(self).wf(),
            final(self).offsets()[0] == 0,
            final(self).features() == filter_features(old(self).features(), mask@),
    {
        let n = self.feature_indices.len() - 1;
        let ghost o0 = self.offsets();
        let ghost c0 = self.coords();
        let ghost fs = self.features();
        let mut fi: usize = 0;
        let mut write: usize = 0;
        let mut i: usize = 0;
        while i < n
            invariant
                n == o0.len() - 1,
                mask@.len() == n,
                valid_layout(o0, c0.len() as int),
                fs == features_of(o0, c0),
                0 <= i <= n,
                fi <= i,
                write <= o0[i as int],
                self.feature_indices@.len() == o0.len(),
                self.coordinates@.len() == c0.len(),
                forall|k: int| i <= k < o0.len() ==> self.feature_indices@[k] == o0[k],
                forall|k: int| o0[i as int] <= k < c0.len() ==> self.coordinates@[k] == c0[k],
                valid_layout(self.feature_indices@.take(fi as int).push(write), write as int),
                self.feature_indices@.take(fi as int).push(write)[0] == 0,
                features_of(
                    self.feature_indices@.take(fi as int).push(write),
                    self.coordinates@.take(write as int),
                ) == filter_features(fs.take(i as int), mask@),
            decreases n - i,
        {
            let start = self.feature_indices[i];
            let end = self.feature_indices[i + 1];
            proof {
                if i + 1 < n {
                    assert(o0[i + 1] < o0[n as int]);
                }
                assert(o0[i as int] < o0[i + 1]);
                lemma_filter_step(fs, mask@, i as int);
            }
            if mask[i] {
                let ghost prev_offsets = self.feature_indices@.take(fi as int).push(write);
                let ghost prev_coords = self.coordinates@.take(write as int);
                let ghost run = fs[i as int];
                self.feature_indices.set(fi, write);
                let ghost offs = self.feature_indices@;
                let len = end - start;
                let mut j: usize = 0;
                while j < len
                    invariant
                        write <= start,
                        start + len == end,
                        end <= c0.len(),
                        end == o0[i + 1],
                        start == o0[i as int],
                        self.coordinates@.len() == c0.len(),
                        forall|k: int| 0 <= k < write ==> self.coordinates@[k] == prev_coords[k],
                        forall|k: int|
                            write <= k < write + j ==> self.coordinates@[k] == c0[k - write + start],
                        forall|k: int| start + j <= k < c0.len() ==> self.coordinates@[k] == c0[k],
                        0 <= j <= len,
                        self.feature_indices@ == offs,
                        i < n,
                        n == o0.len() - 1,
                    decreases len - j,
                {
                    let v = self.coordinates[start + j];
                    self.coordinates.set(write + j, v);
                    j += 1;
                }
                proof {
                    assert(run =~= c0.subrange(start as int, end as int));
                    assert(self.coordinates@.take(write + len) =~= prev_coords + run);
                    lemma_layout_push(prev_offsets, prev_coords, run);
                    assert(self.feature_indices@.take(fi + 1) =~= self.feature_indices@.take(
                        fi as int,
                    ).push(write));
                    assert(self.feature_indices@.take(fi + 1).push((write + len) as usize)
                        =~= prev_offsets.push((prev_coords.len() + run.len()) as usize));
                }
                fi += 1;
                write += len;
            }
            i += 1;
        }
        let ghost before = self.feature_indices@;
        self.feature_indices.set(fi, write);
        self.feature_indices.truncate(fi + 1);
        self.coordinates.truncate(write);
        proof {
            assert(self.feature_indices@ =~= before.take(fi as int).push(write));
            assert(self.coordinates@ =~= self.coordinates@.take(write as int));
            assert(fs.take(n as int) =~= fs);
        }
    }
}

} // verus!
