use geoengine_datatypes::{
    Coordinate2D, FeatureCollection, FeatureCollectionError, Filterable, FilterableError,
    PointCollection,
};

fn c(x: f64, y: f64) -> Coordinate2D {
    Coordinate2D::from_bits(x.to_bits(), y.to_bits())
}

fn three_points() -> PointCollection {
    let mut pc = PointCollection::new();
    pc.add_point(c(0., 0.));
    pc.add_point(c(1., 1.));
    pc.add_point(c(2., 2.));
    pc
}

fn mixed() -> PointCollection {
    let mut pc = PointCollection::new();
    pc.add_point(c(0., 0.));
    pc.add_multipoint(&[c(1., 1.), c(2., 2.)]);
    pc.add_point(c(3., 3.));
    pc.add_multipoint(&[c(4., 4.), c(5., 5.), c(6., 6.)]);
    pc
}

#[test]
fn new_equals_default() {
    let new = PointCollection::new();
    let default = PointCollection::default();

    assert_eq!(new.feature_indices(), default.feature_indices());
    assert_eq!(new.coordinates(), default.coordinates());
}

#[test]
fn new_is_empty() {
    let pc = PointCollection::new();
    assert_eq!(pc.len(), 0);
    assert!(pc.is_empty());
    assert_eq!(pc.feature_indices(), &[0]);
    assert!(pc.coordinates().is_empty());
    assert!(pc.is_valid());
}

#[test]
fn from_data_accepts_valid_layout() {
    let pc = PointCollection::from_data(vec![0, 1, 2], vec![c(0., 0.), c(1., 1.)]).unwrap();
    assert_eq!(pc.len(), 2);
    assert_eq!(pc.feature_indices(), &[0, 1, 2]);
    assert_eq!(pc.coordinates(), &[c(0., 0.), c(1., 1.)]);
}

#[test]
fn from_data_rejects_invalid_layouts() {
    let unmatched = Err(FeatureCollectionError::UnmatchedFeatureIndices);
    assert_eq!(PointCollection::from_data(Vec::new(), Vec::new()).map(|_| ()), unmatched);
    assert_eq!(PointCollection::from_data(vec![0, 1, 1], vec![c(0., 0.)]).map(|_| ()), unmatched);
    assert_eq!(PointCollection::from_data(vec![0, 2, 1], vec![c(0., 0.)]).map(|_| ()), unmatched);
    assert_eq!(
        PointCollection::from_data(vec![0, 1], vec![c(0., 0.), c(1., 1.)]).map(|_| ()),
        unmatched
    );
    assert!(PointCollection::from_data(vec![0], Vec::new()).is_ok());
}

#[test]
fn from_data_unchecked_skips_validation() {
    let pc = PointCollection::from_data_unchecked(vec![0, 1, 2], vec![c(0., 0.), c(1., 1.)]);
    assert!(pc.is_valid());
    let pc = PointCollection::from_data_unchecked(Vec::new(), Vec::new());
    assert!(!pc.is_valid());
}

#[test]
fn len_is_offsets_minus_one() {
    let pc = mixed();
    assert_eq!(pc.len(), pc.feature_indices().len() - 1);
    assert_eq!(pc.len(), 4);
}

#[test]
fn add_point_twice() {
    let mut pc = PointCollection::new();
    pc.add_point(c(0., 0.));
    assert_eq!(pc.len(), 1);
    assert_eq!(pc.coordinates().len(), 1);
    pc.add_point(c(1., 1.));
    assert_eq!(pc.len(), 2);
    assert_eq!(pc.coordinates().len(), 2);
    assert_eq!(pc.feature_indices(), &[0, 1, 2]);
}

#[test]
fn add_multipoint_appends_one_feature() {
    let mut pc = PointCollection::new();
    pc.add_multipoint(&[c(0., 0.), c(1., 1.)]);
    assert_eq!(pc.len(), 1);
    assert_eq!(pc.coordinates().len(), 2);

    let mut pc = PointCollection::new();
    pc.add_point(c(0., 0.));
    pc.add_point(c(1., 1.));
    pc.add_multipoint(&[c(2., 2.), c(3., 3.)]);
    assert_eq!(pc.feature_indices(), &[0, 1, 2, 4]);
    assert_eq!(pc.coordinates(), &[c(0., 0.), c(1., 1.), c(2., 2.), c(3., 3.)]);
}

#[test]
fn add_empty_multipoint_is_noop() {
    let mut pc = mixed();
    let (len, n_coords) = (pc.len(), pc.coordinates().len());
    pc.add_multipoint(&[]);
    assert_eq!(pc.len(), len);
    assert_eq!(pc.coordinates().len(), n_coords);

    let mut empty = PointCollection::new();
    empty.add_multipoint(&[]);
    assert_eq!(empty.feature_indices(), &[0]);
}

#[test]
fn feature_coordinates_are_runs() {
    let pc = mixed();
    assert_eq!(pc.feature_coordinates(0), &[c(0., 0.)]);
    assert_eq!(pc.feature_coordinates(1), &[c(1., 1.), c(2., 2.)]);
    assert_eq!(pc.feature_coordinates(3), &[c(4., 4.), c(5., 5.), c(6., 6.)]);
}

#[test]
fn is_simple_tracks_multipoints() {
    assert!(PointCollection::new().is_simple());
    let mut pc = three_points();
    assert!(pc.is_simple());
    pc.add_multipoint(&[c(3., 3.)]);
    assert!(pc.is_simple());
    pc.add_multipoint(&[c(4., 4.), c(5., 5.)]);
    assert!(!pc.is_simple());
}

#[test]
fn is_simple_with_offsets_not_starting_at_zero() {
    let pc = PointCollection::from_data(vec![1, 2], vec![c(0., 0.), c(1., 1.)]).unwrap();
    assert!(pc.is_simple());
    let pc = PointCollection::from_data(vec![1, 3], vec![c(0., 0.), c(1., 1.), c(2., 2.)]).unwrap();
    assert!(!pc.is_simple());
}

#[test]
fn remove_last_feature_down_to_empty() {
    let mut pc = PointCollection::new();
    pc.add_point(c(0., 0.));
    pc.add_point(c(1., 1.));
    assert_eq!(pc.len(), 2);

    assert_eq!(pc.remove_last_feature(), Ok(()));
    assert_eq!(pc.len(), 1);
    assert_eq!(pc.coordinates(), &[c(0., 0.)]);
    assert_eq!(pc.feature_indices(), &[0, 1]);

    assert_eq!(pc.remove_last_feature(), Ok(()));
    assert!(pc.is_empty());
    assert!(pc.coordinates().is_empty());

    assert_eq!(pc.remove_last_feature(), Err(FeatureCollectionError::DeleteFromEmpty));
    assert_eq!(pc.feature_indices(), &[0]);
}

#[test]
fn remove_last_multipoint() {
    let mut pc = PointCollection::new();
    pc.add_multipoint(&[c(4., 4.), c(5., 5.)]);
    assert_eq!(pc.len(), 1);
    pc.remove_last_feature().unwrap();
    assert!(pc.is_empty());
    assert!(pc.coordinates().is_empty());
}

#[test]
fn filter_by_mask() {
    let pc = three_points();
    let filtered = pc.filter(&[true, false, true]).unwrap();
    assert_eq!(filtered.len(), 2);
    assert_eq!(filtered.coordinates(), &[c(0., 0.), c(2., 2.)]);
    assert_eq!(filtered.feature_indices(), &[0, 1, 2]);
    assert_eq!(pc.len(), 3);
}

#[test]
fn filter_multipoints_by_mask() {
    let filtered = mixed().filter(&[false, true, false, true]).unwrap();
    assert_eq!(filtered.feature_indices(), &[0, 2, 5]);
    assert_eq!(
        filtered.coordinates(),
        &[c(1., 1.), c(2., 2.), c(4., 4.), c(5., 5.), c(6., 6.)]
    );
    let none = mixed().filter(&[false, false, false, false]).unwrap();
    assert!(none.is_empty());
    assert_eq!(none.feature_indices(), &[0]);
}

#[test]
fn filter_with_predicate_keeps_matching_features() {
    let pc = three_points();
    let filtered = pc.filter_with_predicate(|points: &[Coordinate2D]| points[0] != c(1., 1.));
    assert_eq!(filtered.len(), 2);
    assert_eq!(filtered.coordinates(), &[c(0., 0.), c(2., 2.)]);

    let multi = mixed().filter_with_predicate(|points: &[Coordinate2D]| points.len() > 1);
    assert_eq!(multi.feature_indices(), &[0, 2, 5]);
}

#[test]
fn filter_inplace_by_mask() {
    let mut pc = three_points();
    pc.filter_inplace(&[true, false, true]).unwrap();
    assert_eq!(pc.len(), 2);
    assert_eq!(pc.coordinates(), &[c(0., 0.), c(2., 2.)]);
    assert_eq!(pc.feature_indices(), &[0, 1, 2]);

    let mut pc = mixed();
    pc.filter_inplace(&[false, true, false, true]).unwrap();
    assert_eq!(pc.feature_indices(), &[0, 2, 5]);
    assert_eq!(pc.coordinates(), &[c(1., 1.), c(2., 2.), c(4., 4.), c(5., 5.), c(6., 6.)]);
}

#[test]
fn filter_inplace_with_predicate_keeps_matching_features() {
    let mut pc = three_points();
    pc.filter_inplace_with_predicate(|points: &[Coordinate2D]| points[0] != c(1., 1.));
    assert_eq!(pc.len(), 2);
    assert_eq!(pc.coordinates(), &[c(0., 0.), c(2., 2.)]);

    let mut pc = mixed();
    pc.filter_inplace_with_predicate(|points: &[Coordinate2D]| points.len() == 1);
    assert_eq!(pc.feature_indices(), &[0, 1, 2]);
    assert_eq!(pc.coordinates(), &[c(0., 0.), c(3., 3.)]);
}

#[test]
fn filter_inplace_renumbers_offsets_from_zero() {
    let mut pc = PointCollection::from_data(vec![1, 2, 4], vec![c(9., 9.), c(0., 0.), c(1., 1.), c(2., 2.)]).unwrap();
    pc.filter_inplace(&[true, true]).unwrap();
    assert_eq!(pc.feature_indices(), &[0, 1, 3]);
    assert_eq!(pc.coordinates(), &[c(0., 0.), c(1., 1.), c(2., 2.)]);
}

#[test]
fn filter_with_mismatched_mask_fails() {
    let pc = three_points();
    assert_eq!(pc.filter(&[true, false]).map(|_| ()), Err(FilterableError::MaskDoesNotMatchFeatures));
    assert_eq!(pc.filter(&[true; 4]).map(|_| ()), Err(FilterableError::MaskDoesNotMatchFeatures));

    let mut pc = mixed();
    assert_eq!(pc.filter_inplace(&[true]), Err(FilterableError::MaskDoesNotMatchFeatures));
    assert_eq!(pc.feature_indices(), mixed().feature_indices());
    assert_eq!(pc.coordinates(), mixed().coordinates());
}

#[test]
fn filter_all_true_round_trip() {
    let pc = mixed();
    let filtered = pc.filter(&[true, true, true, true]).unwrap();
    assert_eq!(filtered.feature_indices(), pc.feature_indices());
    assert_eq!(filtered.coordinates(), pc.coordinates());

    let mut inplace = mixed();
    inplace.filter_inplace(&[true, true, true, true]).unwrap();
    assert_eq!(inplace.feature_indices(), pc.feature_indices());
    assert_eq!(inplace.coordinates(), pc.coordinates());
}

#[test]
fn filter_twice_with_identity_predicate() {
    let pc = mixed();
    let once = pc.filter_with_predicate(|_: &[Coordinate2D]| true);
    let twice = once.filter_with_predicate(|_: &[Coordinate2D]| true);
    assert_eq!(once.feature_indices(), twice.feature_indices());
    assert_eq!(once.coordinates(), twice.coordinates());

    let keep = |points: &[Coordinate2D]| points.len() > 1;
    let once = pc.filter_with_predicate(keep);
    let twice = once.filter_with_predicate(keep);
    assert_eq!(once.feature_indices(), twice.feature_indices());
    assert_eq!(once.coordinates(), twice.coordinates());
}

#[test]
fn filter_all_true_rebases_offsets() {
    let pc = PointCollection::from_data(vec![1, 2, 4], vec![c(9., 9.), c(0., 0.), c(1., 1.), c(2., 2.)]).unwrap();
    let filtered = pc.filter(&[true, true]).unwrap();
    assert_eq!(filtered.feature_indices(), &[0, 1, 3]);
    assert_eq!(filtered.coordinates(), &[c(0., 0.), c(1., 1.), c(2., 2.)]);
}

#[test]
fn len_of_collection_without_offsets_is_zero() {
    let pc = PointCollection::from_data_unchecked(Vec::new(), Vec::new());
    assert_eq!(pc.len(), 0);
    assert!(pc.is_empty());
}
