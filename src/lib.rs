//! Columnar point collections and half-open time intervals.

mod coordinate;
mod feature_collection;
mod filterable;
mod point_collection;
mod time_interval;

pub use coordinate::Coordinate2D;
pub use feature_collection::{FeatureCollection, FeatureCollectionError};
pub use filterable::{Filterable, FilterableError};
pub use point_collection::PointCollection;
pub use time_interval::{TimeInterval, TimeIntervalError};
