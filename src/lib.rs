//! Preparing CityGML dataset directories for upload: the naming convention of
//! a dataset, the buckets its content is split into, and where each bucket's
//! copy and archive go.

pub mod compress;
pub mod list;
pub mod naming;
pub mod order;
pub mod paths;
pub mod text;
