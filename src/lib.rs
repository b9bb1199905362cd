//! In-memory columnar storage: dense and dictionary-encoded columns behind a
//! uniform indexed-access interface, and registries of named columns whose
//! element types are checked at run time.

pub mod column;
pub mod data_frame;
pub mod dataframe;
pub mod element;
pub mod entry;
pub mod query;
