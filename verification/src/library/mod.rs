//! The user's collection: what is stored about each series, and the names its
//! files are given.
pub mod index;
pub mod layout;
pub mod model;
pub mod paths;
pub mod promises;
pub mod removal;
pub mod sources;
pub mod sync;
pub mod volume;
