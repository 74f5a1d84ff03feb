//! Discovery, identity and progress accounting for course bundles and course maps.

pub mod ident;
pub mod paths;
pub mod course;
pub mod progress;
pub mod offsets;
pub mod overall;
pub mod store;
pub mod datastore;
pub mod markup;
