//! The data model: selections of items and the instances they are judged against.

pub mod instance;
pub mod random;
pub mod solution;
pub mod text;
