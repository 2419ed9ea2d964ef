//! Character-sequence utilities shared by the parser and the renderers.

pub mod convert;
pub mod lines;
pub mod number;
pub mod rewrite;
pub mod search;
pub mod space;
