//! An untyped lambda calculus: parsing into a named tree, conversion to De Bruijn
//! indices, and beta-reduction of the nameless form.

pub mod term;
pub mod reduce;
pub mod convert;
pub mod parser;
pub mod render;
