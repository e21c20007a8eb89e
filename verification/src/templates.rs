//! What the templates need from the library.
pub mod filters;
