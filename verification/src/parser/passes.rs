//! Passes over the source text that run before parsing.

pub mod comment;
