//! Pre-built model graphs.

pub mod vit;
