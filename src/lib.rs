//! Theme resolution: palettes, style attributes, scope tables, inheritance
//! merging and the resolved runtime theme.
pub mod text;
pub mod style;
pub mod value;
pub mod error;
pub mod palette;
pub mod theme;
pub mod loader;
pub mod laws;
