//! Zero-copy reading of OpenType tables: a bounds-checked byte view with
//! offset resolution, the `glyf` outline decoder, and the coverage /
//! class-definition builders of the layout tables.
pub mod bbox;
pub mod class_def;
pub mod component;
pub mod font_data;
pub mod glyf;
pub mod layout;
pub mod outline;
pub mod scalar;
