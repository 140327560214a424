//! Incrementally maintained index of the e-book archives below a library
//! directory, with their cover images.

pub mod text;
pub mod paths;
pub mod key;
pub mod cover_image;
pub mod archive;
pub mod reader;
pub mod signals;
pub mod store;
pub mod cache;
pub mod library;
