//! Lightweight `{{ key }}` placeholder substitution for plain strings.
//!
//! A template is scanned left to right for placeholder markers of the form
//! `{{ key }}`; whitespace around the key is ignored, so `{{key}}` and
//! `{{ key }}` name the same variable.  Rendering copies the literal text
//! between markers unchanged and splices in the value stored for each key.
//! The first key without a stored value stops the render and is reported
//! with the line and column of its opening marker.
//!
//! Interact with the library through [`VarjMap`]: insert variables with
//! [`VarjMap::insert`] and substitute them into a template with
//! [`VarjMap::render`].

pub mod error;
pub mod laws;
pub mod render;
pub mod scanner;
pub mod store;
pub mod text;

pub use error::Error;
pub use scanner::parse_blocks;
pub use scanner::Block;
pub use store::VarjMap;
