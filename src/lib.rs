//! Document state for a modal text editor: a text buffer with revisions,
//! cursor motion resolution, lazily filled per-line caches and
//! revision-guarded adoption of background syntax results.

pub mod buffer;
pub mod word;
pub mod layout;
pub mod syntax;
pub mod cursor;
pub mod document;
pub mod motion;
