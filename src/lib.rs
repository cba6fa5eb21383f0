//! A personal task tracker: a flat-file record codec, an adaptive column-width
//! tracker, the store operations built on them, and an aligned table renderer.

pub mod error;
pub mod text;
pub mod task;
pub mod meta;
pub mod store;
pub mod table;
pub mod tasker;
