//! Card-collection browser: a cursor-based search editor, a case-folded
//! substring filter over merged per-owner collections, and the key-driven
//! application state that ties them together.

pub mod app;
pub mod collection;
pub mod text;
