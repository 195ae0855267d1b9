//! A persistent rope of bytes held in a red-black tree, a generic summed tree, and the
//! editing logic built on them.
pub mod app;
pub mod buffer;
pub mod byte_editor;
pub mod bytes;
pub mod chars;
pub mod commands;
pub mod cursor;
pub mod edit;
pub mod editor;
pub mod iter;
pub mod lines;
pub mod metrics;
pub mod nav;
pub mod point;
pub mod rope;
pub mod selector;
pub mod slab;
pub mod sumtree;
pub mod term;
pub mod theme;
pub mod tree;
pub mod ui;
pub mod util;
