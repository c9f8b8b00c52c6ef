//! A verified library for the todo.txt plain-text task format.
//!
//! A task line consists of optional structured prefix fields (a done marker,
//! a priority, up to two dates) followed by a free-text description.  The
//! library parses such a line into a [`TodoEntry`], formats an entry back
//! into its canonical line, and extracts the typed [`Tag`]s embedded in a
//! description.

pub mod entry;
pub mod scan;
pub mod tags;

pub use entry::TodoEntry;
pub use tags::Tag;
