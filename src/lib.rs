//! Rendering of nested block and inline content into plain text of a fixed
//! width, behind one capability interface with interchangeable backends.

pub mod render;
