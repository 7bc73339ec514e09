//! Verified core of the tweet query visualizer: the mutual-reply triangle
//! search, the browsing state of the viewer, the text shown for each record,
//! the batching of newline-delimited JSON into bulk inserts, and the cell
//! geometry used to draw the wireframe.

pub mod app;
pub mod canvas;
pub mod graph;
pub mod loader;
pub mod names;
pub mod records;
pub mod text;
pub mod triangle;
