//! Draws a SAS fabric topology as an SVG document.
//!
//! The fabric is a directed graph of initiators, ports, expanders and targets. It is read
//! from its document form ([`topology`]) into a graph ([`digraph`]), walked from its
//! initiators ([`walk`]), laid out in columns ([`layout`]) and drawn ([`drawing`]).
//! [`rendering`] does all of it.
//!
//! [`laws`] states what holds of every fabric, and the modules whose names end in `_laws`
//! what holds of reading it, of the walk, of the layout and of the drawing.

pub mod config;
pub mod digraph;
pub mod digraph_laws;
pub mod drawing;
pub mod drawing_laws;
pub mod elements;
pub mod ending;
pub mod laws;
pub mod layout;
pub mod layout_laws;
pub mod markup;
pub mod paths;
pub mod reading_laws;
pub mod rendering;
pub mod script;
pub mod text;
pub mod text_laws;
pub mod topology;
pub mod walk;
pub mod walking_laws;

pub use crate::config::Config;
pub use crate::digraph::{EXPANDER, INITIATOR, PORT, TARGET};
