//! A personal journal: richly formatted entries (text, media, lists, links)
//! modelled as a tree of block- and span-level nodes, and a rendering engine
//! that walks that tree and produces HTML with all user text escaped.

pub mod error;
pub mod html;
pub mod journal;
pub mod model;
pub mod text;
