//! Builds a graph of wiki-style links (`[[name]]`) between markdown notes and
//! turns it into a node/edge structure ready to be written out as JSON.

pub mod args;
pub mod export;
pub mod graph;
pub mod links;
