//! Extraction of pages and links from a Wikipedia XML dump, the link graph
//! built from them, and shortest-walk search over that graph.

pub mod counts;
pub mod graph;
pub mod ids;
pub mod json;
pub mod links;
pub mod matcher;
pub mod page;
pub mod parser;
pub mod rank;
pub mod redirects;
pub mod size;
