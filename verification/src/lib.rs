//! Core logic of a small application launcher: a bounded wrapping cursor
//! over a candidate list, parsing of the discovered program list, the
//! per-frame fuzzy filter and length sort, search-bar editing, the key
//! handling that drives the frame loop, and the row layout of the window.

pub mod cursor;
pub mod launcher;
pub mod matching;
pub mod position;
pub mod programs;
pub mod views;
