//! A streaming, line-oriented search engine: a growable line buffer, a
//! pattern compiler built on `regex-syntax` and `regex-automata`, a search
//! driver that reports matching lines, and a formatter that renders them.

pub mod matcher;
pub mod printer;
pub mod pattern;
pub mod searcher;
