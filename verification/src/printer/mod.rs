//! The formatter that renders matching lines: with the path of the file,
//! line and column numbers, and the matches in colour.

pub mod color;
pub mod counter;
pub mod stats;
pub mod util;
pub mod standard;
