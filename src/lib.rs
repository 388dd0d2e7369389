//! Rendering of lint findings for a terminal: grouping by file, line diffs
//! of suggested fixes, context windows around reported lines, and error
//! chains. The library produces styled spans; writing them is the caller's.

pub mod text;
pub mod style;
pub mod window;
pub mod diff;
pub mod chain;
pub mod order;
pub mod message;
pub mod report;
