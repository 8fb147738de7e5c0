//! Line-ending detection, normalization and conversion for text, and a cursor
//! that reads line endings off a stream of characters while leaving escaped
//! look-alikes (a backslash followed by `r` or `n`) as content.

pub mod lemmas;
pub mod line_ending;
pub mod peekable_ext;
pub mod text;

pub use line_ending::{LineEnding, LineEndingError, LineEndingScores};
pub use peekable_ext::{CharCursor, PeekableLineEndingExt};
