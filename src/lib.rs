//! The lexical core of a recursive-descent parser: decoding the bodies of
//! quoted and raw literals, and skipping white space and comments between
//! tokens.

pub mod cursor;
pub mod escape;
pub mod helper;
pub mod space;
pub mod unicode;
