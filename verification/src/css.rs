//! Style text: its tokens, and the object model parsed from them.

pub mod token;
pub mod cssom;
pub mod writer;
