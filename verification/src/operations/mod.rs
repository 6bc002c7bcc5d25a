//! What each operation is for.
//!
//! The laws here speak of the operations themselves: of what a call was given
//! and of what came back. They are stated over the fields of the arguments and
//! results.

pub mod accepting;
pub mod arithmetic;
pub mod checking;
pub mod coding;
pub mod committing;
pub mod compiling;
pub mod constraining;
pub mod grouping_oracles;
pub mod proving;
pub mod reading;
pub mod transcripts;
pub mod verifying;
