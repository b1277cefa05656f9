//! Distils continuous-integration job logs into a short excerpt and a single
//! representative error line.
//!
//! Logs are handled as byte strings throughout: every marker the library looks
//! for is ASCII, and the contracts are stated over `Seq<u8>`.

pub mod strip_ansi;
pub mod text;
pub mod lines;
pub mod tail;
pub mod markers;
pub mod encoding;
pub mod normalize;
pub mod excerpt;
pub mod error_line;
pub mod github;
pub mod number;
pub mod period;
pub mod report;
pub mod html;
