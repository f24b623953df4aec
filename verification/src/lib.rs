//! Reading where a file came from: command-line parsing, the selection of
//! recorded origins, and the formatting of output records.

/// The text of `--help` and `--version`.
pub mod cli;
/// Selection of the origin strings recorded for a file.
pub mod origins;
/// Command-line argument parsing.
pub mod parser;
/// Output formatting helpers.
pub mod printer;
