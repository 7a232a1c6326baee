//! The plain request shapes the broker consumes at its boundary.
//!
//! The surrounding transport decodes its wire format into these values and
//! hands them over; nothing here carries any framing.

use vstd::prelude::*;

verus! {

/// Arguments and standard-input lines for a command invocation.
pub struct ArgsInputs {
    pub args: Option<Vec<String>>,
    pub inputs: Option<Vec<String>>,
}

/// A script path plus optional positional parameters.
pub struct PathParams {
    pub path: String,
    pub params: Option<Vec<String>>,
}

/// A single path, for one-path file system requests.
pub struct OnePath {
    pub path: String,
}

/// An origin and a destination, for two-path file system requests.
pub struct TwoPath {
    pub origin: String,
    pub destiny: String,
}

/// A path with the data to write there, possibly base64 transported.
pub struct PathData {
    pub path: String,
    pub base64: bool,
    pub data: String,
}

} // verus!
