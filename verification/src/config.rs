use vstd::prelude::*;

verus! {

/// The immutable configuration of one search run, built once from process
/// input and passed by reference into each stage.
///
/// `pattern` is matched against every surviving path, as a literal substring
/// or, when `use_regex` is set, as a regular expression. An empty `action`
/// means print mode. `depth` is accepted but not consulted by the traversal;
/// it is kept so that a caller's choice is not silently lost.
pub struct Config {
    pub root: String,
    pub pattern: String,
    pub action: String,
    pub use_regex: bool,
    pub file_only: bool,
    pub dir_only: bool,
    pub verbose: bool,
    pub depth: Option<u64>,
}

} // verus!
