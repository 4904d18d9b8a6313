use vstd::prelude::*;

use crate::config::Config;
use crate::entry::Entry;
use crate::error::SmeError;
use crate::executor::{command_line, execute};
use crate::filter::{filter_entries, matched_paths, regex_compiles};

verus! {

/// The whole pipeline after the traversal: filters the discovered entries
/// by the configuration and hands the surviving paths to the executor.
/// Print mode cannot fail once the pattern compiles; the pattern error
/// comes exactly when regex mode is on and the pattern does not compile;
/// and an action error names the failing position in the matched sequence
/// and the command line that was run for it.
pub fn run_pipeline(entries: &Vec<Entry>, config: &Config) -> (r: Result<(), SmeError>)
    ensures
        (!config.use_regex || regex_compiles(config.pattern@)) && config.action@.len() == 0
            ==> r is Ok,
        (r matches Err(e) && e.is_pattern_error()) <==> (config.use_regex && !regex_compiles(
            config.pattern@,
        )),
        r matches Err(e) ==> (e matches SmeError::ActionFailed { index, command, .. }
            ==> config.action@.len() > 0 && index < matched_paths(
            entries@,
            config.pattern@,
            config.use_regex,
            config.file_only,
            config.dir_only,
        ).len() && command@ == command_line(
            config.action@,
            matched_paths(
                entries@,
                config.pattern@,
                config.use_regex,
                config.file_only,
                config.dir_only,
            )[index as int],
        )),
{
    let paths = filter_entries(entries, config)?;
    execute(&paths, config.action.as_str())
}

} // verus!
