//! The configuration of one search run, and choosing the matcher it asks for.

use vstd::prelude::*;

use crate::search::{matching_lines, matching_lines_ignore_case, search, search_case_sensitive};
use crate::text::str_views;

verus! {

/// What one run searches for, where, and whether letter case is ignored.
pub struct Config {
    pub query: String,
    pub file_path: String,
    pub ignore_case: bool,
}

/// Message for a command line without a query.
pub const NO_QUERY: &'static str = "No query string provided";

/// Message for a command line with a query but no file path.
pub const NO_FILE_PATH: &'static str = "No file path provided";

impl Config {
    /// Builds a configuration from the command line `args`, whose first entry
    /// is the program's own path and is skipped; the next two are the query
    /// and the file path, and any further ones are ignored. `ignore_case` is
    /// whether case-insensitive search was asked for.
    pub fn build(args: Vec<String>, ignore_case: bool) -> (r: Result<Config, &'static str>)
        ensures
            args.len() <= 1 ==> r == Err::<Config, &'static str>(NO_QUERY),
            args.len() == 2 ==> r == Err::<Config, &'static str>(NO_FILE_PATH),
            args.len() >= 3 <==> r is Ok,
            r matches Ok(c) ==> c.query@ == args[1]@ && c.file_path@ == args[2]@
                && c.ignore_case == ignore_case,
    {
        if args.len() <= 1 {
            return Err(NO_QUERY);
        }
        if args.len() == 2 {
            return Err(NO_FILE_PATH);
        }
        let query = args[1].clone();
        let file_path = args[2].clone();
        Ok(Config { query, file_path, ignore_case })
    }
}

/// The lines of `contents` that match `config`: case-insensitive search when
/// `config.ignore_case` is set, exact search otherwise. Exactly one of the two
/// runs.
pub fn search_by_config<'a>(config: &Config, contents: &'a str) -> (r: Vec<&'a str>)
    ensures
        config.ignore_case ==> str_views(r@) == matching_lines_ignore_case(
            config.query@,
            contents@,
        ),
        !config.ignore_case ==> str_views(r@) == matching_lines(config.query@, contents@),
{
    if config.ignore_case {
        search_case_sensitive(config.query.as_str(), contents)
    } else {
        search(config.query.as_str(), contents)
    }
}

} // verus!
