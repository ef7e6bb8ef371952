//! What a run of the search is asked to do, and the run itself on a text
//! that is already in memory.

use crate::search::{matching_lines, search_case_insensitive, search_case_sensitive};
use vstd::prelude::*;
use vstd::string::*;

verus! {

/// The query, the name of the file to search, and whether letter case counts.
pub struct Config {
    pub query: String,
    pub filename: String,
    pub case_sensitive: bool,
}

impl Config {
    /// Reads the configuration off the argument list of the process.
    ///
    /// `args` is the whole list: the program's name stands first and is
    /// passed over, the query follows it, and the file name follows the
    /// query. Further arguments are ignored. `case_insensitive` says
    /// whether the variable `CASE_INSENSITIVE` is set in the environment,
    /// to whatever value; case counts exactly when it is not.
    pub fn new(args: &[String], case_insensitive: bool) -> (outcome: Result<Config, &'static str>)
        ensures
            outcome is Ok <==> args@.len() >= 3,
            outcome matches Ok(config) ==> {
                &&& config.query@ == args@[1]@
                &&& config.filename@ == args@[2]@
                &&& config.case_sensitive == !case_insensitive
            },
            args@.len() < 2 <==> (outcome matches Err(message) && message@
                == "missing query string"@),
            args@.len() == 2 <==> (outcome matches Err(message) && message@
                == "missing file name"@),
    {
        proof {
            reveal_strlit("missing query string");
            reveal_strlit("missing file name");
            assert("missing query string"@.len() == 20);
            assert("missing file name"@.len() == 17);
        }
        if args.len() < 2 {
            return Err("missing query string");
        }
        if args.len() < 3 {
            return Err("missing file name");
        }
        Ok(
            Config {
                query: args[1].clone(),
                filename: args[2].clone(),
                case_sensitive: !case_insensitive,
            },
        )
    }
}

/// Searches `contents`, the text of the file that `config` names, as
/// `config` asks: for its query, with or without regard to case. The lines
/// that come back are the ones to print, in this order.
pub fn run<'a>(config: Config, contents: &'a str) -> (lines: Vec<&'a str>)
    ensures
        lines.deep_view() == matching_lines(config.query@, contents@, config.case_sensitive),
        forall|i: int|
            0 <= i < lines@.len() ==> (#[trigger] lines@[i])@ == matching_lines(
                config.query@,
                contents@,
                config.case_sensitive,
            )[i],
{
    if config.case_sensitive {
        search_case_sensitive(config.query.as_str(), contents)
    } else {
        search_case_insensitive(config.query.as_str(), contents)
    }
}

} // verus!
