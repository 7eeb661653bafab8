//! A small line-oriented substring search library.
//!
//! The library splits a block of text into lines and filters them by
//! substring containment, either exactly or case-insensitively. Both
//! operations are pure and carry contracts that pin their results down
//! over sequence-of-character models of the inputs.

use vstd::prelude::*;

pub mod lines;
pub mod matcher;

use lines::{spec_split_lines, split_lines, views_of};
use matcher::{find_matches, matching_lines, MatchPolicy};

verus! {

/// The lines of `contents` that match `query` under `policy`, in their
/// original order: the model of every search entry point.
pub open spec fn spec_search(query: Seq<char>, contents: Seq<char>, policy: MatchPolicy) -> Seq<
    Seq<char>,
> {
    matching_lines(query, spec_split_lines(contents), policy)
}

/// The lines of `contents` that contain `query`, compared exactly,
/// in their original order.
pub fn search<'a>(query: &str, contents: &'a str) -> (result: Vec<&'a str>)
    ensures
        views_of(result@) == spec_search(query@, contents@, MatchPolicy::Exact),
{
    let line_slices = split_lines(contents);
    find_matches(query, &line_slices, MatchPolicy::Exact)
}

/// The lines of `contents` whose lowercase form contains the lowercase
/// form of `query`, in their original order.
pub fn search_case_insensitive<'a>(query: &str, contents: &'a str) -> (result: Vec<&'a str>)
    ensures
        views_of(result@) == spec_search(query@, contents@, MatchPolicy::CaseInsensitive),
{
    let line_slices = split_lines(contents);
    find_matches(query, &line_slices, MatchPolicy::CaseInsensitive)
}

/// The policy that a configuration selects.
pub open spec fn spec_policy_of(ignore_case: bool) -> MatchPolicy {
    if ignore_case {
        MatchPolicy::CaseInsensitive
    } else {
        MatchPolicy::Exact
    }
}

/// A resolved invocation: what to search for, where, and how.
pub struct Config {
    pub query: String,
    pub file_path: String,
    pub ignore_case: bool,
}

impl Config {
    /// Assemble a configuration from the two positional values and the
    /// case flag, rejecting a missing value with its distinct message.
    pub fn build_from(query: Option<String>, file_path: Option<String>, ignore_case: bool) -> (r:
        Result<Config, &'static str>)
        ensures
            match r {
                Ok(c) => {
                    &&& query is Some
                    &&& file_path is Some
                    &&& c.query == query->0
                    &&& c.file_path == file_path->0
                    &&& c.ignore_case == ignore_case
                },
                Err(m) => {
                    &&& query is None || file_path is None
                    &&& query is None ==> m@ == "No query string provided"@
                    &&& query is Some ==> m@ == "No file path provided"@
                },
            },
    {
        let query = match query {
            Some(q) => q,
            None => {
                return Err("No query string provided");
            },
        };
        let file_path = match file_path {
            Some(p) => p,
            None => {
                return Err("No file path provided");
            },
        };
        Ok(Config { query, file_path, ignore_case })
    }
}

/// Law: a search result is a function of the query, the contents and
/// the policy alone, so running the same search twice on unchanged
/// inputs yields identical, order-stable output.
pub proof fn lemma_search_deterministic(
    query: Seq<char>,
    contents: Seq<char>,
    policy: MatchPolicy,
    first_run: Seq<Seq<char>>,
    second_run: Seq<Seq<char>>,
)
    requires
        first_run == spec_search(query, contents, policy),
        second_run == spec_search(query, contents, policy),
    ensures
        first_run == second_run,
{
}

/// Search `contents` as a configuration directs: case-insensitively
/// where its flag is set, exactly otherwise.
pub fn run_search<'a>(config: &Config, contents: &'a str) -> (result: Vec<&'a str>)
    ensures
        views_of(result@) == spec_search(
            config.query@,
            contents@,
            spec_policy_of(config.ignore_case),
        ),
{
    if config.ignore_case {
        search_case_insensitive(config.query.as_str(), contents)
    } else {
        search(config.query.as_str(), contents)
    }
}

} // verus!
