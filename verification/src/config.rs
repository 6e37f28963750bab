//! The configuration of one search invocation.

use vstd::prelude::*;

verus! {

/// A validated search request: what to look for, in which file, and whether
/// case matters.
#[derive(Debug)]
pub struct Config {
    pub query: String,
    pub filename: String,
    pub case_sensitive: bool,
}

impl Config {
    /// Build a configuration from the positional arguments (the query
    /// first, then the file name) and the state of the case-insensitivity
    /// toggle. Fails, naming the missing argument, exactly when fewer than
    /// two arguments are given.
    pub fn new(args: &Vec<String>, case_insensitive: bool) -> (r: Result<
        Config,
        &'static str,
    >)
        ensures
            args@.len() >= 2 ==> (r matches Ok(c) && c.query@ == args@[0]@ && c.filename@
                == args@[1]@ && c.case_sensitive == !case_insensitive),
            args@.len() == 0 ==> (r matches Err(e) && e@ == "Didn't get a query string"@),
            args@.len() == 1 ==> (r matches Err(e) && e@ == "Didn't get a file name"@),
    {
        if args.len() == 0 {
            return Err("Didn't get a query string");
        }
        if args.len() == 1 {
            return Err("Didn't get a file name");
        }
        let query = args[0].clone();
        let filename = args[1].clone();
        Ok(Config { query, filename, case_sensitive: !case_insensitive })
    }
}

} // verus!
