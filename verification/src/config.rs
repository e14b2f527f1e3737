//! Configuration resolution: validating the raw argument list and the
//! case-override signal, and producing the typed configuration that selects
//! the matching mode.

use vstd::prelude::*;

verus! {

/// Why configuration resolution failed.
#[derive(Debug, PartialEq, Eq, Structural, Clone, Copy)]
pub enum ConfigError {
    /// The argument list held fewer than three elements (program name, query,
    /// filename).
    InsufficientArguments,
}

/// The resolved, validated invocation parameters. `case_sensitive` is fixed at
/// construction and selects which matching mode the search runs in.
#[derive(Debug, PartialEq, Eq)]
pub struct Config {
    pub query: String,
    pub filename: String,
    pub case_sensitive: bool,
}

impl Config {
    /// Resolve a configuration from the raw argument list and the
    /// case-override signal (`case_override` says whether the environment
    /// requested case-insensitive matching; its mere presence decides,
    /// whatever its value). `args[1]` becomes the query and `args[2]` the
    /// filename, both cloned into owned storage; extra elements are ignored;
    /// fewer than three elements are rejected.
    pub fn new(args: &[String], case_override: bool) -> (r: Result<Config, ConfigError>)
        ensures
            args@.len() < 3 ==> r == Err::<Config, ConfigError>(
                ConfigError::InsufficientArguments,
            ),
            args@.len() >= 3 ==> {
                &&& r is Ok
                &&& r->Ok_0.query@ == args@[1]@
                &&& r->Ok_0.filename@ == args@[2]@
                &&& r->Ok_0.case_sensitive == !case_override
            },
    {
        if args.len() < 3 {
            return Err(ConfigError::InsufficientArguments);
        }
        let query = args[1].clone();
        let filename = args[2].clone();
        let case_sensitive = !case_override;
        Ok(Config { query, filename, case_sensitive })
    }
}

} // verus!
