//! Search recorded data flows of a program for patterns written in a small
//! query language.
use vstd::prelude::*;

pub mod data;
pub mod laws;
pub mod query;
pub mod text;

use crate::query::{compile, query_view, CompileError, QueryOps};

verus! {

/// What the command line gives: the file of data flows, the query text, and
/// the query it compiles to.
pub struct Config {
    pub data_json: String,
    pub query_json: String,
    pub query: Vec<QueryOps>,
}

/// Why a command line is not a configuration.
#[derive(Debug, Clone, Copy, PartialEq, Eq, Structural)]
pub enum ConfigError {
    /// fewer than two arguments after the program's name
    TooFewArguments,
    /// the query text does not compile
    Query(CompileError),
}

impl ConfigError {
    /// A sentence that tells the user what is wrong.
    pub fn reason(&self) -> (r: &'static str)
        ensures
            r@ == match self {
                ConfigError::TooFewArguments => "Too few arguments! Usage: <data_json_path> <queries_json_path>"@,
                ConfigError::Query(e) => e.kind.reason_text(),
            },
    {
        match self {
            ConfigError::TooFewArguments => "Too few arguments! Usage: <data_json_path> <queries_json_path>",
            ConfigError::Query(e) => e.kind.reason(),
        }
    }
}

impl Config {
    /// The configuration that the command line `args` (the program's name
    /// first) gives: the path of the data flows, then the query text.
    pub fn build(args: &[String]) -> (r: Result<Config, ConfigError>)
        ensures
            args@.len() < 3 ==> r == Err::<Config, ConfigError>(ConfigError::TooFewArguments),
            args@.len() >= 3 ==> match compile(args@[2]@) {
                Ok(ps) => r matches Ok(c) && c.data_json@ == args@[1]@ && c.query_json@
                    == args@[2]@ && query_view(c.query@) == ps,
                Err(e) => r == Err::<Config, ConfigError>(ConfigError::Query(e)),
            },
    {
        if args.len() < 3 {
            return Err(ConfigError::TooFewArguments);
        }
        let data_json = args[1].clone();
        let query_json = args[2].clone();
        match QueryOps::parse_query(query_json.as_str()) {
            Ok(query) => Ok(Config { data_json, query_json, query }),
            Err(e) => Err(ConfigError::Query(e)),
        }
    }
}

} // verus!
