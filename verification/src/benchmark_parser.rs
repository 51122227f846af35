//! The standalone recognizer for the module-header keyword.

use vstd::prelude::*;

use crate::block::{benchmark_spec, BlockParser};
use crate::errors::LexError;

verus! {

pub struct BenchmarkParser;

impl BenchmarkParser {
    /// Recognizes the plain or instance-scoped benchmark keyword at the
    /// start of a line, returning the remaining text and the variant.
    pub fn parse_benchmark(input: &str) -> (r: Result<(String, String), LexError>)
        ensures
            ({
                let m = benchmark_spec(input@);
                match r {
                    Ok(p) => m is Ok && p.0@ == m->Ok_0.0 && p.1@ == m->Ok_0.1,
                    Err(e) => m is Err && e == m->Err_0,
                }
            }),
    {
        BlockParser::benchmark(input)
    }
}

} // verus!
