//! The end-to-end pipeline: raw legacy-dialect text in, target-dialect text
//! out, or a message naming the stage and the offending text.

use vstd::prelude::*;

use crate::lexer::{tokenize_spec, Lexer};
use crate::text::concat2;
use crate::writer::{assemble_spec, render_spec, Writer};

verus! {

pub struct CodeGenerator;

impl CodeGenerator {
    /// Converts a whole legacy-dialect document into target-dialect text.
    /// The first failure of any stage aborts the conversion: there is no
    /// partial output.
    pub fn generate_module(input: &str) -> (r: Result<String, String>)
        ensures
            ({
                let tok = tokenize_spec(input@);
                match r {
                    Ok(s) => tok is Ok && assemble_spec(tok->Ok_0) is Ok && s@ == render_spec(
                        assemble_spec(tok->Ok_0)->Ok_0,
                    ),
                    Err(e) => (tok is Err && e@ == "Parsing failed: "@ + tok->Err_0.0) || (
                    tok is Ok && assemble_spec(tok->Ok_0) is Err && e@ == "Assembly failed: "@
                        + assemble_spec(tok->Ok_0)->Err_0.1),
                }
            }),
    {
        let lexer = Lexer::new(String::from_str(input));
        match lexer.parse() {
            Err(f) => Err(concat2("Parsing failed: ", f.line.as_str())),
            Ok(lines) => match Writer::generate_module(lines) {
                Err(f) => Err(concat2("Assembly failed: ", f.detail.as_str())),
                Ok(m) => Ok(m.render()),
            },
        }
    }
}

} // verus!
