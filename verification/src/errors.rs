//! The failure taxonomy of the conversion pipeline.
//!
//! Every stage fails fast: the first error aborts the whole conversion and
//! carries the offending line or fragment back to the caller.

use vstd::prelude::*;

verus! {

/// Why a parameter declaration failed to parse.
#[derive(Clone, Copy, Debug, PartialEq, Eq, Structural)]
pub enum ParamError {
    /// The line does not begin with the declaration keyword.
    MissingLet,
    /// No identifier follows the declaration keyword.
    MissingName,
    /// The membership keyword is missing after the identifier.
    MissingIn,
    /// The lower bound is not a number between 0 and 255.
    BadRangeStart,
    /// The two-character range operator is missing after the lower bound.
    MissingRangeOp,
    /// Neither a statement terminator nor a forwarding arrow closes the
    /// upper bound.
    MissingTerminator,
    /// The upper bound is empty.
    EmptyRangeEnd,
    /// The line is not a parameter declaration at all.
    NotParameter,
}

/// Why a line could not be classified.
#[derive(Clone, Copy, Debug, PartialEq, Eq, Structural)]
pub enum LexError {
    /// The input holds no lines at all.
    NoLines,
    /// A line starting with the module keyword is not a module header.
    BadModuleHeader,
    /// A parameter declaration line failed to parse.
    BadParameter(ParamError),
    /// An assertion line is missing its wrapping call syntax.
    BadEnsure,
    /// A function-declaration line holds no function name.
    BadFunction,
    /// No delimiter pair for the function body was found in the source.
    BodyNotFound,
}

/// A classification failure together with the offending line.
#[derive(Clone, Debug)]
pub struct LexFailure {
    pub line: String,
    pub error: LexError,
}

/// Why the assembler rejected a classified line sequence.
#[derive(Clone, Copy, Debug, PartialEq, Eq, Structural)]
pub enum AssembleError {
    /// Parameter, verify or extrinsic content with no open function.
    NoOpenFunction,
    /// A cleaned body does not parse as a statement block.
    BodyUnparsable,
    /// A signature without a parameter-list delimiter pair.
    BadSignature,
    /// No doubled closing brace was found to adjust.
    NoMisplacedBracket,
}

/// An assembly failure together with the offending text.
#[derive(Clone, Debug)]
pub struct AssembleFailure {
    pub error: AssembleError,
    pub detail: String,
}

} // verus!
