//! The source tokenizer: splits raw input into lines and classifies each one.

use vstd::prelude::*;

use crate::block::{classify_spec, BlockParser};
use crate::errors::{LexError, LexFailure};
use crate::param::{BenchmarkParameter, ParamView};
use crate::text::{capture, find_char, find_char_from};

verus! {

/// The syntactic role of one classified input line.
#[derive(Clone, Copy, Debug, PartialEq, Eq, Structural)]
pub enum LineKind {
    /// A module header (the benchmark macro keyword).
    Mod,
    /// A benchmark function declaration.
    Fn,
    /// A range parameter declaration.
    FnParam,
    /// A verify block header.
    Verify,
    /// An assertion line.
    Ensure,
    /// The measured-call shorthand line.
    Extrinsic,
    /// Opaque passthrough content.
    Content,
}

/// One physical input line after classification.
///
/// Exactly one of `head`, `content` and `param_content` carries the payload,
/// selected by `kind`; `fn_body` is independent and present only for
/// `Fn` and `Verify` lines.
#[derive(Clone, Debug)]
pub struct BenchmarkLine {
    pub head: Option<String>,
    pub kind: LineKind,
    pub content: Option<String>,
    pub param_content: Option<BenchmarkParameter>,
    pub fn_body: Option<String>,
}

/// The mathematical model of a classified line.
#[verifier::ext_equal]
pub struct LineView {
    pub head: Option<Seq<char>>,
    pub kind: LineKind,
    pub content: Option<Seq<char>>,
    pub param: Option<ParamView>,
    pub body: Option<Seq<char>>,
}

pub open spec fn view_opt_str(o: Option<String>) -> Option<Seq<char>> {
    match o {
        Some(s) => Some(s@),
        None => None,
    }
}

pub open spec fn view_opt_param(o: Option<BenchmarkParameter>) -> Option<ParamView> {
    match o {
        Some(p) => Some(p@),
        None => None,
    }
}

impl View for BenchmarkLine {
    type V = LineView;

    open spec fn view(&self) -> LineView {
        LineView {
            head: view_opt_str(self.head),
            kind: self.kind,
            content: view_opt_str(self.content),
            param: view_opt_param(self.param_content),
            body: view_opt_str(self.fn_body),
        }
    }
}

/// Holds the whole source text; classification of function lines looks up
/// their bodies in it.
pub struct Lexer(pub String);

impl View for Lexer {
    type V = Seq<char>;

    open spec fn view(&self) -> Seq<char> {
        self.0@
    }
}

/// The views of a sequence of classified lines.
pub open spec fn line_views(v: Seq<BenchmarkLine>) -> Seq<LineView> {
    Seq::new(v.len(), |i: int| v[i]@)
}

/// The lines of the input, split on line boundaries.
pub open spec fn lines_spec(s: Seq<char>) -> Seq<Seq<char>>
    decreases s.len(),
{
    let j = find_char(s, 0, '\n');
    if 0 <= j < s.len() {
        seq![s.subrange(0, j)] + lines_spec(s.subrange(j + 1, s.len() as int))
    } else {
        seq![s]
    }
}

/// Classification of every line in order; the first failure aborts the pass
/// and names the offending line.
pub open spec fn classify_all(ls: Seq<Seq<char>>, src: Seq<char>) -> Result<
    Seq<LineView>,
    (Seq<char>, LexError),
>
    decreases ls.len(),
{
    if ls.len() == 0 {
        Ok(Seq::empty())
    } else {
        match classify_spec(ls[0], src) {
            Ok(lv) => match classify_all(ls.drop_first(), src) {
                Ok(rest) => Ok(seq![lv] + rest),
                Err(e) => Err(e),
            },
            Err(e) => Err((ls[0], e)),
        }
    }
}

/// The whole tokenizer: an empty document is an error, not an empty success.
pub open spec fn tokenize_spec(src: Seq<char>) -> Result<Seq<LineView>, (Seq<char>, LexError)> {
    if src.len() == 0 {
        Err((src, LexError::NoLines))
    } else {
        classify_all(lines_spec(src), src)
    }
}

/// Classifies `rem`, line by line; `lexer` holds the whole source.
fn tokenize_lines(rem: &str, lexer: &Lexer) -> (r: Result<Vec<BenchmarkLine>, LexFailure>)
    ensures
        ({
            let m = classify_all(lines_spec(rem@), lexer@);
            match r {
                Ok(v) => m is Ok && line_views(v@) == m->Ok_0,
                Err(f) => m is Err && f.line@ == m->Err_0.0 && f.error == m->Err_0.1,
            }
        }),
    decreases rem@.len(),
{
    let n = rem.unicode_len();
    let j = find_char_from(rem, 0, '\n');
    if j < n {
        let line = capture(rem, 0, j);
        let tail = capture(rem, j + 1, n);
        proof {
            assert(lines_spec(rem@) =~= seq![line@] + lines_spec(tail@));
            assert((seq![line@] + lines_spec(tail@)).drop_first() =~= lines_spec(tail@));
        }
        match BlockParser::dispatch(line.as_str(), lexer) {
            Ok(bl) => match tokenize_lines(tail.as_str(), lexer) {
                Ok(rest) => {
                    let ghost rest0 = rest@;
                    let mut v: Vec<BenchmarkLine> = Vec::new();
                    v.push(bl);
                    let mut rest = rest;
                    v.append(&mut rest);
                    proof {
                        assert((seq![line@] + lines_spec(tail@))[0] == line@);
                        assert(line_views(v@) =~= seq![v@[0]@] + line_views(rest0));
                        assert(line_views(v@) =~= classify_all(lines_spec(rem@), lexer@)->Ok_0);
                    }
                    Ok(v)
                },
                Err(f) => Err(f),
            },
            Err(e) => Err(LexFailure { line, error: e }),
        }
    } else {
        proof {
            assert(lines_spec(rem@) =~= seq![rem@]);
        }
        match BlockParser::dispatch(rem, lexer) {
            Ok(bl) => {
                let mut v: Vec<BenchmarkLine> = Vec::new();
                v.push(bl);
                proof {
                    let ls = seq![rem@];
                    assert(ls.drop_first() =~= Seq::<Seq<char>>::empty());
                    assert(classify_all(ls.drop_first(), lexer@) is Ok);
                    assert(classify_all(ls.drop_first(), lexer@)->Ok_0 =~= Seq::<LineView>::empty());
                    assert(line_views(v@) =~= seq![v@[0]@] + classify_all(
                        ls.drop_first(),
                        lexer@,
                    )->Ok_0);
                }
                Ok(v)
            },
            Err(e) => Err(LexFailure { line: String::from_str(rem), error: e }),
        }
    }
}

/// A document with no lines at all is rejected as an error, never treated as
/// an empty success.
pub proof fn lemma_empty_document_rejected(src: Seq<char>)
    requires
        src.len() == 0,
    ensures
        tokenize_spec(src) is Err,
        tokenize_spec(src)->Err_0.1 == LexError::NoLines,
{
}

impl Lexer {
    pub fn new(input: String) -> (r: Self)
        ensures
            r@ == input@,
    {
        Lexer(input)
    }

    /// Splits the source into lines, classifies each one in order, and fails
    /// fast on the first line that cannot be classified.  A document with no
    /// lines at all is an error, not an empty success.
    pub fn parse(&self) -> (r: Result<Vec<BenchmarkLine>, LexFailure>)
        ensures
            ({
                let m = tokenize_spec(self@);
                match r {
                    Ok(v) => m is Ok && line_views(v@) == m->Ok_0,
                    Err(f) => m is Err && f.line@ == m->Err_0.0 && f.error == m->Err_0.1,
                }
            }),
    {
        if self.0.as_str().unicode_len() == 0 {
            return Err(LexFailure { line: String::new(), error: LexError::NoLines });
        }
        tokenize_lines(self.0.as_str(), self)
    }
}

} // verus!
