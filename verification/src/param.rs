//! The range/parameter extractor.
//!
//! A parameter declaration line has the shape
//! `let <name> in <lower> .. <upper><terminator>` where the terminator is
//! either the statement end `;` or the forwarding arrow `=>`.  The extractor
//! returns the pieces; the arrow's right-hand side is left for the caller.

use vstd::prelude::*;

use crate::errors::{AssembleError, ParamError};
use crate::lexer::{BenchmarkLine, LineKind, LineView};
use crate::text::{
    alpha_end, capture, capture_trimmed, contains_char, contains_char_exec, contains_sub,
    contains_sub_exec, digit_end, find_char, find_char_from, find_sub, find_sub_from,
    is_alpha_char, is_alpha_exec, is_digit_char, match_at, match_at_exec, scan_alpha, scan_digits,
    scan_word, skip_ws, trim, trim_spec, word_end, ws_end, concat2, concat3, is_ws_char,
    lemma_find_char_is, lemma_find_sub_is, lemma_rev_ws_start_is, lemma_run_end_is,
};

verus! {

/// Which terminator closed the upper bound of a range parameter.
#[derive(Clone, Copy, Debug, PartialEq, Eq, Structural)]
pub enum RangeTerminator {
    /// The statement end `;`.
    Statement,
    /// The forwarding arrow `=>`.
    Arrow,
}

/// One range-bounded benchmark input.
#[derive(Clone, Debug)]
pub struct BenchmarkParameter {
    pub name: String,
    pub range_start: u8,
    pub range_end: String,
    pub terminator: RangeTerminator,
}

/// The mathematical model of a parameter.
#[verifier::ext_equal]
pub struct ParamView {
    pub name: Seq<char>,
    pub range_start: u8,
    pub range_end: Seq<char>,
    pub terminator: RangeTerminator,
}

impl View for BenchmarkParameter {
    type V = ParamView;

    open spec fn view(&self) -> ParamView {
        ParamView {
            name: self.name@,
            range_start: self.range_start,
            range_end: self.range_end@,
            terminator: self.terminator,
        }
    }
}

impl Default for BenchmarkParameter {
    fn default() -> (r: Self)
        ensures
            r@.name == Seq::<char>::empty(),
            r@.range_start == 0,
            r@.range_end == Seq::<char>::empty(),
            r@.terminator == RangeTerminator::Statement,
    {
        BenchmarkParameter {
            name: String::new(),
            range_start: 0,
            range_end: String::new(),
            terminator: RangeTerminator::Statement,
        }
    }
}

/// The upper bound of a range: a bare constant token or an expression.
#[derive(Clone, Debug, PartialEq, Eq)]
pub enum RangeEndKind {
    Constant(String),
    Expression(String),
}

pub struct ParamParser;

pub struct ParamWriter;

// ---------------------------------------------------------------------------
// Decimal digits
// ---------------------------------------------------------------------------

pub open spec fn digit_of(c: char) -> int {
    c as u32 - 48
}

/// The numeric value of a digit sequence, most significant digit first.
pub open spec fn digits_val(s: Seq<char>) -> int
    decreases s.len(),
{
    if s.len() == 0 {
        0
    } else {
        digits_val(s.drop_last()) * 10 + digit_of(s.last())
    }
}

pub proof fn lemma_digits_val_extend(s: Seq<char>, from: int, k: int)
    requires
        0 <= from <= k < s.len(),
    ensures
        digits_val(s.subrange(from, k + 1)) == digits_val(s.subrange(from, k)) * 10 + digit_of(
            s[k],
        ),
{
    assert(s.subrange(from, k + 1).drop_last() =~= s.subrange(from, k));
    assert(s.subrange(from, k + 1).last() == s[k]);
}

pub proof fn lemma_digits_val_grows(s: Seq<char>, from: int, k: int, to: int)
    requires
        0 <= from <= k <= to <= s.len(),
        forall|q: int| k <= q < to ==> is_digit_char(s[q]),
        digits_val(s.subrange(from, k)) > 255,
    ensures
        digits_val(s.subrange(from, to)) > 255,
    decreases to - k,
{
    if k < to {
        lemma_digits_val_extend(s, from, k);
        assert(digit_of(s[k]) >= 0);
        lemma_digits_val_grows(s, from, k + 1, to);
    }
}

/// Parses `t[from..to]`, a digit run, as a number no greater than 255.
fn parse_u8_in(t: &str, from: usize, to: usize) -> (r: Option<u8>)
    requires
        from <= to <= t@.len(),
        forall|k: int| from <= k < to ==> is_digit_char(t@[k]),
    ensures
        match r {
            Some(v) => digits_val(t@.subrange(from as int, to as int)) == v,
            None => digits_val(t@.subrange(from as int, to as int)) > 255,
        },
{
    let mut acc: u32 = 0;
    let mut k = from;
    while k < to
        invariant
            from <= k <= to <= t@.len(),
            acc <= 255,
            forall|q: int| from <= q < to ==> is_digit_char(t@[q]),
            acc == digits_val(t@.subrange(from as int, k as int)),
        decreases to - k,
    {
        let c = t.get_char(k);
        let d: u32 = (c as u32) - 48;
        proof {
            lemma_digits_val_extend(t@, from as int, k as int);
        }
        acc = acc * 10 + d;
        k = k + 1;
        if acc > 255 {
            proof {
                lemma_digits_val_grows(t@, from as int, k as int, to as int);
            }
            return None;
        }
    }
    proof {
        assert(t@.subrange(from as int, to as int) == t@.subrange(from as int, k as int));
    }
    Some(acc as u8)
}

// ---------------------------------------------------------------------------
// The declaration grammar
// ---------------------------------------------------------------------------

/// Result of the parameter extractor: the extracted parameter and the text
/// that remains after the terminator.
pub struct ParamParseOk {
    pub rest: Seq<char>,
    pub param: ParamView,
}

/// The upper-bound grammar at position `i` of the trimmed line `t`:
/// everything up to the next `;` (preferred) or up to the next `=>`.
pub open spec fn range_end_at(t: Seq<char>, i: int, name: Seq<char>, start: int) -> Result<
    ParamParseOk,
    ParamError,
> {
    let j_semi = find_char(t, i, ';');
    let j_arr = find_sub(t, i, "=>"@);
    if j_semi < t.len() {
        let end = trim_spec(t.subrange(i, j_semi));
        if end.len() == 0 {
            Err(ParamError::EmptyRangeEnd)
        } else {
            Ok(
                ParamParseOk {
                    rest: t.subrange(j_semi + 1, t.len() as int),
                    param: ParamView {
                        name: name,
                        range_start: start as u8,
                        range_end: end,
                        terminator: RangeTerminator::Statement,
                    },
                },
            )
        }
    } else if j_arr < t.len() {
        let end = trim_spec(t.subrange(i, j_arr));
        if end.len() == 0 {
            Err(ParamError::EmptyRangeEnd)
        } else {
            Ok(
                ParamParseOk {
                    rest: t.subrange(j_arr + 2, t.len() as int),
                    param: ParamView {
                        name: name,
                        range_start: start as u8,
                        range_end: end,
                        terminator: RangeTerminator::Arrow,
                    },
                },
            )
        }
    } else {
        Err(ParamError::MissingTerminator)
    }
}

/// The parameter declaration grammar, applied to the trimmed line:
/// `let <name> in <lower> .. <upper><; or =>>`.
pub open spec fn let_decl_spec(s: Seq<char>) -> Result<ParamParseOk, ParamError> {
    let t = trim_spec(s);
    if !match_at(t, 0, "let "@) {
        Err(ParamError::MissingLet)
    } else {
        let name_end = alpha_end(t, 4);
        if name_end == 4 {
            Err(ParamError::MissingName)
        } else {
            let i_in = ws_end(t, name_end);
            if !match_at(t, i_in, "in"@) {
                Err(ParamError::MissingIn)
            } else {
                let i_num = ws_end(t, i_in + 2);
                let num_end = digit_end(t, i_num);
                if num_end == i_num || digits_val(t.subrange(i_num, num_end)) > 255 {
                    Err(ParamError::BadRangeStart)
                } else {
                    let i_op = ws_end(t, num_end);
                    if !match_at(t, i_op, ".."@) {
                        Err(ParamError::MissingRangeOp)
                    } else {
                        range_end_at(
                            t,
                            i_op + 2,
                            t.subrange(4, name_end),
                            digits_val(t.subrange(i_num, num_end)),
                        )
                    }
                }
            }
        }
    }
}

/// Classification of a line that starts with the declaration keyword:
/// a line with a plain assignment operator is opaque content, anything else
/// must parse as a parameter declaration.
pub open spec fn param_dispatch_spec(s: Seq<char>) -> Result<LineView, ParamError> {
    let a = ws_end(s, 0);
    if match_at(s, a, "let "@) {
        if contains_char(s, '=') && !contains_sub(s, "=>"@) {
            Ok(
                LineView {
                    head: None,
                    kind: LineKind::Content,
                    content: Some(s),
                    param: None,
                    body: None,
                },
            )
        } else {
            match let_decl_spec(s) {
                Ok(ok) => Ok(
                    LineView {
                        head: None,
                        kind: LineKind::FnParam,
                        content: None,
                        param: Some(ok.param),
                        body: None,
                    },
                ),
                Err(e) => Err(e),
            }
        }
    } else {
        Err(ParamError::NotParameter)
    }
}

impl ParamParser {
    /// Extracts a parameter from a declaration line; returns the remaining
    /// text after the terminator and the parameter.
    pub fn let_declaration(input: &str) -> (r: Result<(String, BenchmarkParameter), ParamError>)
        ensures
            ({
                let m = let_decl_spec(input@);
                match r {
                    Ok(p) => m is Ok && p.0@ == m->Ok_0.rest && p.1@ == m->Ok_0.param,
                    Err(e) => m is Err && e == m->Err_0,
                }
            }),
    {
        proof {
            reveal_strlit("let ");
            reveal_strlit("in");
            reveal_strlit("..");
            reveal_strlit("=>");
        }
        let t_string = trim(input);
        let t = t_string.as_str();
        let n = t.unicode_len();
        if !match_at_exec(t, 0, "let ") {
            return Err(ParamError::MissingLet);
        }
        let name_end = scan_alpha(t, 4);
        if name_end == 4 {
            return Err(ParamError::MissingName);
        }
        let i_in = skip_ws(t, name_end);
        if !match_at_exec(t, i_in, "in") {
            return Err(ParamError::MissingIn);
        }
        let i_num = skip_ws(t, i_in + 2);
        let num_end = scan_digits(t, i_num);
        if num_end == i_num {
            return Err(ParamError::BadRangeStart);
        }
        let start = match parse_u8_in(t, i_num, num_end) {
            Some(v) => v,
            None => {
                return Err(ParamError::BadRangeStart);
            },
        };
        let i_op = skip_ws(t, num_end);
        if !match_at_exec(t, i_op, "..") {
            return Err(ParamError::MissingRangeOp);
        }
        let i_end = i_op + 2;
        let name = capture(t, 4, name_end);
        let j_semi = find_char_from(t, i_end, ';');
        if j_semi < n {
            let end = capture_trimmed(t, i_end, j_semi);
            if end.as_str().unicode_len() == 0 {
                return Err(ParamError::EmptyRangeEnd);
            }
            let rest = capture(t, j_semi + 1, n);
            return Ok(
                (
                    rest,
                    BenchmarkParameter {
                        name,
                        range_start: start,
                        range_end: end,
                        terminator: RangeTerminator::Statement,
                    },
                ),
            );
        }
        let j_arr = find_sub_from(t, i_end, "=>");
        if j_arr < n {
            let end = capture_trimmed(t, i_end, j_arr);
            if end.as_str().unicode_len() == 0 {
                return Err(ParamError::EmptyRangeEnd);
            }
            let rest = capture(t, j_arr + 2, n);
            return Ok(
                (
                    rest,
                    BenchmarkParameter {
                        name,
                        range_start: start,
                        range_end: end,
                        terminator: RangeTerminator::Arrow,
                    },
                ),
            );
        }
        Err(ParamError::MissingTerminator)
    }

    /// Classifies a line that begins (after whitespace) with the declaration
    /// keyword: opaque content if it holds a plain assignment, otherwise a
    /// parameter declaration.
    pub fn dispatch(input: &str) -> (r: Result<BenchmarkLine, ParamError>)
        ensures
            ({
                let m = param_dispatch_spec(input@);
                match r {
                    Ok(line) => m is Ok && line@ == m->Ok_0,
                    Err(e) => m is Err && e == m->Err_0,
                }
            }),
    {
        proof {
            reveal_strlit("let ");
            reveal_strlit("=>");
        }
        let a = skip_ws(input, 0);
        if match_at_exec(input, a, "let ") {
            if contains_char_exec(input, '=') && !contains_sub_exec(input, "=>") {
                Ok(
                    BenchmarkLine {
                        head: None,
                        kind: LineKind::Content,
                        content: Some(input.to_owned()),
                        param_content: None,
                        fn_body: None,
                    },
                )
            } else {
                match Self::let_declaration(input) {
                    Ok((_rest, param)) => Ok(
                        BenchmarkLine {
                            head: None,
                            kind: LineKind::FnParam,
                            content: None,
                            param_content: Some(param),
                            fn_body: None,
                        },
                    ),
                    Err(e) => Err(e),
                }
            }
        } else {
            Err(ParamError::NotParameter)
        }
    }
}

pub proof fn lemma_digits_val_nonneg(s: Seq<char>)
    requires
        forall|k: int| 0 <= k < s.len() ==> is_digit_char(#[trigger] s[k]),
    ensures
        digits_val(s) >= 0,
    decreases s.len(),
{
    if s.len() > 0 {
        assert(forall|k: int|
            0 <= k < s.drop_last().len() ==> is_digit_char(#[trigger] s.drop_last()[k]));
        lemma_digits_val_nonneg(s.drop_last());
        assert(digit_of(s.last()) >= 0);
    }
}

// ---------------------------------------------------------------------------
// Laws of the extractor
// ---------------------------------------------------------------------------

/// A valid statement-terminated parameter line `let X in A .. B;` extracts
/// name `X`, lower bound `A` and upper bound `B` with the statement
/// terminator, and leaves nothing behind.
#[verifier::rlimit(100)]
pub proof fn lemma_extract_statement_param(x: Seq<char>, a: Seq<char>, b: Seq<char>)
    requires
        x.len() > 0,
        forall|k: int| 0 <= k < x.len() ==> is_alpha_char(#[trigger] x[k]),
        a.len() > 0,
        forall|k: int| 0 <= k < a.len() ==> is_digit_char(#[trigger] a[k]),
        digits_val(a) <= 255,
        b.len() > 0,
        forall|k: int| 0 <= k < b.len() ==> #[trigger] b[k] != ';',
        !is_ws_char(b[0]),
        !is_ws_char(b[b.len() - 1]),
    ensures
        ({
            let s = "let "@ + x + " in "@ + a + " .. "@ + b + ";"@;
            let m = let_decl_spec(s);
            &&& m is Ok
            &&& m->Ok_0.param.name == x
            &&& m->Ok_0.param.range_start == digits_val(a)
            &&& m->Ok_0.param.range_end == b
            &&& m->Ok_0.param.terminator == RangeTerminator::Statement
            &&& m->Ok_0.rest == Seq::<char>::empty()
        }),
{
    reveal_strlit("let ");
    reveal_strlit(" in ");
    reveal_strlit(" .. ");
    reveal_strlit(";");
    reveal_strlit("in");
    reveal_strlit("..");
    let s = "let "@ + x + " in "@ + a + " .. "@ + b + ";"@;
    let xl = x.len() as int;
    let al = a.len() as int;
    let bl = b.len() as int;
    assert(s.len() == 13 + xl + al + bl);
    assert(s[0] == 'l' && s[1] == 'e' && s[2] == 't' && s[3] == ' ');
    assert(forall|k: int| 0 <= k < xl ==> s[4 + k] == x[k]);
    assert(s[4 + xl] == ' ' && s[5 + xl] == 'i' && s[6 + xl] == 'n' && s[7 + xl] == ' ');
    assert(forall|k: int| 0 <= k < al ==> s[8 + xl + k] == a[k]);
    assert(s[8 + xl + al] == ' ' && s[9 + xl + al] == '.' && s[10 + xl + al] == '.' && s[11 + xl
        + al] == ' ');
    assert(forall|k: int| 0 <= k < bl ==> s[12 + xl + al + k] == b[k]);
    assert(s[12 + xl + al + bl] == ';');
    // trimming leaves the line unchanged
    lemma_run_end_is(s, 0, |c: char| is_ws_char(c), 0);
    lemma_rev_ws_start_is(s, s.len() as int, s.len() as int);
    assert(trim_spec(s) =~= s);
    // the declaration keyword
    assert(s.subrange(0, 4) =~= "let "@);
    assert(match_at(s, 0, "let "@));
    // the name
    assert(forall|k: int| 4 <= k < 4 + xl ==> is_alpha_char(#[trigger] s[k]));
    lemma_run_end_is(s, 4, |c: char| is_alpha_char(c), 4 + xl);
    assert(s.subrange(4, 4 + xl) =~= x);
    // the membership keyword
    lemma_run_end_is(s, 4 + xl, |c: char| is_ws_char(c), 5 + xl);
    assert(s.subrange(5 + xl, 7 + xl) =~= "in"@);
    assert(match_at(s, 5 + xl, "in"@));
    lemma_run_end_is(s, 7 + xl, |c: char| is_ws_char(c), 8 + xl);
    // the lower bound
    assert(forall|k: int| 8 + xl <= k < 8 + xl + al ==> is_digit_char(#[trigger] s[k]));
    lemma_run_end_is(s, 8 + xl, |c: char| is_digit_char(c), 8 + xl + al);
    assert(s.subrange(8 + xl, 8 + xl + al) =~= a);
    lemma_digits_val_nonneg(a);
    // the range operator
    lemma_run_end_is(s, 8 + xl + al, |c: char| is_ws_char(c), 9 + xl + al);
    assert(s.subrange(9 + xl + al, 11 + xl + al) =~= ".."@);
    assert(match_at(s, 9 + xl + al, ".."@));
    // the upper bound, closed by the statement terminator
    assert(forall|k: int| 11 + xl + al <= k < 12 + xl + al + bl ==> #[trigger] s[k] != ';');
    lemma_find_char_is(s, 11 + xl + al, ';', 12 + xl + al + bl);
    let chunk = s.subrange(11 + xl + al, 12 + xl + al + bl);
    assert(chunk =~= seq![' '] + b);
    assert(chunk.len() == 1 + bl);
    assert(chunk[0] == ' ' && !is_ws_char(chunk[1]) && !is_ws_char(chunk[chunk.len() - 1]));
    lemma_run_end_is(chunk, 0, |c: char| is_ws_char(c), 1);
    lemma_rev_ws_start_is(chunk, chunk.len() as int, chunk.len() as int);
    assert(trim_spec(chunk) =~= b);
    assert(s.subrange(13 + xl + al + bl, s.len() as int) =~= Seq::<char>::empty());
}

/// The scan positions of the extractor on an arrow-terminated line, stated
/// without unfolding the grammar itself.
#[verifier::rlimit(100)]
proof fn lemma_arrow_scan(x: Seq<char>, a: Seq<char>, b: Seq<char>, rest: Seq<char>)
    requires
        x.len() > 0,
        forall|k: int| 0 <= k < x.len() ==> is_alpha_char(#[trigger] x[k]),
        a.len() > 0,
        forall|k: int| 0 <= k < a.len() ==> is_digit_char(#[trigger] a[k]),
        b.len() > 0,
        forall|k: int| 0 <= k < b.len() ==> #[trigger] b[k] != ';',
        forall|k: int| 0 <= k < rest.len() ==> #[trigger] rest[k] != ';',
        forall|k: int| 0 <= k < b.len() - 1 ==> !(#[trigger] b[k] == '=' && b[k + 1] == '>'),
        !is_ws_char(b[0]),
        !is_ws_char(b[b.len() - 1]),
        b[b.len() - 1] != '=',
        rest.len() > 0 ==> !is_ws_char(rest[rest.len() - 1]),
    ensures
        ({
            let s = "let "@ + x + " in "@ + a + " .. "@ + b + " =>"@ + rest;
            let xl = x.len() as int;
            let al = a.len() as int;
            let bl = b.len() as int;
            &&& s.len() == 15 + xl + al + bl + rest.len()
            &&& trim_spec(s) == s
            &&& match_at(s, 0, "let "@)
            &&& alpha_end(s, 4) == 4 + xl
            &&& s.subrange(4, 4 + xl) == x
            &&& ws_end(s, 4 + xl) == 5 + xl
            &&& match_at(s, 5 + xl, "in"@)
            &&& ws_end(s, 7 + xl) == 8 + xl
            &&& digit_end(s, 8 + xl) == 8 + xl + al
            &&& s.subrange(8 + xl, 8 + xl + al) == a
            &&& ws_end(s, 8 + xl + al) == 9 + xl + al
            &&& match_at(s, 9 + xl + al, ".."@)
            &&& find_char(s, 11 + xl + al, ';') == s.len()
            &&& find_sub(s, 11 + xl + al, "=>"@) == 13 + xl + al + bl
            &&& trim_spec(s.subrange(11 + xl + al, 13 + xl + al + bl)) == b
            &&& s.subrange(15 + xl + al + bl, s.len() as int) == rest
        }),
{
    reveal_strlit("let ");
    reveal_strlit(" in ");
    reveal_strlit(" .. ");
    reveal_strlit(" =>");
    reveal_strlit("in");
    reveal_strlit("..");
    reveal_strlit("=>");
    let s = "let "@ + x + " in "@ + a + " .. "@ + b + " =>"@ + rest;
    let xl = x.len() as int;
    let al = a.len() as int;
    let bl = b.len() as int;
    let rl = rest.len() as int;
    assert(s.len() == 15 + xl + al + bl + rl);
    assert(s[0] == 'l' && s[1] == 'e' && s[2] == 't' && s[3] == ' ');
    assert(forall|k: int| 0 <= k < xl ==> s[4 + k] == x[k]);
    assert(s[4 + xl] == ' ' && s[5 + xl] == 'i' && s[6 + xl] == 'n' && s[7 + xl] == ' ');
    assert(forall|k: int| 0 <= k < al ==> s[8 + xl + k] == a[k]);
    assert(s[8 + xl + al] == ' ' && s[9 + xl + al] == '.' && s[10 + xl + al] == '.' && s[11 + xl
        + al] == ' ');
    assert(forall|k: int| 0 <= k < bl ==> s[12 + xl + al + k] == b[k]);
    assert(s[12 + xl + al + bl] == ' ' && s[13 + xl + al + bl] == '=' && s[14 + xl + al + bl]
        == '>');
    assert(forall|k: int| 0 <= k < rl ==> s[15 + xl + al + bl + k] == rest[k]);
    // trimming leaves the line unchanged
    lemma_run_end_is(s, 0, |c: char| is_ws_char(c), 0);
    assert(!is_ws_char(s[s.len() - 1]));
    lemma_rev_ws_start_is(s, s.len() as int, s.len() as int);
    assert(trim_spec(s) =~= s);
    // the declaration keyword
    assert(s.subrange(0, 4) =~= "let "@);
    assert(match_at(s, 0, "let "@));
    // the name
    assert(forall|k: int| 4 <= k < 4 + xl ==> is_alpha_char(#[trigger] s[k]));
    lemma_run_end_is(s, 4, |c: char| is_alpha_char(c), 4 + xl);
    assert(s.subrange(4, 4 + xl) =~= x);
    // the membership keyword
    lemma_run_end_is(s, 4 + xl, |c: char| is_ws_char(c), 5 + xl);
    assert(s.subrange(5 + xl, 7 + xl) =~= "in"@);
    assert(match_at(s, 5 + xl, "in"@));
    lemma_run_end_is(s, 7 + xl, |c: char| is_ws_char(c), 8 + xl);
    // the lower bound
    assert(forall|k: int| 8 + xl <= k < 8 + xl + al ==> is_digit_char(#[trigger] s[k]));
    lemma_run_end_is(s, 8 + xl, |c: char| is_digit_char(c), 8 + xl + al);
    assert(s.subrange(8 + xl, 8 + xl + al) =~= a);
    // the range operator
    lemma_run_end_is(s, 8 + xl + al, |c: char| is_ws_char(c), 9 + xl + al);
    assert(s.subrange(9 + xl + al, 11 + xl + al) =~= ".."@);
    assert(match_at(s, 9 + xl + al, ".."@));
    // no statement terminator anywhere after the range operator
    assert(forall|k: int| 11 + xl + al <= k < s.len() ==> #[trigger] s[k] != ';');
    lemma_find_char_is(s, 11 + xl + al, ';', s.len() as int);
    // the first forwarding arrow closes the upper bound
    assert forall|k: int| 11 + xl + al <= k < 13 + xl + al + bl implies !match_at(
        s,
        k,
        "=>"@,
    ) by {
        if match_at(s, k, "=>"@) {
            assert(s.subrange(k, k + 2)[0] == '=' && s.subrange(k, k + 2)[1] == '>');
            assert(s[k] == '=' && s[k + 1] == '>');
        }
    }
    assert(s.subrange(13 + xl + al + bl, 15 + xl + al + bl) =~= "=>"@);
    assert(match_at(s, 13 + xl + al + bl, "=>"@));
    lemma_find_sub_is(s, 11 + xl + al, "=>"@, 13 + xl + al + bl);
    // the captured upper bound is exactly the bound text
    let chunk = s.subrange(11 + xl + al, 13 + xl + al + bl);
    assert(chunk =~= seq![' '] + b + seq![' ']);
    assert(chunk.len() == 2 + bl);
    lemma_run_end_is(chunk, 0, |c: char| is_ws_char(c), 1);
    lemma_rev_ws_start_is(chunk, chunk.len() as int, chunk.len() - 1);
    assert(trim_spec(chunk) =~= b);
    assert(s.subrange(15 + xl + al + bl, s.len() as int) =~= rest);
}

/// A valid arrow-terminated parameter line `let X in A .. B => R` extracts
/// the same pieces with the arrow terminator, and the text after the arrow is
/// left untouched by the extractor.
#[verifier::rlimit(100)]
pub proof fn lemma_extract_arrow_param(x: Seq<char>, a: Seq<char>, b: Seq<char>, rest: Seq<char>)
    requires
        x.len() > 0,
        forall|k: int| 0 <= k < x.len() ==> is_alpha_char(#[trigger] x[k]),
        a.len() > 0,
        forall|k: int| 0 <= k < a.len() ==> is_digit_char(#[trigger] a[k]),
        digits_val(a) <= 255,
        b.len() > 0,
        forall|k: int| 0 <= k < b.len() ==> #[trigger] b[k] != ';',
        forall|k: int| 0 <= k < rest.len() ==> #[trigger] rest[k] != ';',
        forall|k: int| 0 <= k < b.len() - 1 ==> !(#[trigger] b[k] == '=' && b[k + 1] == '>'),
        !is_ws_char(b[0]),
        !is_ws_char(b[b.len() - 1]),
        b[b.len() - 1] != '=',
        rest.len() > 0 ==> !is_ws_char(rest[rest.len() - 1]),
    ensures
        ({
            let s = "let "@ + x + " in "@ + a + " .. "@ + b + " =>"@ + rest;
            let m = let_decl_spec(s);
            &&& m is Ok
            &&& m->Ok_0.param.name == x
            &&& m->Ok_0.param.range_start == digits_val(a)
            &&& m->Ok_0.param.range_end == b
            &&& m->Ok_0.param.terminator == RangeTerminator::Arrow
            &&& m->Ok_0.rest == rest
        }),
{
    lemma_arrow_scan(x, a, b, rest);
    lemma_digits_val_nonneg(a);
}

/// An input missing the membership keyword after `let <name>` is rejected,
/// never silently defaulted.
#[verifier::rlimit(100)]
pub proof fn lemma_missing_in_rejected(x: Seq<char>, w: Seq<char>, rest: Seq<char>)
    requires
        x.len() > 0,
        forall|k: int| 0 <= k < x.len() ==> is_alpha_char(#[trigger] x[k]),
        forall|k: int| 0 <= k < w.len() ==> is_ws_char(#[trigger] w[k]),
        rest.len() > 0,
        !is_ws_char(rest[0]),
        !is_ws_char(rest[rest.len() - 1]),
        w.len() > 0 || !is_alpha_char(rest[0]),
        !(rest.len() >= 2 && rest[0] == 'i' && rest[1] == 'n'),
    ensures
        let_decl_spec("let "@ + x + w + rest) == Err::<ParamParseOk, ParamError>(
            ParamError::MissingIn,
        ),
{
    reveal_strlit("let ");
    reveal_strlit("in");
    let s = "let "@ + x + w + rest;
    let xl = x.len() as int;
    let wl = w.len() as int;
    let rl = rest.len() as int;
    assert(s.len() == 4 + xl + wl + rl);
    assert(s[0] == 'l' && s[1] == 'e' && s[2] == 't' && s[3] == ' ');
    assert(forall|k: int| 0 <= k < xl ==> #[trigger] s[4 + k] == x[k]);
    assert(forall|k: int| 0 <= k < wl ==> #[trigger] s[4 + xl + k] == w[k]);
    assert(forall|k: int| 0 <= k < rl ==> #[trigger] s[4 + xl + wl + k] == rest[k]);
    // trimming leaves the line unchanged
    lemma_run_end_is(s, 0, |c: char| is_ws_char(c), 0);
    assert(!is_ws_char(s[s.len() - 1]));
    lemma_rev_ws_start_is(s, s.len() as int, s.len() as int);
    assert(trim_spec(s) =~= s);
    // the declaration keyword and the name
    assert(s.subrange(0, 4) =~= "let "@);
    assert(match_at(s, 0, "let "@));
    assert(forall|k: int| 4 <= k < 4 + xl ==> is_alpha_char(#[trigger] s[k]));
    lemma_run_end_is(s, 4, |c: char| is_alpha_char(c), 4 + xl);
    // whitespace runs to the first character of the rest
    lemma_run_end_is(s, 4 + xl, |c: char| is_ws_char(c), 4 + xl + wl);
    // which does not begin the membership keyword
    assert(!match_at(s, 4 + xl + wl, "in"@)) by {
        if match_at(s, 4 + xl + wl, "in"@) {
            assert(s.subrange(4 + xl + wl, 6 + xl + wl)[0] == 'i');
            assert(s.subrange(4 + xl + wl, 6 + xl + wl)[1] == 'n');
            assert(rest[0] == 'i' && rest[1] == 'n' && rl >= 2);
        }
    }
}

// ---------------------------------------------------------------------------
// Standalone helper parsers
// ---------------------------------------------------------------------------

/// The mathematical model of an upper bound.
#[verifier::ext_equal]
pub enum RangeEndView {
    Constant(Seq<char>),
    Expression(Seq<char>),
}

impl View for RangeEndKind {
    type V = RangeEndView;

    open spec fn view(&self) -> RangeEndView {
        match self {
            RangeEndKind::Constant(s) => RangeEndView::Constant(s@),
            RangeEndKind::Expression(s) => RangeEndView::Expression(s@),
        }
    }
}

/// The standalone upper-bound grammar: the range operator, then either a bare
/// constant token closed by `;`, or an expression closed by `;` or by `=>`.
pub open spec fn range_end_spec(s: Seq<char>) -> Result<(Seq<char>, RangeEndView), ParamError> {
    let i0 = ws_end(s, 0);
    if !match_at(s, i0, ".."@) {
        Err(ParamError::MissingRangeOp)
    } else {
        let i = ws_end(s, i0 + 2);
        let w = word_end(s, i);
        if i < s.len() && is_alpha_char(s[i]) && w < s.len() && s[w] == ';' {
            Ok((s.subrange(w + 1, s.len() as int), RangeEndView::Constant(s.subrange(i, w))))
        } else {
            let j_semi = find_char(s, i, ';');
            let j_arr = find_sub(s, i, "=>"@);
            if j_semi < s.len() {
                Ok(
                    (
                        s.subrange(j_semi + 1, s.len() as int),
                        RangeEndView::Expression(trim_spec(s.subrange(i, j_semi))),
                    ),
                )
            } else if j_arr < s.len() {
                Ok(
                    (
                        s.subrange(j_arr + 2, s.len() as int),
                        RangeEndView::Expression(trim_spec(s.subrange(i, j_arr))),
                    ),
                )
            } else {
                Err(ParamError::MissingTerminator)
            }
        }
    }
}

impl ParamParser {
    /// Parses the upper bound of a range, after the lower bound.
    pub fn range_end(input: &str) -> (r: Result<(String, RangeEndKind), ParamError>)
        ensures
            ({
                let m = range_end_spec(input@);
                match r {
                    Ok(p) => m is Ok && p.0@ == m->Ok_0.0 && p.1@ == m->Ok_0.1,
                    Err(e) => m is Err && e == m->Err_0,
                }
            }),
    {
        proof {
            reveal_strlit("..");
            reveal_strlit("=>");
        }
        let n = input.unicode_len();
        let i0 = skip_ws(input, 0);
        if !match_at_exec(input, i0, "..") {
            return Err(ParamError::MissingRangeOp);
        }
        let i = skip_ws(input, i0 + 2);
        let w = scan_word(input, i);
        if i < n && is_alpha_exec(input.get_char(i)) && w < n && input.get_char(w) == ';' {
            let rest = capture(input, w + 1, n);
            let constant = capture(input, i, w);
            return Ok((rest, RangeEndKind::Constant(constant)));
        }
        let j_semi = find_char_from(input, i, ';');
        if j_semi < n {
            let rest = capture(input, j_semi + 1, n);
            let expr = capture_trimmed(input, i, j_semi);
            return Ok((rest, RangeEndKind::Expression(expr)));
        }
        let j_arr = find_sub_from(input, i, "=>");
        if j_arr < n {
            let rest = capture(input, j_arr + 2, n);
            let expr = capture_trimmed(input, i, j_arr);
            return Ok((rest, RangeEndKind::Expression(expr)));
        }
        Err(ParamError::MissingTerminator)
    }

    /// Parses the lower bound of a range: a number between 0 and 255.
    pub fn range_start(input: &str) -> (r: Result<(String, u8), ParamError>)
        ensures
            ({
                let i = ws_end(input@, 0);
                let d = digit_end(input@, i);
                match r {
                    Ok(p) => d > i && digits_val(input@.subrange(i, d)) <= 255 && p.1
                        == digits_val(input@.subrange(i, d)) && p.0@ == input@.subrange(
                        d,
                        input@.len() as int,
                    ),
                    Err(e) => (d == i || digits_val(input@.subrange(i, d)) > 255) && e
                        == ParamError::BadRangeStart,
                }
            }),
    {
        let n = input.unicode_len();
        let i = skip_ws(input, 0);
        let d = scan_digits(input, i);
        if d == i {
            return Err(ParamError::BadRangeStart);
        }
        match parse_u8_in(input, i, d) {
            Some(v) => Ok((capture(input, d, n), v)),
            None => Err(ParamError::BadRangeStart),
        }
    }

    /// Recognizes the declaration keyword itself.
    pub fn item_let(input: &str) -> (r: Result<(String, String), ParamError>)
        ensures
            ({
                match r {
                    Ok(p) => match_at(input@, 0, "let"@) && p.0@ == input@.subrange(
                        3,
                        input@.len() as int,
                    ) && p.1@ == "let"@,
                    Err(e) => !match_at(input@, 0, "let"@) && e == ParamError::MissingLet,
                }
            }),
    {
        proof {
            reveal_strlit("let");
        }
        if match_at_exec(input, 0, "let") {
            let n = input.unicode_len();
            Ok((capture(input, 3, n), "let".to_owned()))
        } else {
            Err(ParamError::MissingLet)
        }
    }

    /// Recognizes the membership keyword itself.
    pub fn item_in(input: &str) -> (r: Result<(String, String), ParamError>)
        ensures
            ({
                match r {
                    Ok(p) => match_at(input@, 0, "in"@) && p.0@ == input@.subrange(
                        2,
                        input@.len() as int,
                    ) && p.1@ == "in"@,
                    Err(e) => !match_at(input@, 0, "in"@) && e == ParamError::MissingIn,
                }
            }),
    {
        proof {
            reveal_strlit("in");
        }
        if match_at_exec(input, 0, "in") {
            let n = input.unicode_len();
            Ok((capture(input, 2, n), "in".to_owned()))
        } else {
            Err(ParamError::MissingIn)
        }
    }

    /// Captures everything before the first forwarding arrow and consumes the
    /// arrow.
    pub fn till_arrow(input: &str) -> (r: Result<(String, String), ParamError>)
        ensures
            ({
                let j = find_sub(input@, 0, "=>"@);
                match r {
                    Ok(p) => j < input@.len() && p.0@ == input@.subrange(
                        j + 2,
                        input@.len() as int,
                    ) && p.1@ == input@.subrange(0, j),
                    Err(e) => j == input@.len() && e == ParamError::MissingTerminator,
                }
            }),
    {
        proof {
            reveal_strlit("=>");
        }
        let n = input.unicode_len();
        let j = find_sub_from(input, 0, "=>");
        if j < n {
            Ok((capture(input, j + 2, n), capture(input, 0, j)))
        } else {
            Err(ParamError::MissingTerminator)
        }
    }

    /// Skips a whitespace run, the forwarding arrow and more whitespace,
    /// returning the first whitespace run and the remaining text.
    pub fn ignore_after_arrow(input: &str) -> (r: Result<(String, String), ParamError>)
        ensures
            ({
                let i1 = ws_end(input@, 0);
                let i2 = ws_end(input@, i1 + 2);
                match r {
                    Ok(p) => i1 >= 1 && match_at(input@, i1, "=>"@) && i2 > i1 + 2 && p.0@
                        == input@.subrange(i2, input@.len() as int) && p.1@ == input@.subrange(
                        0,
                        i1,
                    ),
                    Err(e) => (i1 < 1 || !match_at(input@, i1, "=>"@) || !(ws_end(input@, i1 + 2)
                        > i1 + 2)) && e == ParamError::MissingTerminator,
                }
            }),
    {
        proof {
            reveal_strlit("=>");
        }
        let n = input.unicode_len();
        let i1 = skip_ws(input, 0);
        if i1 >= 1 && match_at_exec(input, i1, "=>") {
            let i2 = skip_ws(input, i1 + 2);
            if i2 > i1 + 2 {
                return Ok((capture(input, i2, n), capture(input, 0, i1)));
            }
        }
        Err(ParamError::MissingTerminator)
    }
}

// ---------------------------------------------------------------------------
// Rendering a parameter into the target dialect
// ---------------------------------------------------------------------------

pub open spec fn spec_digit_char(d: int) -> char {
    if d == 0 {
        '0'
    } else if d == 1 {
        '1'
    } else if d == 2 {
        '2'
    } else if d == 3 {
        '3'
    } else if d == 4 {
        '4'
    } else if d == 5 {
        '5'
    } else if d == 6 {
        '6'
    } else if d == 7 {
        '7'
    } else if d == 8 {
        '8'
    } else {
        '9'
    }
}

/// The decimal rendering of a byte, most significant digit first.
pub open spec fn dec_of_u8(n: u8) -> Seq<char> {
    if n < 10 {
        seq![spec_digit_char(n as int)]
    } else if n < 100 {
        seq![spec_digit_char(n as int / 10), spec_digit_char(n as int % 10)]
    } else {
        seq![
            spec_digit_char(n as int / 100),
            spec_digit_char((n as int / 10) % 10),
            spec_digit_char(n as int % 10),
        ]
    }
}

fn digit_str(d: u8) -> (r: &'static str)
    requires
        d < 10,
    ensures
        r@ == seq![spec_digit_char(d as int)],
{
    let r: &'static str = if d == 0 {
        "0"
    } else if d == 1 {
        "1"
    } else if d == 2 {
        "2"
    } else if d == 3 {
        "3"
    } else if d == 4 {
        "4"
    } else if d == 5 {
        "5"
    } else if d == 6 {
        "6"
    } else if d == 7 {
        "7"
    } else if d == 8 {
        "8"
    } else {
        "9"
    };
    proof {
        reveal_strlit("0");
        reveal_strlit("1");
        reveal_strlit("2");
        reveal_strlit("3");
        reveal_strlit("4");
        reveal_strlit("5");
        reveal_strlit("6");
        reveal_strlit("7");
        reveal_strlit("8");
        reveal_strlit("9");
        assert(r@ =~= seq![spec_digit_char(d as int)]);
    }
    r
}

/// Renders a byte in decimal.
pub fn u8_to_dec(n: u8) -> (r: String)
    ensures
        r@ == dec_of_u8(n),
{
    if n < 10 {
        let r = String::from_str(digit_str(n));
        proof {
            assert(r@ =~= dec_of_u8(n));
        }
        r
    } else if n < 100 {
        let r = concat2(digit_str(n / 10), digit_str(n % 10));
        proof {
            assert(r@ =~= dec_of_u8(n));
        }
        r
    } else {
        let r = concat3(digit_str(n / 100), digit_str((n / 10) % 10), digit_str(n % 10));
        proof {
            assert(r@ =~= dec_of_u8(n));
        }
        r
    }
}

/// A bare constant or numeric token: letters, digits and underscores only.
pub open spec fn is_bare_token(s: Seq<char>) -> bool {
    s.len() > 0 && word_end(s, 0) == s.len()
}

/// The rendering of one parameter in the target signature: bare upper bounds
/// stay unwrapped, expression upper bounds are wrapped in a grouping block.
pub open spec fn fn_input_spec(p: ParamView) -> Seq<char> {
    let expr = trim_spec(p.range_end.subrange(0, find_sub(p.range_end, 0, "=>"@)));
    let rendered = if is_bare_token(expr) {
        expr
    } else {
        "{ "@ + expr + " }"@
    };
    p.name + ": Linear<"@ + dec_of_u8(p.range_start) + ", "@ + rendered + ">,"@
}

fn is_bare_exec(s: &str) -> (r: bool)
    ensures
        r == is_bare_token(s@),
{
    let n = s.unicode_len();
    n > 0 && scan_word(s, 0) == n
}

impl ParamWriter {
    /// Renders one parameter for the target-dialect signature.
    pub fn fn_input(param: &BenchmarkParameter) -> (r: String)
        ensures
            r@ == fn_input_spec(param@),
    {
        proof {
            reveal_strlit("=>");
        }
        let re = param.range_end.as_str();
        let cut = find_sub_from(re, 0, "=>");
        let expr = capture_trimmed(re, 0, cut);
        let rendered: String = if is_bare_exec(expr.as_str()) {
            expr
        } else {
            concat3("{ ", expr.as_str(), " }")
        };
        let mut out = String::from_str(param.name.as_str());
        out.append(": Linear<");
        out.append(u8_to_dec(param.range_start).as_str());
        out.append(", ");
        out.append(rendered.as_str());
        out.append(">,");
        out
    }

    /// Inserts a rendered parameter into a signature, just before the closing
    /// delimiter of its parameter list, so that earlier parameters keep their
    /// place.
    pub fn fn_gen(param_input: String, fn_signature: &String) -> (r: Result<String, AssembleError>)
        ensures
            ({
                let m = fn_gen_spec(param_input@, fn_signature@);
                match r {
                    Ok(s) => m is Ok && s@ == m->Ok_0,
                    Err(e) => m is Err && e == m->Err_0,
                }
            }),
    {
        let sig = fn_signature.as_str();
        let n = sig.unicode_len();
        let open = find_char_from(sig, 0, '(');
        if open < n {
            let close = find_char_from(sig, open, ')');
            if close < n {
                let mut out = capture(sig, 0, close);
                out.append(param_input.as_str());
                out.append(capture(sig, close, n).as_str());
                return Ok(out);
            }
        }
        Err(AssembleError::BadSignature)
    }
}

/// Where a rendered parameter goes in a signature: right before the closing
/// delimiter of the parameter list.
pub open spec fn fn_gen_spec(param: Seq<char>, sig: Seq<char>) -> Result<Seq<char>, AssembleError> {
    let open = find_char(sig, 0, '(');
    if open < sig.len() {
        let close = find_char(sig, open, ')');
        if close < sig.len() {
            Ok(sig.subrange(0, close) + param + sig.subrange(close, sig.len() as int))
        } else {
            Err(AssembleError::BadSignature)
        }
    } else {
        Err(AssembleError::BadSignature)
    }
}

} // verus!
