//! The line classifier and the block-level writer.
//!
//! `BlockParser` decides the syntactic role of one raw source line (first
//! match wins, since the role prefixes overlap) and captures the substring
//! that role needs.  `BlockWriter` renders the fixed target-dialect text for
//! module and function shells, cleans captured bodies into statement blocks,
//! and rewrites the measured-call shorthand.

use vstd::prelude::*;

use crate::errors::LexError;
use crate::lexer::{BenchmarkLine, Lexer, LineKind, LineView};
use crate::param::{let_decl_spec, param_dispatch_spec, ParamParser};
use crate::text::{
    capture, capture_trimmed, contains_sub, contains_sub_exec,
    concat2, concat3, find_char, find_char_from, find_sub, find_sub_from, fn_name_end,
    is_alpha_char, is_alpha_exec, is_ws_char, is_ws_exec, match_at, match_at_exec, rev_skip_ws,
    rev_ws_start, scan_fn_name, skip_ws, str_eq, trim, trim_spec, ws_end,
};

verus! {

pub struct BlockParser;

// ---------------------------------------------------------------------------
// Module header lines
// ---------------------------------------------------------------------------

/// The module-header grammar: the plain or the instance-scoped benchmark
/// keyword, after optional whitespace.  Returns the remaining text and the
/// recognized dialect variant.
pub open spec fn benchmark_spec(s: Seq<char>) -> Result<(Seq<char>, Seq<char>), LexError> {
    let i = ws_end(s, 0);
    if match_at(s, i, "benchmarks!"@) {
        Ok((s.subrange(i + 11, s.len() as int), "benchmarks"@))
    } else if match_at(s, i, "benchmarks_instance_pallet!"@) {
        Ok((s.subrange(i + 27, s.len() as int), "benchmarks_instance_pallet"@))
    } else {
        Err(LexError::BadModuleHeader)
    }
}

// ---------------------------------------------------------------------------
// Function declaration lines
// ---------------------------------------------------------------------------

/// The function-declaration grammar: a name of letters and separators,
/// starting with a letter, then optional whitespace and an opening brace.
pub open spec fn function_spec(s: Seq<char>) -> Result<(Seq<char>, Seq<char>), LexError> {
    let i = ws_end(s, 0);
    let e = fn_name_end(s, i);
    if e > i && i < s.len() && is_alpha_char(s[i]) {
        let j = ws_end(s, e);
        if j < s.len() && s[j] == '{' {
            Ok((s.subrange(j + 1, s.len() as int), s.subrange(i, e)))
        } else {
            Err(LexError::BadFunction)
        }
    } else {
        Err(LexError::BadFunction)
    }
}

/// Whether a line looks like a function declaration: its last non-whitespace
/// character is an opening brace and it does not hold the loop keyword.
pub open spec fn is_fn_decl_spec(s: Seq<char>) -> bool {
    let t = trim_spec(s);
    t.len() > 0 && t[t.len() - 1] == '{' && !contains_sub(t, "for"@)
}

/// Position of the closing brace that brings the nesting depth back to zero,
/// scanning from `i` at depth `depth`; `s.len()` if the braces never close.
pub open spec fn close_at_depth(s: Seq<char>, i: int, depth: int) -> int
    decreases s.len() - i,
{
    if 0 <= i < s.len() {
        if s[i] == '}' {
            if depth == 1 {
                i
            } else {
                close_at_depth(s, i + 1, depth - 1)
            }
        } else if s[i] == '{' {
            close_at_depth(s, i + 1, depth + 1)
        } else {
            close_at_depth(s, i + 1, depth)
        }
    } else {
        s.len() as int
    }
}

/// The body-capture grammar: find the function name in the whole source,
/// skip to its opening brace, and capture up to the matching closing brace,
/// tracking nesting depth.
pub open spec fn fn_body_spec(name: Seq<char>, src: Seq<char>) -> Result<
    (Seq<char>, Seq<char>),
    LexError,
> {
    let f = find_sub(src, 0, name);
    if f < src.len() {
        let a = ws_end(src, f + name.len());
        if a < src.len() && src[a] == '{' {
            let c = close_at_depth(src, a + 1, 1);
            if c < src.len() {
                Ok((src.subrange(c, src.len() as int), src.subrange(a + 1, c)))
            } else {
                Err(LexError::BodyNotFound)
            }
        } else {
            Err(LexError::BodyNotFound)
        }
    } else {
        Err(LexError::BodyNotFound)
    }
}

// ---------------------------------------------------------------------------
// Assertion lines
// ---------------------------------------------------------------------------

/// The assertion grammar: the assertion keyword, an opening parenthesis, and
/// everything up to the closing `);`.
pub open spec fn ensure_spec(s: Seq<char>) -> Result<(Seq<char>, Seq<char>), LexError> {
    let i = ws_end(s, 0);
    if match_at(s, i, "ensure!"@) {
        let p = i + 7;
        if p < s.len() && s[p] == '(' {
            let q = find_sub(s, p + 1, ");"@);
            if q < s.len() {
                Ok((s.subrange(q + 2, s.len() as int), s.subrange(p + 1, q)))
            } else {
                Err(LexError::BadEnsure)
            }
        } else {
            Err(LexError::BadEnsure)
        }
    } else {
        Err(LexError::BadEnsure)
    }
}

// ---------------------------------------------------------------------------
// Classification
// ---------------------------------------------------------------------------

/// The classification of one line, given the whole source for body lookup.
/// First match wins; the order matters because the prefixes overlap.
pub open spec fn classify_spec(line: Seq<char>, src: Seq<char>) -> Result<LineView, LexError> {
    let a = ws_end(line, 0);
    if match_at(line, a, "benchmarks"@) {
        match benchmark_spec(line) {
            Ok(ok) => Ok(
                LineView {
                    head: Some(ok.1),
                    kind: LineKind::Mod,
                    content: None,
                    param: None,
                    body: None,
                },
            ),
            Err(e) => Err(e),
        }
    } else if match_at(line, a, "let"@) {
        match param_dispatch_spec(line) {
            Ok(lv) => Ok(lv),
            Err(e) => Err(LexError::BadParameter(e)),
        }
    } else if match_at(line, a, "ensure!"@) {
        match ensure_spec(line) {
            Ok(ok) => Ok(
                LineView {
                    head: None,
                    kind: LineKind::Ensure,
                    content: Some(ok.1),
                    param: None,
                    body: None,
                },
            ),
            Err(e) => Err(e),
        }
    } else if is_fn_decl_spec(line) {
        match function_spec(line) {
            Ok(ok) => match fn_body_spec(ok.1, src) {
                Ok(b) => Ok(
                    LineView {
                        head: Some(ok.1),
                        kind: if ok.1 == "verify"@ {
                            LineKind::Verify
                        } else {
                            LineKind::Fn
                        },
                        content: None,
                        param: None,
                        body: Some(b.1),
                    },
                ),
                Err(e) => Err(e),
            },
            Err(e) => Err(e),
        }
    } else if match_at(line, a, "}:"@) {
        Ok(
            LineView {
                head: None,
                kind: LineKind::Extrinsic,
                content: Some(line),
                param: None,
                body: None,
            },
        )
    } else {
        Ok(
            LineView {
                head: None,
                kind: LineKind::Content,
                content: Some(line),
                param: None,
                body: None,
            },
        )
    }
}

impl BlockParser {
    /// Recognizes the module-header keyword, returning the remaining text and
    /// the dialect variant.
    pub fn benchmark(input: &str) -> (r: Result<(String, String), LexError>)
        ensures
            ({
                let m = benchmark_spec(input@);
                match r {
                    Ok(p) => m is Ok && p.0@ == m->Ok_0.0 && p.1@ == m->Ok_0.1,
                    Err(e) => m is Err && e == m->Err_0,
                }
            }),
    {
        proof {
            reveal_strlit("benchmarks!");
            reveal_strlit("benchmarks_instance_pallet!");
        }
        let n = input.unicode_len();
        let i = skip_ws(input, 0);
        if match_at_exec(input, i, "benchmarks!") {
            Ok((capture(input, i + 11, n), "benchmarks".to_owned()))
        } else if match_at_exec(input, i, "benchmarks_instance_pallet!") {
            Ok((capture(input, i + 27, n), "benchmarks_instance_pallet".to_owned()))
        } else {
            Err(LexError::BadModuleHeader)
        }
    }

    /// Recognizes a function-declaration line, returning the remaining text
    /// and the function name.
    pub fn function(input: &str) -> (r: Result<(String, String), LexError>)
        ensures
            ({
                let m = function_spec(input@);
                match r {
                    Ok(p) => m is Ok && p.0@ == m->Ok_0.0 && p.1@ == m->Ok_0.1,
                    Err(e) => m is Err && e == m->Err_0,
                }
            }),
    {
        let n = input.unicode_len();
        let i = skip_ws(input, 0);
        let e = scan_fn_name(input, i);
        if e > i && is_alpha_exec(input.get_char(i)) {
            let j = skip_ws(input, e);
            if j < n && input.get_char(j) == '{' {
                return Ok((capture(input, j + 1, n), capture(input, i, e)));
            }
        }
        Err(LexError::BadFunction)
    }

    /// Whether a line looks like a function declaration.
    pub fn is_function_declaration(line: &str) -> (r: bool)
        ensures
            r == is_fn_decl_spec(line@),
    {
        proof {
            reveal_strlit("for");
        }
        let t = trim(line);
        let ts = t.as_str();
        let n = ts.unicode_len();
        n > 0 && ts.get_char(n - 1) == '{' && !contains_sub_exec(ts, "for")
    }

    /// Captures the body of the named function from the whole source text,
    /// tracking brace depth, and returns the remaining text and the body.
    pub fn fn_body(fn_name: &str, input: &str) -> (r: Result<(String, String), LexError>)
        ensures
            ({
                let m = fn_body_spec(fn_name@, input@);
                match r {
                    Ok(p) => m is Ok && p.0@ == m->Ok_0.0 && p.1@ == m->Ok_0.1,
                    Err(e) => m is Err && e == m->Err_0,
                }
            }),
    {
        let n = input.unicode_len();
        let f = find_sub_from_any(input, fn_name);
        if f == n {
            return Err(LexError::BodyNotFound);
        }
        let a = skip_ws(input, f + fn_name.unicode_len());
        if !(a < n && input.get_char(a) == '{') {
            return Err(LexError::BodyNotFound);
        }
        let c = scan_close(input, a + 1);
        if c == n {
            return Err(LexError::BodyNotFound);
        }
        Ok((capture(input, c, n), capture(input, a + 1, c)))
    }

    /// Classifies one raw line; `lexer` holds the whole source for body
    /// lookup on function-declaration lines.
    pub fn dispatch(line: &str, lexer: &Lexer) -> (r: Result<BenchmarkLine, LexError>)
        ensures
            ({
                let m = classify_spec(line@, lexer@);
                match r {
                    Ok(l) => m is Ok && l@ == m->Ok_0,
                    Err(e) => m is Err && e == m->Err_0,
                }
            }),
    {
        proof {
            reveal_strlit("benchmarks");
            reveal_strlit("let");
            reveal_strlit("ensure!");
            reveal_strlit("verify");
            reveal_strlit("}:");
        }
        let a = skip_ws(line, 0);
        if match_at_exec(line, a, "benchmarks") {
            match Self::benchmark(line) {
                Ok((_rest, head)) => Ok(
                    BenchmarkLine {
                        head: Some(head),
                        kind: LineKind::Mod,
                        content: None,
                        param_content: None,
                        fn_body: None,
                    },
                ),
                Err(e) => Err(e),
            }
        } else if match_at_exec(line, a, "let") {
            match ParamParser::dispatch(line) {
                Ok(l) => Ok(l),
                Err(e) => Err(LexError::BadParameter(e)),
            }
        } else if match_at_exec(line, a, "ensure!") {
            match Self::ensure(line) {
                Ok((_rest, content)) => Ok(
                    BenchmarkLine {
                        head: None,
                        kind: LineKind::Ensure,
                        content: Some(content),
                        param_content: None,
                        fn_body: None,
                    },
                ),
                Err(e) => Err(e),
            }
        } else if Self::is_function_declaration(line) {
            match Self::function(line) {
                Ok((_rest, name)) => match Self::fn_body(name.as_str(), lexer.0.as_str()) {
                    Ok((_rest2, body)) => {
                        let kind = if str_eq(name.as_str(), "verify") {
                            LineKind::Verify
                        } else {
                            LineKind::Fn
                        };
                        Ok(
                            BenchmarkLine {
                                head: Some(name),
                                kind,
                                content: None,
                                param_content: None,
                                fn_body: Some(body),
                            },
                        )
                    },
                    Err(e) => Err(e),
                },
                Err(e) => Err(e),
            }
        } else if match_at_exec(line, a, "}:") {
            Ok(
                BenchmarkLine {
                    head: None,
                    kind: LineKind::Extrinsic,
                    content: Some(line.to_owned()),
                    param_content: None,
                    fn_body: None,
                },
            )
        } else {
            Ok(
                BenchmarkLine {
                    head: None,
                    kind: LineKind::Content,
                    content: Some(line.to_owned()),
                    param_content: None,
                    fn_body: None,
                },
            )
        }
    }

    /// Captures the content of an assertion line, between the opening
    /// parenthesis and the closing `);`.
    pub fn ensure(input: &str) -> (r: Result<(String, String), LexError>)
        ensures
            ({
                let m = ensure_spec(input@);
                match r {
                    Ok(p) => m is Ok && p.0@ == m->Ok_0.0 && p.1@ == m->Ok_0.1,
                    Err(e) => m is Err && e == m->Err_0,
                }
            }),
    {
        proof {
            reveal_strlit("ensure!");
            reveal_strlit(");");
        }
        let n = input.unicode_len();
        let i = skip_ws(input, 0);
        if match_at_exec(input, i, "ensure!") {
            let p = i + 7;
            if p < n && input.get_char(p) == '(' {
                let q = find_sub_from(input, p + 1, ");");
                if q < n {
                    return Ok((capture(input, q + 2, n), capture(input, p + 1, q)));
                }
            }
        }
        Err(LexError::BadEnsure)
    }
}

/// `find_sub_from` at position zero, accepting an empty pattern.
fn find_sub_from_any(s: &str, pat: &str) -> (j: usize)
    ensures
        j == find_sub(s@, 0, pat@),
        j <= s@.len(),
        j < s@.len() ==> match_at(s@, j as int, pat@),
{
    if pat.unicode_len() == 0 {
        proof {
            assert(s@.subrange(0, 0) =~= pat@);
            assert(match_at(s@, 0, pat@));
        }
        0
    } else {
        find_sub_from(s, 0, pat)
    }
}

/// Scans for the closing brace matching an opening brace just before `i`.
fn scan_close(s: &str, i: usize) -> (c: usize)
    requires
        i <= s@.len(),
    ensures
        c == close_at_depth(s@, i as int, 1),
        i <= c <= s@.len(),
{
    let n = s.unicode_len();
    let mut j = i;
    let mut depth: u128 = 1;
    loop
        invariant
            i <= j <= n,
            n == s@.len(),
            1 <= depth <= 1 + (j - i),
            close_at_depth(s@, i as int, 1) == close_at_depth(s@, j as int, depth as int),
        ensures
            i <= j <= n,
            close_at_depth(s@, i as int, 1) == close_at_depth(s@, j as int, depth as int),
            j < n ==> s@[j as int] == '}' && depth == 1,
            j == n ==> close_at_depth(s@, i as int, 1) == n,
        decreases n - j,
    {
        if j == n {
            break;
        }
        let ch = s.get_char(j);
        if ch == '}' {
            if depth == 1 {
                break;
            }
            depth = depth - 1;
        } else if ch == '{' {
            depth = depth + 1;
        }
        j = j + 1;
    }
    j
}

// ---------------------------------------------------------------------------
// The block writer
// ---------------------------------------------------------------------------

pub struct BlockWriter;

/// Whether the text parses as a brace-delimited block of Rust statements.
/// The result depends on the text alone.
pub uninterp spec fn parses_as_block(s: Seq<char>) -> bool;

/// Relies on syn::parse_str::<syn::Block>: checks that the text is a
/// well-formed statement block.
#[verifier::external_body]
fn parse_block_check(s: &str) -> (r: bool)
    ensures
        r == parses_as_block(s@),
{
    syn::parse_str::<syn::Block>(s).is_ok()
}

/// A fragment that only declares a range parameter: the extractor accepts it
/// once its statement terminator is restored.  Such a fragment contributes no
/// setup statement; its information lives in the signature.
pub open spec fn is_param_fragment(f: Seq<char>) -> bool {
    let_decl_spec(f + ";"@) is Ok
}

/// One `;`-separated fragment, cleaned: the text after its forwarding arrow
/// if it has one, otherwise the fragment itself; trimmed, dropped when empty
/// or when it is a bare parameter declaration, and re-terminated.
pub open spec fn cleaned_one_text(f: Seq<char>) -> Seq<char> {
    let j = find_sub(f, 0, "=>"@);
    let kept = if j < f.len() {
        trim_spec(f.subrange(j + 2, f.len() as int))
    } else {
        trim_spec(f)
    };
    if kept.len() == 0 {
        Seq::empty()
    } else if j == f.len() && is_param_fragment(f) {
        Seq::empty()
    } else {
        kept + ";"@
    }
}

/// Two cleaned pieces joined with a single space; empty pieces vanish.
pub open spec fn glue(a: Seq<char>, b: Seq<char>) -> Seq<char> {
    if a.len() == 0 {
        b
    } else if b.len() == 0 {
        a
    } else {
        a + " "@ + b
    }
}

/// The cleaning of a whole captured body: split on statement separators,
/// clean each fragment, and join what is left.
pub open spec fn clean_spec(s: Seq<char>) -> Seq<char>
    decreases s.len(),
{
    let j = find_char(s, 0, ';');
    if 0 <= j < s.len() {
        glue(cleaned_one_text(s.subrange(0, j)), clean_spec(s.subrange(j + 1, s.len() as int)))
    } else {
        cleaned_one_text(s)
    }
}

fn is_param_fragment_exec(f: &str) -> (r: bool)
    ensures
        r == is_param_fragment(f@),
{
    let w = concat2(f, ";");
    match ParamParser::let_declaration(w.as_str()) {
        Ok(_) => true,
        Err(_) => false,
    }
}

fn clean_one(f: &str) -> (r: String)
    ensures
        r@ == cleaned_one_text(f@),
{
    proof {
        reveal_strlit("=>");
        reveal_strlit(";");
    }
    let n = f.unicode_len();
    let j = find_sub_from(f, 0, "=>");
    let kept = if j < n {
        capture_trimmed(f, j + 2, n)
    } else {
        trim(f)
    };
    if kept.as_str().unicode_len() == 0 {
        return String::new();
    }
    if j == n && is_param_fragment_exec(f) {
        return String::new();
    }
    concat2(kept.as_str(), ";")
}

fn glue_exec(a: String, b: String) -> (r: String)
    ensures
        r@ == glue(a@, b@),
{
    proof {
        reveal_strlit(" ");
    }
    if a.as_str().unicode_len() == 0 {
        b
    } else if b.as_str().unicode_len() == 0 {
        a
    } else {
        let mut r = a;
        r.append(" ");
        r.append(b.as_str());
        r
    }
}

fn clean_text(s: &str) -> (r: String)
    ensures
        r@ == clean_spec(s@),
    decreases s@.len(),
{
    let n = s.unicode_len();
    let j = find_char_from(s, 0, ';');
    if j < n {
        let head = clean_one(capture(s, 0, j).as_str());
        let rest = clean_text(capture(s, j + 1, n).as_str());
        glue_exec(head, rest)
    } else {
        clean_one(s)
    }
}

// ---------------------------------------------------------------------------
// The extrinsic rewrite
// ---------------------------------------------------------------------------

/// Whitespace that touches a closing brace, directly or through more
/// whitespace.
pub open spec fn brace_adjacent_ws(s: Seq<char>, k: int) -> bool {
    is_ws_char(s[k]) && {
        let w = ws_end(s, k);
        let v = rev_ws_start(s, k);
        (w < s.len() && s[w] == '}') || (v > 0 && s[v - 1] == '}')
    }
}

/// A character survives brace-noise removal unless it is a closing brace or
/// whitespace next to one.
pub open spec fn keep_char(s: Seq<char>, k: int) -> bool {
    s[k] != '}' && !brace_adjacent_ws(s, k)
}

pub open spec fn strip_prefix(s: Seq<char>, n: int) -> Seq<char>
    decreases n,
{
    if 0 < n <= s.len() {
        strip_prefix(s, n - 1) + if keep_char(s, n - 1) {
            seq![s[n - 1]]
        } else {
            Seq::<char>::empty()
        }
    } else {
        Seq::empty()
    }
}

/// `s` with every closing brace, and the whitespace around it, removed.
pub open spec fn strip_brace_noise(s: Seq<char>) -> Seq<char> {
    strip_prefix(s, s.len() as int)
}

fn keep_char_exec(s: &str, k: usize) -> (r: bool)
    requires
        k < s@.len(),
    ensures
        r == keep_char(s@, k as int),
{
    let c = s.get_char(k);
    if c == '}' {
        return false;
    }
    if !is_ws_exec(c) {
        return true;
    }
    let n = s.unicode_len();
    let w = skip_ws(s, k);
    if w < n && s.get_char(w) == '}' {
        return false;
    }
    let v = rev_skip_ws(s, k);
    !(v > 0 && s.get_char(v - 1) == '}')
}

fn strip_brace_noise_exec(s: &str) -> (r: String)
    ensures
        r@ == strip_brace_noise(s@),
{
    let n = s.unicode_len();
    let mut out = String::new();
    let mut i: usize = 0;
    while i < n
        invariant
            0 <= i <= n,
            n == s@.len(),
            out@ == strip_prefix(s@, i as int),
        decreases n - i,
    {
        if keep_char_exec(s, i) {
            out.append(s.substring_char(i, i + 1));
            proof {
                assert(s@.subrange(i as int, i + 1) =~= seq![s@[i as int]]);
            }
        }
        i = i + 1;
    }
    out
}

/// The rewrite of the measured-call shorthand `name: _<path>(args)` into the
/// call-site marker followed by the call itself; a line of any other shape
/// only loses its brace noise.
pub open spec fn extrinsic_spec(s: Seq<char>) -> Seq<char> {
    let j = find_char(s, 0, ':');
    let k = ws_end(s, j + 1);
    if j < s.len() && match_at(s, k, "_<"@) {
        let p = find_char(s, k + 2, '>');
        if p < s.len() && p + 1 < s.len() && s[p + 1] == '(' {
            let q = find_char(s, p + 2, ')');
            if q < s.len() {
                "#[extrinsic_call]\n_<"@ + s.subrange(k + 2, p) + ">("@ + s.subrange(p + 2, q)
                    + ")"@
            } else {
                strip_brace_noise(s)
            }
        } else {
            strip_brace_noise(s)
        }
    } else {
        strip_brace_noise(s)
    }
}

impl BlockWriter {
    /// The rendered module shell for the plain dialect variant.
    pub fn mod_item() -> (r: String)
        ensures
            r@ == "#[benchmarks]\nmod benchmarks {\n\n}"@,
    {
        "#[benchmarks]\nmod benchmarks {\n\n}".to_owned()
    }

    /// The rendered module shell for the instance-scoped dialect variant.
    pub fn mod_instance_item() -> (r: String)
        ensures
            r@ == "#[instance_benchmarks]\nmod benchmarks {\n\n}"@,
    {
        "#[instance_benchmarks]\nmod benchmarks {\n\n}".to_owned()
    }

    /// Picks the module shell matching the header line's dialect variant.
    pub fn dispatch_mod(input: &str) -> (r: String)
        ensures
            ({
                let a = ws_end(input@, 0);
                if match_at(input@, a, "benchmarks!"@) {
                    r@ == "#[benchmarks]\nmod benchmarks {\n\n}"@
                } else if match_at(input@, a, "benchmarks_instance_pallet!"@) {
                    r@ == "#[instance_benchmarks]\nmod benchmarks {\n\n}"@
                } else {
                    r@ == "Error: Invalid benchmark module type"@
                }
            }),
    {
        proof {
            reveal_strlit("benchmarks!");
            reveal_strlit("benchmarks_instance_pallet!");
        }
        let a = skip_ws(input, 0);
        if match_at_exec(input, a, "benchmarks!") {
            Self::mod_item()
        } else if match_at_exec(input, a, "benchmarks_instance_pallet!") {
            Self::mod_instance_item()
        } else {
            "Error: Invalid benchmark module type".to_owned()
        }
    }

    /// The rendered function shell for one benchmark name.
    pub fn fn_item(function_name: &str) -> (r: String)
        ensures
            r@ == "#[benchmark]\nfn "@ + function_name@
                + "() -> Result<(), BenchmarkError> {\n\n}"@,
    {
        concat3("#[benchmark]\nfn ", function_name, "() -> Result<(), BenchmarkError> {\n\n}")
    }

    /// Cleans a captured body into a statement block: returns the cleaned
    /// statements, or the block text that failed to parse.
    pub fn clean_code_block(code_block: &str) -> (r: Result<String, String>)
        ensures
            ({
                let cleaned = clean_spec(code_block@);
                let braced = "{ "@ + cleaned + " }"@;
                match r {
                    Ok(s) => parses_as_block(braced) && s@ == cleaned,
                    Err(t) => !parses_as_block(braced) && t@ == braced,
                }
            }),
    {
        let cleaned = clean_text(code_block);
        let braced = concat3("{ ", cleaned.as_str(), " }");
        if parse_block_check(braced.as_str()) {
            Ok(cleaned)
        } else {
            Err(braced)
        }
    }

    /// Rewrites the measured-call shorthand into the target-dialect form.
    pub fn extrinsic(input: &str) -> (r: String)
        ensures
            r@ == extrinsic_spec(input@),
    {
        proof {
            reveal_strlit("_<");
        }
        let n = input.unicode_len();
        let j = find_char_from(input, 0, ':');
        if j < n {
            let k = skip_ws(input, j + 1);
            if match_at_exec(input, k, "_<") {
                let p = find_char_from(input, k + 2, '>');
                if p < n && p + 1 < n && input.get_char(p + 1) == '(' {
                    let q = find_char_from(input, p + 2, ')');
                    if q < n {
                        let mut out = String::from_str("#[extrinsic_call]\n_<");
                        out.append(capture(input, k + 2, p).as_str());
                        out.append(">(");
                        out.append(capture(input, p + 2, q).as_str());
                        out.append(")");
                        return out;
                    }
                }
            }
        }
        strip_brace_noise_exec(input)
    }
}

} // verus!
