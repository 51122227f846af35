//! The module/function assembler and the serializer.
//!
//! The assembler is a single left-to-right fold over the classified line
//! sequence: it opens one function per benchmark, grows its parameter list,
//! recovers and cleans its stored raw body, rewrites the measured call, and
//! attaches the cleaned verify block.  The serializer renders the assembled
//! module once, deterministically.

use vstd::prelude::*;

use crate::block::{clean_spec, extrinsic_spec, parses_as_block, BlockWriter};
use crate::errors::{AssembleError, AssembleFailure};
use crate::lexer::{line_views, BenchmarkLine, LineKind, LineView};
use crate::param::{fn_input_spec, BenchmarkParameter, ParamView, ParamWriter};
use crate::text::{capture, find_char, find_char_from, skip_ws, str_eq, ws_end};

verus! {

pub struct Writer;

/// One target-dialect function under assembly.
#[derive(Debug)]
pub struct FnBlockGen {
    pub name: String,
    pub params: Vec<BenchmarkParameter>,
    pub raw_body: Option<String>,
    pub body: Option<String>,
    pub extrinsic: Option<String>,
    pub verify: Option<String>,
}

/// The mathematical model of a function under assembly.
#[verifier::ext_equal]
pub struct FnView {
    pub name: Seq<char>,
    pub params: Seq<ParamView>,
    pub raw_body: Option<Seq<char>>,
    pub body: Option<Seq<char>>,
    pub extrinsic: Option<Seq<char>>,
    pub verify: Option<Seq<char>>,
}

pub open spec fn param_views(v: Seq<BenchmarkParameter>) -> Seq<ParamView> {
    Seq::new(v.len(), |i: int| v[i]@)
}

pub open spec fn view_opt(o: Option<String>) -> Option<Seq<char>> {
    match o {
        Some(s) => Some(s@),
        None => None,
    }
}

impl View for FnBlockGen {
    type V = FnView;

    open spec fn view(&self) -> FnView {
        FnView {
            name: self.name@,
            params: param_views(self.params@),
            raw_body: view_opt(self.raw_body),
            body: view_opt(self.body),
            extrinsic: view_opt(self.extrinsic),
            verify: view_opt(self.verify),
        }
    }
}

/// The single module under construction.
#[derive(Debug)]
pub struct ModGen {
    pub parent: String,
    pub fns: Vec<FnBlockGen>,
}

/// The mathematical model of the module under construction.
#[verifier::ext_equal]
pub struct ModView {
    pub parent: Seq<char>,
    pub fns: Seq<FnView>,
}

pub open spec fn fn_views(v: Seq<FnBlockGen>) -> Seq<FnView> {
    Seq::new(v.len(), |i: int| v[i]@)
}

impl View for ModGen {
    type V = ModView;

    open spec fn view(&self) -> ModView {
        ModView { parent: self.parent@, fns: fn_views(self.fns@) }
    }
}

impl Default for ModGen {
    fn default() -> (r: Self)
        ensures
            r@.parent == Seq::<char>::empty(),
            r@.fns == Seq::<FnView>::empty(),
    {
        let r = ModGen { parent: String::new(), fns: Vec::new() };
        proof {
            assert(r@.fns =~= Seq::<FnView>::empty());
        }
        r
    }
}

// ---------------------------------------------------------------------------
// The assembly fold
// ---------------------------------------------------------------------------

/// The rendered module-declaration text for a recognized header keyword.
pub open spec fn render_header(head: Seq<char>) -> Seq<char> {
    let marker = if head == "benchmarks_instance_pallet"@ {
        "#[instance_benchmarks]"@
    } else {
        "#[benchmarks]"@
    };
    marker + "\nmod "@ + head + " {"@
}

/// A fresh function opened by a `Fn` line: the captured name and the stored
/// raw body, nothing else.
pub open spec fn open_fn(head: Seq<char>, body: Option<Seq<char>>) -> FnView {
    FnView {
        name: head,
        params: Seq::empty(),
        raw_body: body,
        body: None,
        extrinsic: None,
        verify: None,
    }
}

pub open spec fn update_last(m: ModView, f: FnView) -> ModView {
    ModView { parent: m.parent, fns: m.fns.update(m.fns.len() - 1, f) }
}

/// The cleaning-and-validation of a captured body, as the assembler applies
/// it: the cleaned text if it parses as a statement block, else the failing
/// block text.
pub open spec fn clean_result(raw: Seq<char>) -> Result<Seq<char>, Seq<char>> {
    let cleaned = clean_spec(raw);
    let braced = "{ "@ + cleaned + " }"@;
    if parses_as_block(braced) {
        Ok(cleaned)
    } else {
        Err(braced)
    }
}

/// One step of the assembly fold.
pub open spec fn step_line(m: ModView, l: LineView) -> Result<
    ModView,
    (AssembleError, Seq<char>),
> {
    match l.kind {
        LineKind::Mod => match l.head {
            Some(h) => if m.parent.len() == 0 {
                Ok(ModView { parent: render_header(h), fns: m.fns })
            } else {
                Ok(m)
            },
            None => Ok(m),
        },
        LineKind::Fn => match l.head {
            Some(h) => Ok(ModView { parent: m.parent, fns: m.fns.push(open_fn(h, l.body)) }),
            None => Ok(m),
        },
        LineKind::FnParam => match l.param {
            Some(p) => if m.fns.len() == 0 {
                Err((AssembleError::NoOpenFunction, p.name))
            } else {
                let f = m.fns.last();
                let f1 = FnView { params: f.params.push(p), ..f };
                if f.params.len() == 0 {
                    match f.raw_body {
                        Some(raw) => match clean_result(raw) {
                            Ok(cleaned) => Ok(update_last(m, FnView { body: Some(cleaned), ..f1 })),
                            Err(braced) => Err((AssembleError::BodyUnparsable, braced)),
                        },
                        None => Ok(update_last(m, f1)),
                    }
                } else {
                    Ok(update_last(m, f1))
                }
            },
            None => Ok(m),
        },
        LineKind::Verify => match l.body {
            Some(b) => if m.fns.len() == 0 {
                Err((AssembleError::NoOpenFunction, b))
            } else {
                let f = m.fns.last();
                match clean_result(b) {
                    Ok(cleaned) => Ok(update_last(m, FnView { verify: Some(cleaned), ..f })),
                    Err(braced) => Err((AssembleError::BodyUnparsable, braced)),
                }
            },
            None => Ok(m),
        },
        LineKind::Extrinsic => match l.content {
            Some(c) => if m.fns.len() == 0 {
                Err((AssembleError::NoOpenFunction, c))
            } else {
                let f = m.fns.last();
                Ok(update_last(m, FnView { extrinsic: Some(extrinsic_spec(c)), ..f }))
            },
            None => Ok(m),
        },
        LineKind::Ensure => Ok(m),
        LineKind::Content => Ok(m),
    }
}

pub open spec fn empty_mod() -> ModView {
    ModView { parent: Seq::empty(), fns: Seq::empty() }
}

/// The assembly of the first `n` classified lines.
pub open spec fn assemble_prefix(ls: Seq<LineView>, n: int) -> Result<
    ModView,
    (AssembleError, Seq<char>),
>
    decreases n,
{
    if n <= 0 {
        Ok(empty_mod())
    } else {
        match assemble_prefix(ls, n - 1) {
            Ok(m) => step_line(m, ls[n - 1]),
            Err(e) => Err(e),
        }
    }
}

/// The assembly of a whole classified line sequence.
pub open spec fn assemble_spec(ls: Seq<LineView>) -> Result<
    ModView,
    (AssembleError, Seq<char>),
> {
    assemble_prefix(ls, ls.len() as int)
}

proof fn lemma_assemble_err_stable(ls: Seq<LineView>, k: int, n: int)
    requires
        0 <= k <= n,
        assemble_prefix(ls, k) is Err,
    ensures
        assemble_prefix(ls, n) == assemble_prefix(ls, k),
    decreases n - k,
{
    if n > k {
        lemma_assemble_err_stable(ls, k, n - 1);
    }
}

/// Renders the module-declaration text for a recognized header keyword.
fn render_header_exec(head: &str) -> (r: String)
    ensures
        r@ == render_header(head@),
{
    let marker: &str = if str_eq(head, "benchmarks_instance_pallet") {
        "#[instance_benchmarks]"
    } else {
        "#[benchmarks]"
    };
    let mut out = String::from_str(marker);
    out.append("\nmod ");
    out.append(head);
    out.append(" {");
    out
}

impl Writer {
    /// Assembles the classified line sequence into one module: an ordered,
    /// stateful reduction, left to right, one accumulator pass.
    pub fn generate_module(lines: Vec<BenchmarkLine>) -> (r: Result<ModGen, AssembleFailure>)
        ensures
            ({
                let m = assemble_spec(line_views(lines@));
                match r {
                    Ok(out) => m is Ok && out@ == m->Ok_0,
                    Err(f) => m is Err && f.error == m->Err_0.0 && f.detail@ == m->Err_0.1,
                }
            }),
    {
        let ghost ls = line_views(lines@);
        let mut out = ModGen::default();
        proof {
            assert(out@ =~= empty_mod());
        }
        let n = lines.len();
        let mut i: usize = 0;
        while i < n
            invariant
                0 <= i <= n,
                n == lines@.len(),
                ls == line_views(lines@),
                assemble_prefix(ls, i as int) is Ok,
                out@ == assemble_prefix(ls, i as int)->Ok_0,
            decreases n - i,
        {
            let ghost m0 = out@;
            let ghost l = ls[i as int];
            proof {
                assert(l == lines@[i as int]@);
            }
            let line = &lines[i];
            match line.kind {
                LineKind::Mod => {
                    match &line.head {
                        Some(h) => {
                            if out.parent.as_str().unicode_len() == 0 {
                                out.parent = render_header_exec(h.as_str());
                            }
                        },
                        None => {},
                    }
                },
                LineKind::Fn => {
                    match &line.head {
                        Some(h) => {
                            let raw: Option<String> = match &line.fn_body {
                                Some(b) => Some(b.clone()),
                                None => None,
                            };
                            out.fns.push(
                                FnBlockGen {
                                    name: h.clone(),
                                    params: Vec::new(),
                                    raw_body: raw,
                                    body: None,
                                    extrinsic: None,
                                    verify: None,
                                },
                            );
                            proof {
                                assert(fn_views(out.fns@) =~~= m0.fns.push(
                                    open_fn(l.head->Some_0, l.body),
                                ));
                            }
                        },
                        None => {},
                    }
                },
                LineKind::FnParam => {
                    match &line.param_content {
                        Some(p) => {
                            let p2 = BenchmarkParameter {
                                name: p.name.clone(),
                                range_start: p.range_start,
                                range_end: p.range_end.clone(),
                                terminator: p.terminator,
                            };
                            match out.fns.pop() {
                                Some(mut f) => {
                                    let ghost fv = f@;
                                    let first = f.params.len() == 0;
                                    f.params.push(p2);
                                    proof {
                                        assert(param_views(f.params@) =~~= fv.params.push(
                                            l.param->Some_0,
                                        ));
                                    }
                                    if first {
                                        let raw = match &f.raw_body {
                                            Some(b) => Some(b.clone()),
                                            None => None,
                                        };
                                        match raw {
                                            Some(b) => {
                                                match BlockWriter::clean_code_block(b.as_str()) {
                                                    Ok(cleaned) => {
                                                        f.body = Some(cleaned);
                                                    },
                                                    Err(braced) => {
                                                        proof {
                                                            lemma_assemble_err_stable(
                                                                ls,
                                                                i + 1,
                                                                ls.len() as int,
                                                            );
                                                        }
                                                        return Err(
                                                            AssembleFailure {
                                                                error: AssembleError::BodyUnparsable,
                                                                detail: braced,
                                                            },
                                                        );
                                                    },
                                                }
                                            },
                                            None => {},
                                        }
                                    }
                                    out.fns.push(f);
                                    proof {
                                        assert(fn_views(out.fns@) =~~= step_line(
                                            m0,
                                            l,
                                        )->Ok_0.fns);
                                    }
                                },
                                None => {
                                    proof {
                                        lemma_assemble_err_stable(ls, i + 1, ls.len() as int);
                                    }
                                    return Err(
                                        AssembleFailure {
                                            error: AssembleError::NoOpenFunction,
                                            detail: p2.name,
                                        },
                                    );
                                },
                            }
                        },
                        None => {},
                    }
                },
                LineKind::Verify => {
                    match &line.fn_body {
                        Some(b) => {
                            let b2 = b.clone();
                            match out.fns.pop() {
                                Some(mut f) => {
                                    match BlockWriter::clean_code_block(b2.as_str()) {
                                        Ok(cleaned) => {
                                            f.verify = Some(cleaned);
                                            out.fns.push(f);
                                            proof {
                                                assert(fn_views(out.fns@) =~~= step_line(
                                                    m0,
                                                    l,
                                                )->Ok_0.fns);
                                            }
                                        },
                                        Err(braced) => {
                                            proof {
                                                lemma_assemble_err_stable(
                                                    ls,
                                                    i + 1,
                                                    ls.len() as int,
                                                );
                                            }
                                            return Err(
                                                AssembleFailure {
                                                    error: AssembleError::BodyUnparsable,
                                                    detail: braced,
                                                },
                                            );
                                        },
                                    }
                                },
                                None => {
                                    proof {
                                        lemma_assemble_err_stable(ls, i + 1, ls.len() as int);
                                    }
                                    return Err(
                                        AssembleFailure {
                                            error: AssembleError::NoOpenFunction,
                                            detail: b2,
                                        },
                                    );
                                },
                            }
                        },
                        None => {},
                    }
                },
                LineKind::Extrinsic => {
                    match &line.content {
                        Some(c) => {
                            let c2 = c.clone();
                            match out.fns.pop() {
                                Some(mut f) => {
                                    f.extrinsic = Some(BlockWriter::extrinsic(c2.as_str()));
                                    out.fns.push(f);
                                    proof {
                                        assert(fn_views(out.fns@) =~~= step_line(
                                            m0,
                                            l,
                                        )->Ok_0.fns);
                                    }
                                },
                                None => {
                                    proof {
                                        lemma_assemble_err_stable(ls, i + 1, ls.len() as int);
                                    }
                                    return Err(
                                        AssembleFailure {
                                            error: AssembleError::NoOpenFunction,
                                            detail: c2,
                                        },
                                    );
                                },
                            }
                        },
                        None => {},
                    }
                },
                LineKind::Ensure => {},
                LineKind::Content => {},
            }
            proof {
                assert(step_line(m0, l) is Ok && out@ == step_line(m0, l)->Ok_0);
            }
            i = i + 1;
        }
        Ok(out)
    }
}

// ---------------------------------------------------------------------------
// Closing-brace adjustment
// ---------------------------------------------------------------------------

pub open spec fn str_views(v: Seq<String>) -> Seq<Seq<char>> {
    Seq::new(v.len(), |i: int| v[i]@)
}

/// Whether the line holds, at or after `i`, two closing braces separated
/// only by whitespace.
pub open spec fn has_misplaced_brackets(s: Seq<char>, i: int) -> bool
    decreases s.len() - i,
{
    if 0 <= i < s.len() {
        (s[i] == '}' && ({
            let w = ws_end(s, i + 1);
            w < s.len() && s[w] == '}'
        })) || has_misplaced_brackets(s, i + 1)
    } else {
        false
    }
}

pub open spec fn misplaced_line(s: Seq<char>) -> bool {
    has_misplaced_brackets(s, 0)
}

/// Whether the line's first non-whitespace character is a closing brace.
pub open spec fn closes_next(s: Seq<char>) -> bool {
    let a = ws_end(s, 0);
    a < s.len() && s[a] == '}'
}

/// A misplaced-bracket line is dropped when the following line closes a
/// block of its own; every other line stays.
pub open spec fn keep_line(ls: Seq<Seq<char>>, i: int) -> bool {
    !misplaced_line(ls[i]) || i == ls.len() - 1 || !closes_next(ls[i + 1])
}

pub open spec fn adjusted_prefix(ls: Seq<Seq<char>>, n: int) -> Seq<Seq<char>>
    decreases n,
{
    if 0 < n <= ls.len() {
        adjusted_prefix(ls, n - 1) + if keep_line(ls, n - 1) {
            seq![ls[n - 1]]
        } else {
            Seq::<Seq<char>>::empty()
        }
    } else {
        Seq::empty()
    }
}

pub open spec fn any_misplaced(ls: Seq<Seq<char>>, n: int) -> bool
    decreases n,
{
    0 < n <= ls.len() && (misplaced_line(ls[n - 1]) || any_misplaced(ls, n - 1))
}

fn misplaced_exec(s: &str) -> (r: bool)
    ensures
        r == misplaced_line(s@),
{
    let n = s.unicode_len();
    let mut i: usize = 0;
    while i < n
        invariant
            0 <= i <= n,
            n == s@.len(),
            misplaced_line(s@) == has_misplaced_brackets(s@, i as int),
        decreases n - i,
    {
        if s.get_char(i) == '}' {
            let w = skip_ws(s, i + 1);
            if w < n && s.get_char(w) == '}' {
                return true;
            }
        }
        i = i + 1;
    }
    false
}

fn closes_next_exec(s: &str) -> (r: bool)
    ensures
        r == closes_next(s@),
{
    let n = s.unicode_len();
    let a = skip_ws(s, 0);
    a < n && s.get_char(a) == '}'
}

impl Writer {
    /// Drops each line whose doubled closing brace is followed by a line
    /// that closes another block; fails when no line holds a doubled
    /// closing brace at all.
    pub fn adjust_module_closure(lines: Vec<String>) -> (r: Result<Vec<String>, AssembleError>)
        ensures
            ({
                let ls = str_views(lines@);
                match r {
                    Ok(out) => any_misplaced(ls, ls.len() as int) && str_views(out@)
                        == adjusted_prefix(ls, ls.len() as int),
                    Err(e) => !any_misplaced(ls, ls.len() as int) && e
                        == AssembleError::NoMisplacedBracket,
                }
            }),
    {
        let ghost ls = str_views(lines@);
        let mut adjusted: Vec<String> = Vec::new();
        let mut found = false;
        let n = lines.len();
        let mut i: usize = 0;
        proof {
            assert(str_views(adjusted@) =~= adjusted_prefix(ls, 0));
        }
        while i < n
            invariant
                0 <= i <= n,
                n == lines@.len(),
                ls == str_views(lines@),
                found == any_misplaced(ls, i as int),
                str_views(adjusted@) == adjusted_prefix(ls, i as int),
            decreases n - i,
        {
            let ghost prev = adjusted@;
            let line = &lines[i];
            let keep: bool = if misplaced_exec(line.as_str()) {
                found = true;
                i == n - 1 || !closes_next_exec(lines[i + 1].as_str())
            } else {
                true
            };
            proof {
                assert(keep == keep_line(ls, i as int));
            }
            if keep {
                adjusted.push(line.clone());
                proof {
                    assert(str_views(adjusted@) =~= adjusted_prefix(ls, i + 1));
                }
            } else {
                proof {
                    assert(str_views(adjusted@) =~= adjusted_prefix(ls, i + 1));
                }
            }
            i = i + 1;
        }
        if !found {
            return Err(AssembleError::NoMisplacedBracket);
        }
        Ok(adjusted)
    }
}

// ---------------------------------------------------------------------------
// Laws of the assembly fold
// ---------------------------------------------------------------------------

proof fn lemma_assemble_prefix_push(ls: Seq<LineView>, l: LineView, n: int)
    requires
        0 <= n <= ls.len(),
    ensures
        assemble_prefix(ls.push(l), n) == assemble_prefix(ls, n),
    decreases n,
{
    if n > 0 {
        lemma_assemble_prefix_push(ls, l, n - 1);
        assert(ls.push(l)[n - 1] == ls[n - 1]);
    }
}

/// Appending one line to a classified sequence runs exactly one more fold
/// step on the assembled module.
pub proof fn lemma_assemble_push(ls: Seq<LineView>, l: LineView)
    requires
        assemble_spec(ls) is Ok,
    ensures
        assemble_spec(ls.push(l)) == step_line(assemble_spec(ls)->Ok_0, l),
{
    lemma_assemble_prefix_push(ls, l, ls.len() as int);
    assert(ls.push(l)[ls.len() as int] == l);
}

/// Passthrough content and assertion lines leave the assembly unchanged:
/// they contribute no output field.
pub proof fn lemma_passthrough_preserves(ls: Seq<LineView>, l: LineView)
    requires
        l.kind == LineKind::Content || l.kind == LineKind::Ensure,
        assemble_spec(ls) is Ok,
    ensures
        assemble_spec(ls.push(l)) == assemble_spec(ls),
{
    lemma_assemble_push(ls, l);
}

/// A parameter line appends its parameter to the parameter list of the most
/// recently opened function and touches no other function.  Together with
/// `lemma_passthrough_preserves`, parameters appear in the signature in
/// source order no matter how many passthrough lines intervene.
pub proof fn lemma_param_order(ls: Seq<LineView>, l: LineView)
    requires
        l.kind == LineKind::FnParam,
        l.param is Some,
        assemble_spec(ls) is Ok,
        assemble_spec(ls)->Ok_0.fns.len() > 0,
        ({
            let f = assemble_spec(ls)->Ok_0.fns.last();
            f.params.len() == 0 && f.raw_body is Some ==> clean_result(f.raw_body->Some_0) is Ok
        }),
    ensures
        assemble_spec(ls.push(l)) is Ok,
        ({
            let m0 = assemble_spec(ls)->Ok_0;
            let m1 = assemble_spec(ls.push(l))->Ok_0;
            &&& m1.parent == m0.parent
            &&& m1.fns.len() == m0.fns.len()
            &&& m1.fns.last().name == m0.fns.last().name
            &&& m1.fns.last().params == m0.fns.last().params.push(l.param->Some_0)
            &&& forall|i: int| 0 <= i < m0.fns.len() - 1 ==> m1.fns[i] == m0.fns[i]
        }),
{
    lemma_assemble_push(ls, l);
}

/// Rendering a parameter list grown by one parameter appends exactly that
/// parameter's line to the rendered list: the signature grows monotonically.
pub proof fn lemma_params_render_push(ps: Seq<ParamView>, p: ParamView, i: int)
    requires
        0 <= i <= ps.len(),
    ensures
        params_render_from(ps.push(p), i) == params_render_from(ps, i) + ("        "@
            + fn_input_spec(p) + "\n"@),
    decreases ps.len() - i,
{
    if i < ps.len() {
        lemma_params_render_push(ps, p, i + 1);
        assert(ps.push(p)[i] == ps[i]);
        assert(params_render_from(ps.push(p), i) =~= params_render_from(ps, i) + ("        "@
            + fn_input_spec(p) + "\n"@));
    } else {
        assert(ps.push(p)[i] == p);
        assert(params_render_from(ps.push(p), i + 1) == Seq::<char>::empty());
        assert(params_render_from(ps.push(p), i) =~= params_render_from(ps, i) + ("        "@
            + fn_input_spec(p) + "\n"@));
    }
}

/// Serializing an assembled module twice without remodification yields
/// identical text: rendering is a function of the module alone.
pub proof fn lemma_serialize_idempotent(m: ModView, first: Seq<char>, second: Seq<char>)
    requires
        first == render_spec(m),
        second == render_spec(m),
    ensures
        first == second,
{
}

// ---------------------------------------------------------------------------
// The serializer
// ---------------------------------------------------------------------------

/// The rendered parameter list from index `i` on, one parameter per line.
pub open spec fn params_render_from(ps: Seq<ParamView>, i: int) -> Seq<char>
    decreases ps.len() - i,
{
    if 0 <= i < ps.len() {
        "        "@ + fn_input_spec(ps[i]) + "\n"@ + params_render_from(ps, i + 1)
    } else {
        Seq::empty()
    }
}

/// Each line of `s` indented into the function body.
pub open spec fn indent_lines(s: Seq<char>) -> Seq<char>
    decreases s.len(),
{
    let j = find_char(s, 0, '\n');
    if 0 <= j < s.len() {
        "        "@ + s.subrange(0, j) + "\n"@ + indent_lines(s.subrange(j + 1, s.len() as int))
    } else {
        "        "@ + s + "\n"@
    }
}

pub open spec fn opt_stmt_line(o: Option<Seq<char>>) -> Seq<char> {
    match o {
        Some(b) => if b.len() == 0 {
            Seq::empty()
        } else {
            "        "@ + b + "\n"@
        },
        None => Seq::empty(),
    }
}

pub open spec fn opt_ext_lines(o: Option<Seq<char>>) -> Seq<char> {
    match o {
        Some(e) => indent_lines(e),
        None => Seq::empty(),
    }
}

/// One rendered function: marker, name, parameter list, result type, and the
/// body pieces in order.
pub open spec fn fn_render(f: FnView) -> Seq<char> {
    "    #[benchmark]\n    fn "@ + f.name + "(\n"@ + params_render_from(f.params, 0)
        + "    ) -> Result<(), BenchmarkError> {\n"@ + opt_stmt_line(f.body) + opt_ext_lines(
        f.extrinsic,
    ) + opt_stmt_line(f.verify) + "    }"@
}

pub open spec fn fns_render_from(fs: Seq<FnView>, i: int) -> Seq<char>
    decreases fs.len() - i,
{
    if 0 <= i < fs.len() {
        "\n\n"@ + fn_render(fs[i]) + fns_render_from(fs, i + 1)
    } else {
        Seq::empty()
    }
}

/// The whole rendered module: header, functions in declaration order, and
/// the closing delimiter.
pub open spec fn render_spec(m: ModView) -> Seq<char> {
    m.parent + fns_render_from(m.fns, 0) + "\n}"@
}

fn params_render_exec(ps: &Vec<BenchmarkParameter>, i: usize) -> (r: String)
    requires
        i <= ps@.len(),
    ensures
        r@ == params_render_from(param_views(ps@), i as int),
    decreases ps@.len() - i,
{
    if i < ps.len() {
        let one = ParamWriter::fn_input(&ps[i]);
        let mut out = String::from_str("        ");
        out.append(one.as_str());
        out.append("\n");
        let rest = params_render_exec(ps, i + 1);
        out.append(rest.as_str());
        proof {
            assert(param_views(ps@)[i as int] == ps@[i as int]@);
            assert(out@ =~= params_render_from(param_views(ps@), i as int));
        }
        out
    } else {
        String::new()
    }
}

fn indent_lines_exec(s: &str) -> (r: String)
    ensures
        r@ == indent_lines(s@),
    decreases s@.len(),
{
    let n = s.unicode_len();
    let j = find_char_from(s, 0, '\n');
    if j < n {
        let mut out = String::from_str("        ");
        out.append(capture(s, 0, j).as_str());
        out.append("\n");
        let rest = indent_lines_exec(capture(s, j + 1, n).as_str());
        out.append(rest.as_str());
        proof {
            assert(out@ =~= indent_lines(s@));
        }
        out
    } else {
        let mut out = String::from_str("        ");
        out.append(s);
        out.append("\n");
        proof {
            assert(out@ =~= indent_lines(s@));
        }
        out
    }
}

fn fn_render_exec(f: &FnBlockGen) -> (r: String)
    ensures
        r@ == fn_render(f@),
{
    let mut out = String::from_str("    #[benchmark]\n    fn ");
    out.append(f.name.as_str());
    out.append("(\n");
    out.append(params_render_exec(&f.params, 0).as_str());
    out.append("    ) -> Result<(), BenchmarkError> {\n");
    match &f.body {
        Some(b) => {
            if b.as_str().unicode_len() > 0 {
                out.append("        ");
                out.append(b.as_str());
                out.append("\n");
            }
        },
        None => {},
    }
    match &f.extrinsic {
        Some(e) => {
            out.append(indent_lines_exec(e.as_str()).as_str());
        },
        None => {},
    }
    match &f.verify {
        Some(v) => {
            if v.as_str().unicode_len() > 0 {
                out.append("        ");
                out.append(v.as_str());
                out.append("\n");
            }
        },
        None => {},
    }
    out.append("    }");
    proof {
        assert(out@ =~= fn_render(f@));
    }
    out
}

fn fns_render_exec(fs: &Vec<FnBlockGen>, i: usize) -> (r: String)
    requires
        i <= fs@.len(),
    ensures
        r@ == fns_render_from(fn_views(fs@), i as int),
    decreases fs@.len() - i,
{
    if i < fs.len() {
        let mut out = String::from_str("\n\n");
        out.append(fn_render_exec(&fs[i]).as_str());
        out.append(fns_render_exec(fs, i + 1).as_str());
        proof {
            assert(fn_views(fs@)[i as int] == fs@[i as int]@);
            assert(out@ =~= fns_render_from(fn_views(fs@), i as int));
        }
        out
    } else {
        String::new()
    }
}

impl ModGen {
    /// Serializes the assembled module.  Rendering is a function of the
    /// module alone, so serializing twice yields identical text.
    pub fn render(&self) -> (r: String)
        ensures
            r@ == render_spec(self@),
    {
        let mut out = String::from_str(self.parent.as_str());
        out.append(fns_render_exec(&self.fns, 0).as_str());
        out.append("\n}");
        proof {
            assert(out@ =~= render_spec(self@));
        }
        out
    }
}

} // verus!
