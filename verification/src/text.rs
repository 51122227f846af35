//! Character-level scanning primitives shared by the lexer and the parsers.
//!
//! Every exec function here is specified against a small set of spec
//! functions (`run_end`, `find_char`, `find_sub`, `trim_spec`, ...) that the
//! grammar definitions in the other modules are written with.

use vstd::prelude::*;

verus! {

// ---------------------------------------------------------------------------
// Character classes
// ---------------------------------------------------------------------------

pub open spec fn is_ws_char(c: char) -> bool {
    c == ' ' || c == '\t' || c == '\r' || c == '\n'
}

pub open spec fn is_digit_char(c: char) -> bool {
    48 <= c as u32 <= 57
}

pub open spec fn is_alpha_char(c: char) -> bool {
    (97 <= c as u32 <= 122) || (65 <= c as u32 <= 90)
}

pub open spec fn is_word_char(c: char) -> bool {
    is_alpha_char(c) || is_digit_char(c) || c == '_'
}

/// Characters allowed in a benchmark function name: letters and separators.
pub open spec fn is_fn_name_char(c: char) -> bool {
    is_alpha_char(c) || c == '_'
}

// ---------------------------------------------------------------------------
// Runs and searches
// ---------------------------------------------------------------------------

/// End of the run of characters satisfying `p` that starts at `i`:
/// the first position at or after `i` whose character fails `p`, or `s.len()`.
pub open spec fn run_end(s: Seq<char>, i: int, p: spec_fn(char) -> bool) -> int
    decreases s.len() - i,
{
    if 0 <= i < s.len() && p(s[i]) {
        run_end(s, i + 1, p)
    } else {
        i
    }
}

pub open spec fn ws_end(s: Seq<char>, i: int) -> int {
    run_end(s, i, |c: char| is_ws_char(c))
}

pub open spec fn alpha_end(s: Seq<char>, i: int) -> int {
    run_end(s, i, |c: char| is_alpha_char(c))
}

pub open spec fn digit_end(s: Seq<char>, i: int) -> int {
    run_end(s, i, |c: char| is_digit_char(c))
}

pub open spec fn word_end(s: Seq<char>, i: int) -> int {
    run_end(s, i, |c: char| is_word_char(c))
}

pub open spec fn fn_name_end(s: Seq<char>, i: int) -> int {
    run_end(s, i, |c: char| is_fn_name_char(c))
}

pub proof fn lemma_run_end(s: Seq<char>, i: int, p: spec_fn(char) -> bool)
    requires
        0 <= i <= s.len(),
    ensures
        i <= run_end(s, i, p) <= s.len(),
        forall|k: int| i <= k < run_end(s, i, p) ==> p(s[k]),
        run_end(s, i, p) < s.len() ==> !p(s[run_end(s, i, p)]),
    decreases s.len() - i,
{
    if i < s.len() && p(s[i]) {
        lemma_run_end(s, i + 1, p);
    }
}

/// A position with the run-end characterization is the run end.
pub proof fn lemma_run_end_is(s: Seq<char>, i: int, p: spec_fn(char) -> bool, j: int)
    requires
        0 <= i <= j <= s.len(),
        forall|k: int| i <= k < j ==> p(s[k]),
        j < s.len() ==> !p(s[j]),
    ensures
        run_end(s, i, p) == j,
    decreases j - i,
{
    if i < j {
        assert(p(s[i]));
        lemma_run_end_is(s, i + 1, p, j);
    }
}

/// First position at or after `i` holding `c`, or `s.len()` if there is none.
pub open spec fn find_char(s: Seq<char>, i: int, c: char) -> int
    decreases s.len() - i,
{
    if 0 <= i < s.len() {
        if s[i] == c {
            i
        } else {
            find_char(s, i + 1, c)
        }
    } else {
        s.len() as int
    }
}

pub proof fn lemma_find_char_is(s: Seq<char>, i: int, c: char, j: int)
    requires
        0 <= i <= j <= s.len(),
        forall|k: int| i <= k < j ==> s[k] != c,
        j < s.len() ==> s[j] == c,
    ensures
        find_char(s, i, c) == j,
    decreases j - i,
{
    if i < j {
        lemma_find_char_is(s, i + 1, c, j);
    }
}

/// The pattern `pat` occurs in `s` at position `i`.
pub open spec fn match_at(s: Seq<char>, i: int, pat: Seq<char>) -> bool {
    0 <= i && i + pat.len() <= s.len() && s.subrange(i, i + pat.len()) == pat
}

/// First position at or after `i` where `pat` occurs, or `s.len()` if none.
pub open spec fn find_sub(s: Seq<char>, i: int, pat: Seq<char>) -> int
    decreases s.len() - i,
{
    if 0 <= i <= s.len() {
        if match_at(s, i, pat) {
            i
        } else if i < s.len() {
            find_sub(s, i + 1, pat)
        } else {
            s.len() as int
        }
    } else {
        s.len() as int
    }
}

pub proof fn lemma_find_sub_is(s: Seq<char>, i: int, pat: Seq<char>, j: int)
    requires
        0 <= i <= j <= s.len(),
        forall|k: int| i <= k < j ==> !match_at(s, k, pat),
        j < s.len() ==> match_at(s, j, pat),
        j == s.len() ==> !match_at(s, j, pat),
    ensures
        find_sub(s, i, pat) == j,
    decreases j - i,
{
    if i < j {
        lemma_find_sub_is(s, i + 1, pat, j);
    }
}

pub open spec fn contains_sub(s: Seq<char>, pat: Seq<char>) -> bool {
    find_sub(s, 0, pat) < s.len()
}

pub open spec fn contains_char(s: Seq<char>, c: char) -> bool {
    find_char(s, 0, c) < s.len()
}

// ---------------------------------------------------------------------------
// Trimming
// ---------------------------------------------------------------------------

/// Start of the run of trailing whitespace that ends at `j`: the smallest
/// `j' <= j` such that every character in `[j', j)` is whitespace.
pub open spec fn rev_ws_start(s: Seq<char>, j: int) -> int
    decreases j,
{
    if 0 < j <= s.len() && is_ws_char(s[j - 1]) {
        rev_ws_start(s, j - 1)
    } else {
        j
    }
}

pub proof fn lemma_rev_ws_start_is(s: Seq<char>, j: int, j2: int)
    requires
        0 <= j2 <= j <= s.len(),
        forall|k: int| j2 <= k < j ==> is_ws_char(s[k]),
        j2 > 0 ==> !is_ws_char(s[j2 - 1]),
    ensures
        rev_ws_start(s, j) == j2,
    decreases j - j2,
{
    if j2 < j {
        lemma_rev_ws_start_is(s, j - 1, j2);
    }
}

/// `s` with leading and trailing whitespace removed.
pub open spec fn trim_spec(s: Seq<char>) -> Seq<char> {
    let a = ws_end(s, 0);
    let b = rev_ws_start(s, s.len() as int);
    if a <= b {
        s.subrange(a, b)
    } else {
        Seq::empty()
    }
}

// ---------------------------------------------------------------------------
// Executable scanning
// ---------------------------------------------------------------------------

pub fn is_ws_exec(c: char) -> (r: bool)
    ensures
        r == is_ws_char(c),
{
    c == ' ' || c == '\t' || c == '\r' || c == '\n'
}

pub fn is_digit_exec(c: char) -> (r: bool)
    ensures
        r == is_digit_char(c),
{
    let u = c as u32;
    48 <= u && u <= 57
}

pub fn is_alpha_exec(c: char) -> (r: bool)
    ensures
        r == is_alpha_char(c),
{
    let u = c as u32;
    (97 <= u && u <= 122) || (65 <= u && u <= 90)
}

pub fn is_word_exec(c: char) -> (r: bool)
    ensures
        r == is_word_char(c),
{
    is_alpha_exec(c) || is_digit_exec(c) || c == '_'
}

pub fn is_fn_name_exec(c: char) -> (r: bool)
    ensures
        r == is_fn_name_char(c),
{
    is_alpha_exec(c) || c == '_'
}

pub fn skip_ws(s: &str, i: usize) -> (j: usize)
    requires
        i <= s@.len(),
    ensures
        j == ws_end(s@, i as int),
        i <= j <= s@.len(),
        forall|k: int| i <= k < j ==> is_ws_char(s@[k]),
        j < s@.len() ==> !is_ws_char(s@[j as int]),
{
    let n = s.unicode_len();
    let mut j = i;
    loop
        invariant
            i <= j <= n,
            n == s@.len(),
            forall|k: int| i <= k < j ==> is_ws_char(s@[k]),
        ensures
            i <= j <= n,
            forall|k: int| i <= k < j ==> is_ws_char(s@[k]),
            j < n ==> !is_ws_char(s@[j as int]),
        decreases n - j,
    {
        if j < n && is_ws_exec(s.get_char(j)) {
            j = j + 1;
        } else {
            break;
        }
    }
    proof {
        lemma_run_end_is(s@, i as int, |c: char| is_ws_char(c), j as int);
    }
    j
}

pub fn scan_alpha(s: &str, i: usize) -> (j: usize)
    requires
        i <= s@.len(),
    ensures
        j == alpha_end(s@, i as int),
        i <= j <= s@.len(),
{
    let n = s.unicode_len();
    let mut j = i;
    loop
        invariant
            i <= j <= n,
            n == s@.len(),
            forall|k: int| i <= k < j ==> is_alpha_char(s@[k]),
        ensures
            i <= j <= n,
            forall|k: int| i <= k < j ==> is_alpha_char(s@[k]),
            j < n ==> !is_alpha_char(s@[j as int]),
        decreases n - j,
    {
        if j < n && is_alpha_exec(s.get_char(j)) {
            j = j + 1;
        } else {
            break;
        }
    }
    proof {
        lemma_run_end_is(s@, i as int, |c: char| is_alpha_char(c), j as int);
    }
    j
}

pub fn scan_digits(s: &str, i: usize) -> (j: usize)
    requires
        i <= s@.len(),
    ensures
        j == digit_end(s@, i as int),
        i <= j <= s@.len(),
        forall|k: int| i <= k < j ==> is_digit_char(s@[k]),
{
    let n = s.unicode_len();
    let mut j = i;
    loop
        invariant
            i <= j <= n,
            n == s@.len(),
            forall|k: int| i <= k < j ==> is_digit_char(s@[k]),
        ensures
            i <= j <= n,
            forall|k: int| i <= k < j ==> is_digit_char(s@[k]),
            j < n ==> !is_digit_char(s@[j as int]),
        decreases n - j,
    {
        if j < n && is_digit_exec(s.get_char(j)) {
            j = j + 1;
        } else {
            break;
        }
    }
    proof {
        lemma_run_end_is(s@, i as int, |c: char| is_digit_char(c), j as int);
    }
    j
}

pub fn scan_word(s: &str, i: usize) -> (j: usize)
    requires
        i <= s@.len(),
    ensures
        j == word_end(s@, i as int),
        i <= j <= s@.len(),
{
    let n = s.unicode_len();
    let mut j = i;
    loop
        invariant
            i <= j <= n,
            n == s@.len(),
            forall|k: int| i <= k < j ==> is_word_char(s@[k]),
        ensures
            i <= j <= n,
            forall|k: int| i <= k < j ==> is_word_char(s@[k]),
            j < n ==> !is_word_char(s@[j as int]),
        decreases n - j,
    {
        if j < n && is_word_exec(s.get_char(j)) {
            j = j + 1;
        } else {
            break;
        }
    }
    proof {
        lemma_run_end_is(s@, i as int, |c: char| is_word_char(c), j as int);
    }
    j
}

pub fn scan_fn_name(s: &str, i: usize) -> (j: usize)
    requires
        i <= s@.len(),
    ensures
        j == fn_name_end(s@, i as int),
        i <= j <= s@.len(),
{
    let n = s.unicode_len();
    let mut j = i;
    loop
        invariant
            i <= j <= n,
            n == s@.len(),
            forall|k: int| i <= k < j ==> is_fn_name_char(s@[k]),
        ensures
            i <= j <= n,
            forall|k: int| i <= k < j ==> is_fn_name_char(s@[k]),
            j < n ==> !is_fn_name_char(s@[j as int]),
        decreases n - j,
    {
        if j < n && is_fn_name_exec(s.get_char(j)) {
            j = j + 1;
        } else {
            break;
        }
    }
    proof {
        lemma_run_end_is(s@, i as int, |c: char| is_fn_name_char(c), j as int);
    }
    j
}

pub fn find_char_from(s: &str, i: usize, c: char) -> (j: usize)
    requires
        i <= s@.len(),
    ensures
        j == find_char(s@, i as int, c),
        i <= j <= s@.len(),
        j < s@.len() ==> s@[j as int] == c,
{
    let n = s.unicode_len();
    let mut j = i;
    loop
        invariant
            i <= j <= n,
            n == s@.len(),
            forall|k: int| i <= k < j ==> s@[k] != c,
        ensures
            i <= j <= n,
            forall|k: int| i <= k < j ==> s@[k] != c,
            j < n ==> s@[j as int] == c,
        decreases n - j,
    {
        if j < n && s.get_char(j) != c {
            j = j + 1;
        } else {
            break;
        }
    }
    proof {
        lemma_find_char_is(s@, i as int, c, j as int);
    }
    j
}

/// Whether `pat` occurs in `s` at position `i`.
pub fn match_at_exec(s: &str, i: usize, pat: &str) -> (b: bool)
    ensures
        b == match_at(s@, i as int, pat@),
{
    let n = s.unicode_len();
    let m = pat.unicode_len();
    if i > n || m > n - i {
        proof {
            assert(!(i + pat@.len() <= s@.len()));
        }
        return false;
    }
    let mut k: usize = 0;
    loop
        invariant
            0 <= k <= m,
            i + m <= n,
            n == s@.len(),
            m == pat@.len(),
            forall|q: int| 0 <= q < k ==> s@[i + q] == pat@[q],
        ensures
            forall|q: int| 0 <= q < m ==> s@[i + q] == pat@[q],
        decreases m - k,
    {
        if k < m {
            if s.get_char(i + k) != pat.get_char(k) {
                proof {
                    assert(s@.subrange(i as int, i + pat@.len())[k as int] != pat@[k as int]);
                }
                return false;
            }
            k = k + 1;
        } else {
            break;
        }
    }
    proof {
        assert forall|q: int| 0 <= q < pat@.len() implies s@.subrange(
            i as int,
            i + pat@.len(),
        )[q] == pat@[q] by {}
        assert(s@.subrange(i as int, i + pat@.len()) =~= pat@);
    }
    true
}

pub fn find_sub_from(s: &str, i: usize, pat: &str) -> (j: usize)
    requires
        i <= s@.len(),
        pat@.len() > 0,
    ensures
        j == find_sub(s@, i as int, pat@),
        i <= j <= s@.len(),
        j < s@.len() ==> match_at(s@, j as int, pat@),
{
    let n = s.unicode_len();
    let mut j = i;
    loop
        invariant
            i <= j <= n,
            n == s@.len(),
            forall|k: int| i <= k < j ==> !match_at(s@, k, pat@),
        ensures
            i <= j <= n,
            forall|k: int| i <= k < j ==> !match_at(s@, k, pat@),
            j < n ==> match_at(s@, j as int, pat@),
        decreases n - j,
    {
        if j < n && !match_at_exec(s, j, pat) {
            j = j + 1;
        } else {
            break;
        }
    }
    proof {
        lemma_find_sub_is(s@, i as int, pat@, j as int);
    }
    j
}

pub fn contains_sub_exec(s: &str, pat: &str) -> (b: bool)
    requires
        pat@.len() > 0,
    ensures
        b == contains_sub(s@, pat@),
{
    let j = find_sub_from(s, 0, pat);
    j < s.unicode_len()
}

pub fn contains_char_exec(s: &str, c: char) -> (b: bool)
    ensures
        b == contains_char(s@, c),
{
    let j = find_char_from(s, 0, c);
    j < s.unicode_len()
}

// ---------------------------------------------------------------------------
// Capture and trim
// ---------------------------------------------------------------------------

/// The substring `s[from..to]` as an owned string.
pub fn capture(s: &str, from: usize, to: usize) -> (r: String)
    requires
        from <= to <= s@.len(),
    ensures
        r@ == s@.subrange(from as int, to as int),
{
    String::from_str(s.substring_char(from, to))
}

/// `s` with leading and trailing whitespace removed.
pub fn trim(s: &str) -> (r: String)
    ensures
        r@ == trim_spec(s@),
{
    let n = s.unicode_len();
    let a = skip_ws(s, 0);
    let mut b = n;
    loop
        invariant
            0 <= b <= n,
            n == s@.len(),
            forall|k: int| b <= k < n ==> is_ws_char(s@[k]),
        ensures
            0 <= b <= n,
            forall|k: int| b <= k < n ==> is_ws_char(s@[k]),
            b > 0 ==> !is_ws_char(s@[b - 1]),
        decreases b,
    {
        if b > 0 && is_ws_exec(s.get_char(b - 1)) {
            b = b - 1;
        } else {
            break;
        }
    }
    proof {
        lemma_rev_ws_start_is(s@, s@.len() as int, b as int);
    }
    if a <= b {
        capture(s, a, b)
    } else {
        proof {
            lemma_run_end(s@, 0, |c: char| is_ws_char(c));
        }
        String::new()
    }
}

/// Start of the whitespace run that ends at `j`, scanning backwards.
pub fn rev_skip_ws(s: &str, j: usize) -> (v: usize)
    requires
        j <= s@.len(),
    ensures
        v == rev_ws_start(s@, j as int),
        v <= j,
        v > 0 ==> !is_ws_char(s@[v - 1]),
{
    let mut v = j;
    loop
        invariant
            0 <= v <= j <= s@.len(),
            forall|k: int| v <= k < j ==> is_ws_char(s@[k]),
        ensures
            0 <= v <= j,
            forall|k: int| v <= k < j ==> is_ws_char(s@[k]),
            v > 0 ==> !is_ws_char(s@[v - 1]),
        decreases v,
    {
        if v > 0 && is_ws_exec(s.get_char(v - 1)) {
            v = v - 1;
        } else {
            break;
        }
    }
    proof {
        lemma_rev_ws_start_is(s@, j as int, v as int);
    }
    v
}

/// `s[from..to]` trimmed of leading and trailing whitespace.
pub fn capture_trimmed(s: &str, from: usize, to: usize) -> (r: String)
    requires
        from <= to <= s@.len(),
    ensures
        r@ == trim_spec(s@.subrange(from as int, to as int)),
{
    let sub = capture(s, from, to);
    trim(sub.as_str())
}

/// Whether the two strings hold the same characters.
pub fn str_eq(a: &str, b: &str) -> (r: bool)
    ensures
        r == (a@ == b@),
{
    let n = a.unicode_len();
    if n != b.unicode_len() {
        proof {
            assert(a@ != b@);
        }
        return false;
    }
    let mut k: usize = 0;
    loop
        invariant
            0 <= k <= n,
            n == a@.len(),
            n == b@.len(),
            forall|q: int| 0 <= q < k ==> a@[q] == b@[q],
        ensures
            forall|q: int| 0 <= q < n ==> a@[q] == b@[q],
        decreases n - k,
    {
        if k < n {
            if a.get_char(k) != b.get_char(k) {
                return false;
            }
            k = k + 1;
        } else {
            break;
        }
    }
    proof {
        assert(a@ =~= b@);
    }
    true
}

// ---------------------------------------------------------------------------
// Concatenation
// ---------------------------------------------------------------------------

/// `a` followed by `b`.
pub fn concat2(a: &str, b: &str) -> (r: String)
    ensures
        r@ == a@ + b@,
{
    let mut r = String::from_str(a);
    r.append(b);
    r
}

/// `a` followed by `b` followed by `c`.
pub fn concat3(a: &str, b: &str, c: &str) -> (r: String)
    ensures
        r@ == a@ + b@ + c@,
{
    let mut r = String::from_str(a);
    r.append(b);
    r.append(c);
    r
}

} // verus!
