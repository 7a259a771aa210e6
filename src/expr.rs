//! Filter expressions: a recursive-descent parser over the raw text, and the
//! evaluator that tests one record.
use vstd::prelude::*;
use crate::field::{Field, FilterError, field_known, names_field, field_value, is_call};
use crate::har::Entry;
use crate::pattern::{Pattern, regex_compiles, regex_finds};
use crate::text::{
    trim, trim_start, trim_end, has_prefix, has_suffix, occurs_at, find_first, contains,
    ascii_lower, chars_of, trim_str, occurs_at_exec, find_exec, starts_with_exec,
    ends_with_exec, contains_exec, ascii_lower_exec, same_chars,
};
use crate::value::{Value, lit_eq, lit_gt, lit_ge, lit_lt, lit_le, lit_truthy, lit_text, literal_lit, unquote, unquote_trimmed};

verus! {

/// A parsed filter.
#[derive(Debug)]
pub enum FilterExpr {
    Eq(Field, Value),
    Ne(Field, Value),
    Gt(Field, Value),
    Ge(Field, Value),
    Lt(Field, Value),
    Le(Field, Value),
    Contains(Field, String),
    StartsWith(Field, String),
    EndsWith(Field, String),
    Matches(Field, Pattern),
    And(Box<FilterExpr>, Box<FilterExpr>),
    Or(Box<FilterExpr>, Box<FilterExpr>),
    Not(Box<FilterExpr>),
    /// The field's value is truthy.
    Bool(Field),
}

/// The kinds of parse failure.
pub enum ErrorKind {
    UnknownField,
    InvalidRegex,
    UnparsableExpression,
}

impl FilterError {
    pub open spec fn kind(self) -> ErrorKind {
        match self {
            FilterError::UnknownField(_) => ErrorKind::UnknownField,
            FilterError::InvalidRegex(_) => ErrorKind::InvalidRegex,
            FilterError::UnparsableExpression(_) => ErrorKind::UnparsableExpression,
        }
    }
}

// ----- scanning -----
/// Parenthesis depth never drops below zero and ends at zero, starting from `depth`.
pub open spec fn balanced_from(s: Seq<char>, depth: int) -> bool
    decreases s.len(),
{
    if s.len() == 0 {
        depth == 0
    } else {
        let d = if s[0] == '(' {
            depth + 1
        } else if s[0] == ')' {
            depth - 1
        } else {
            depth
        };
        d >= 0 && balanced_from(s.drop_first(), d)
    }
}

pub open spec fn balanced(s: Seq<char>) -> bool {
    balanced_from(s, 0)
}

/// Scans `s` from index `i` for `pat` at parenthesis depth zero and outside
/// quotes; `depth`, `in_quote` and `quote` are the scan state at `i`. A
/// quote closes at the same quote character unless a backslash precedes it.
pub open spec fn scan_top(
    s: Seq<char>,
    pat: Seq<char>,
    i: int,
    depth: int,
    in_quote: bool,
    quote: char,
) -> Option<int>
    decreases s.len() - i,
{
    if i < 0 || i >= s.len() {
        None
    } else {
        let c = s[i];
        if in_quote {
            let closes = c == quote && (i == 0 || s[i - 1] != '\\');
            scan_top(s, pat, i + 1, depth, !closes, quote)
        } else if c == '"' || c == '\'' {
            scan_top(s, pat, i + 1, depth, true, c)
        } else if c == '(' {
            scan_top(s, pat, i + 1, depth + 1, false, quote)
        } else if c == ')' {
            scan_top(s, pat, i + 1, depth - 1, false, quote)
        } else if depth == 0 && occurs_at(s, pat, i) {
            Some(i)
        } else {
            scan_top(s, pat, i + 1, depth, false, quote)
        }
    }
}

/// The first top-level occurrence of `pat` in `s`.
pub open spec fn top_level(s: Seq<char>, pat: Seq<char>) -> Option<int> {
    scan_top(s, pat, 0, 0, false, '"')
}

pub proof fn lemma_scan_top(
    s: Seq<char>,
    pat: Seq<char>,
    i: int,
    depth: int,
    in_quote: bool,
    quote: char,
)
    ensures
        scan_top(s, pat, i, depth, in_quote, quote) matches Some(k) ==> i <= k && occurs_at(
            s,
            pat,
            k,
        ),
    decreases s.len() - i,
{
    if i < 0 || i >= s.len() {
    } else {
        let c = s[i];
        if in_quote {
            let closes = c == quote && (i == 0 || s[i - 1] != '\\');
            lemma_scan_top(s, pat, i + 1, depth, !closes, quote);
        } else if c == '"' || c == '\'' {
            lemma_scan_top(s, pat, i + 1, depth, true, c);
        } else if c == '(' {
            lemma_scan_top(s, pat, i + 1, depth + 1, false, quote);
        } else if c == ')' {
            lemma_scan_top(s, pat, i + 1, depth - 1, false, quote);
        } else if depth == 0 && occurs_at(s, pat, i) {
        } else {
            lemma_scan_top(s, pat, i + 1, depth, false, quote);
        }
    }
}

pub proof fn lemma_trim_len(s: Seq<char>)
    ensures
        trim(s).len() <= s.len(),
{
    lemma_trim_start_len(s);
    lemma_trim_end_len(trim_start(s));
}

proof fn lemma_trim_start_len(s: Seq<char>)
    ensures
        trim_start(s).len() <= s.len(),
    decreases s.len(),
{
    if s.len() > 0 && crate::text::is_ws(s[0]) {
        lemma_trim_start_len(s.drop_first());
    }
}

proof fn lemma_trim_end_len(s: Seq<char>)
    ensures
        trim_end(s).len() <= s.len(),
    decreases s.len(),
{
    if s.len() > 0 && crate::text::is_ws(s.last()) {
        lemma_trim_end_len(s.drop_last());
    }
}

// ----- the grammar -----
/// `t` is one parenthesised expression: `(...)` whose inside is balanced.
pub open spec fn wrapped(t: Seq<char>) -> bool {
    t.len() >= 2 && t[0] == '(' && t.last() == ')' && balanced(t.subrange(1, t.len() - 1))
}

/// `t` opens with `not ` in any ASCII case.
pub open spec fn not_word(t: Seq<char>) -> bool {
    t.len() >= 4 && ascii_lower(t.subrange(0, 4)) == "not "@
}

/// The string-method calls.
pub enum CallKind {
    Contains,
    StartsWith,
    EndsWith,
    Matches,
}

/// After the first `.`, a call `kind(arg)`: the kind, the text before the
/// dot and the argument text.
pub open spec fn method_call(t: Seq<char>) -> Option<(CallKind, Seq<char>, Seq<char>)> {
    match find_first(t, seq!['.']) {
        Some(i) => {
            let rest = t.subrange(i + 1, t.len() as int);
            let before = t.subrange(0, i);
            if is_call(rest, "contains("@) {
                Some((CallKind::Contains, before, call_inner(rest, "contains("@)))
            } else if is_call(rest, "startsWith("@) {
                Some((CallKind::StartsWith, before, call_inner(rest, "startsWith("@)))
            } else if is_call(rest, "endsWith("@) {
                Some((CallKind::EndsWith, before, call_inner(rest, "endsWith("@)))
            } else if is_call(rest, "matches("@) {
                Some((CallKind::Matches, before, call_inner(rest, "matches("@)))
            } else {
                None
            }
        },
        None => None,
    }
}

/// The text between `prefix` and the closing parenthesis.
pub open spec fn call_inner(rest: Seq<char>, prefix: Seq<char>) -> Seq<char> {
    rest.subrange(prefix.len() as int, rest.len() - 1)
}

/// The regular expression that a `matches` argument stands for: `/p/i`
/// compiles `p` ignoring case, `/p/` compiles `p`, anything else is the
/// (unquoted) pattern itself.
pub open spec fn regex_source(arg: Seq<char>) -> Seq<char> {
    let t = trim(arg);
    if t.len() >= 3 && t[0] == '/' && has_suffix(t, "/i"@) {
        "(?i)"@ + t.subrange(1, t.len() - 2)
    } else if t.len() >= 2 && t[0] == '/' && t.last() == '/' {
        t.subrange(1, t.len() - 1)
    } else {
        unquote(trim(t))
    }
}

/// The comparison operators, in the order they are looked for.
pub enum CmpOp {
    Eq,
    Ne,
    Ge,
    Le,
    Gt,
    Lt,
}

pub open spec fn op_text(op: CmpOp) -> Seq<char> {
    match op {
        CmpOp::Eq => "=="@,
        CmpOp::Ne => "!="@,
        CmpOp::Ge => ">="@,
        CmpOp::Le => "<="@,
        CmpOp::Gt => ">"@,
        CmpOp::Lt => "<"@,
    }
}

/// The first operator, in the fixed order `==`, `!=`, `>=`, `<=`, `>`, `<`,
/// that occurs anywhere in `t`, and where it first occurs.
pub open spec fn split_comparison(t: Seq<char>) -> Option<(CmpOp, int)> {
    if find_first(t, "=="@) is Some {
        Some((CmpOp::Eq, find_first(t, "=="@)->Some_0))
    } else if find_first(t, "!="@) is Some {
        Some((CmpOp::Ne, find_first(t, "!="@)->Some_0))
    } else if find_first(t, ">="@) is Some {
        Some((CmpOp::Ge, find_first(t, ">="@)->Some_0))
    } else if find_first(t, "<="@) is Some {
        Some((CmpOp::Le, find_first(t, "<="@)->Some_0))
    } else if find_first(t, ">"@) is Some {
        Some((CmpOp::Gt, find_first(t, ">"@)->Some_0))
    } else if find_first(t, "<"@) is Some {
        Some((CmpOp::Lt, find_first(t, "<"@)->Some_0))
    } else {
        None
    }
}

/// Why the comparison text `t` is refused, if it is.
pub open spec fn comparison_error(t: Seq<char>) -> Option<ErrorKind> {
    match method_call(t) {
        Some((k, before, arg)) => if k is Matches && !regex_compiles(regex_source(arg)) {
            Some(ErrorKind::InvalidRegex)
        } else if !field_known(before) {
            Some(ErrorKind::UnknownField)
        } else {
            None
        },
        None => match split_comparison(t) {
            Some((op, p)) => if !field_known(trim(t.subrange(0, p))) {
                Some(ErrorKind::UnknownField)
            } else {
                None
            },
            None => if field_known(t) {
                None
            } else {
                Some(ErrorKind::UnparsableExpression)
            },
        },
    }
}

/// `e` is the node for operator `op` over the field text `fs` and the value text `vs`.
pub open spec fn comparison_node(e: FilterExpr, op: CmpOp, fs: Seq<char>, vs: Seq<char>) -> bool {
    match op {
        CmpOp::Eq => e matches FilterExpr::Eq(f, v) && names_field(f, fs) && v@ == literal_lit(vs),
        CmpOp::Ne => e matches FilterExpr::Ne(f, v) && names_field(f, fs) && v@ == literal_lit(vs),
        CmpOp::Ge => e matches FilterExpr::Ge(f, v) && names_field(f, fs) && v@ == literal_lit(vs),
        CmpOp::Le => e matches FilterExpr::Le(f, v) && names_field(f, fs) && v@ == literal_lit(vs),
        CmpOp::Gt => e matches FilterExpr::Gt(f, v) && names_field(f, fs) && v@ == literal_lit(vs),
        CmpOp::Lt => e matches FilterExpr::Lt(f, v) && names_field(f, fs) && v@ == literal_lit(vs),
    }
}

/// `e` is what the comparison text `t` parses to.
pub open spec fn comparison_as(e: FilterExpr, t: Seq<char>) -> bool {
    match method_call(t) {
        Some((k, before, arg)) => match k {
            CallKind::Contains => e matches FilterExpr::Contains(f, a) && names_field(f, before)
                && a@ == unquote(trim(arg)),
            CallKind::StartsWith => e matches FilterExpr::StartsWith(f, a) && names_field(f, before)
                && a@ == unquote(trim(arg)),
            CallKind::EndsWith => e matches FilterExpr::EndsWith(f, a) && names_field(f, before)
                && a@ == unquote(trim(arg)),
            CallKind::Matches => e matches FilterExpr::Matches(f, p) && names_field(f, before)
                && p.source() == regex_source(arg),
        },
        None => match split_comparison(t) {
            Some((op, p)) => comparison_node(
                e,
                op,
                trim(t.subrange(0, p)),
                trim(t.subrange(p + op_text(op).len(), t.len() as int)),
            ),
            None => e matches FilterExpr::Bool(f) && names_field(f, t),
        },
    }
}

/// The pieces that parsing recurses on are shorter than its input.
proof fn lemma_parse_pieces(s: Seq<char>)
    ensures
        trim(s).len() <= s.len(),
        top_level(trim(s), "||"@) matches Some(p) ==> 0 <= p && p + 2 <= trim(s).len(),
        top_level(trim(s), "&&"@) matches Some(p) ==> 0 <= p && p + 2 <= trim(s).len(),
{
    lemma_trim_len(s);
    let t = trim(s);
    lemma_scan_top(t, "||"@, 0, 0, false, '"');
    lemma_scan_top(t, "&&"@, 0, 0, false, '"');
    reveal_strlit("||");
    reveal_strlit("&&");
}

#[via_fn]
proof fn parse_error_decreases(s: Seq<char>) {
    lemma_parse_pieces(s);
}

#[via_fn]
proof fn parses_to_decreases(e: FilterExpr, s: Seq<char>) {
    lemma_parse_pieces(s);
}

/// Why the text `s` is refused, if it is: the first failure met while
/// parsing left to right.
pub open spec fn parse_error(s: Seq<char>) -> Option<ErrorKind>
    decreases s.len() via parse_error_decreases
{
    let t = trim(s);
    if wrapped(t) {
        parse_error(t.subrange(1, t.len() - 1))
    } else if top_level(t, "||"@) is Some {
        let p = top_level(t, "||"@)->Some_0;
        if parse_error(t.subrange(0, p)) is Some {
            parse_error(t.subrange(0, p))
        } else {
            parse_error(t.subrange(p + 2, t.len() as int))
        }
    } else if top_level(t, "&&"@) is Some {
        let p = top_level(t, "&&"@)->Some_0;
        if parse_error(t.subrange(0, p)) is Some {
            parse_error(t.subrange(0, p))
        } else {
            parse_error(t.subrange(p + 2, t.len() as int))
        }
    } else if t.len() > 0 && t[0] == '!' {
        parse_error(t.subrange(1, t.len() as int))
    } else if not_word(t) {
        parse_error(t.subrange(4, t.len() as int))
    } else {
        comparison_error(t)
    }
}

/// `e` is the tree that the text `s` parses to: `||` splits first, then
/// `&&`, each at its first top-level occurrence; then `!` or `not `; then a
/// comparison, a method call or a bare field.
pub open spec fn parses_to(e: FilterExpr, s: Seq<char>) -> bool
    decreases s.len() via parses_to_decreases
{
    let t = trim(s);
    if wrapped(t) {
        parses_to(e, t.subrange(1, t.len() - 1))
    } else if top_level(t, "||"@) is Some {
        let p = top_level(t, "||"@)->Some_0;
        &&& e matches FilterExpr::Or(l, r)
        &&& parses_to(*l, t.subrange(0, p))
        &&& parses_to(*r, t.subrange(p + 2, t.len() as int))
    } else if top_level(t, "&&"@) is Some {
        let p = top_level(t, "&&"@)->Some_0;
        &&& e matches FilterExpr::And(l, r)
        &&& parses_to(*l, t.subrange(0, p))
        &&& parses_to(*r, t.subrange(p + 2, t.len() as int))
    } else if t.len() > 0 && t[0] == '!' {
        e matches FilterExpr::Not(x) && parses_to(*x, t.subrange(1, t.len() as int))
    } else if not_word(t) {
        e matches FilterExpr::Not(x) && parses_to(*x, t.subrange(4, t.len() as int))
    } else {
        comparison_as(e, t)
    }
}

/// Whether `e` holds of record `r`. A missing field makes every comparison
/// false except `!=`, which it makes true; it makes every string predicate
/// and truthiness test false.
pub open spec fn eval(e: FilterExpr, r: Entry) -> bool
    decreases e,
{
    match e {
        FilterExpr::Eq(f, v) => field_value(f, r) matches Some(x) && lit_eq(x, v@),
        FilterExpr::Ne(f, v) => !(field_value(f, r) matches Some(x) && lit_eq(x, v@)),
        FilterExpr::Gt(f, v) => field_value(f, r) matches Some(x) && lit_gt(x, v@),
        FilterExpr::Ge(f, v) => field_value(f, r) matches Some(x) && lit_ge(x, v@),
        FilterExpr::Lt(f, v) => field_value(f, r) matches Some(x) && lit_lt(x, v@),
        FilterExpr::Le(f, v) => field_value(f, r) matches Some(x) && lit_le(x, v@),
        FilterExpr::Contains(f, a) => field_value(f, r) matches Some(x) && contains(lit_text(x), a@),
        FilterExpr::StartsWith(f, a) => field_value(f, r) matches Some(x) && has_prefix(
            lit_text(x),
            a@,
        ),
        FilterExpr::EndsWith(f, a) => field_value(f, r) matches Some(x) && has_suffix(
            lit_text(x),
            a@,
        ),
        FilterExpr::Matches(f, p) => field_value(f, r) matches Some(x) && regex_finds(
            p.source(),
            lit_text(x),
        ),
        FilterExpr::And(a, b) => eval(*a, r) && eval(*b, r),
        FilterExpr::Or(a, b) => eval(*a, r) || eval(*b, r),
        FilterExpr::Not(a) => !eval(*a, r),
        FilterExpr::Bool(f) => field_value(f, r) matches Some(x) && lit_truthy(x),
    }
}

// ----- executable parts -----
/// Whether parentheses in `s` balance (see `balanced`).
pub fn is_balanced(s: &str) -> (r: bool)
    ensures
        r == balanced(s@),
{
    let cs = chars_of(s);
    let mut depth: usize = 0;
    let mut i: usize = 0;
    assert(cs@.subrange(0, cs@.len() as int) =~= cs@);
    while i < cs.len()
        invariant
            i <= cs@.len(),
            depth <= i,
            cs@ == s@,
            balanced(s@) == balanced_from(cs@.subrange(i as int, cs@.len() as int), depth as int),
        decreases cs@.len() - i,
    {
        assert(cs@.subrange(i as int, cs@.len() as int).drop_first() =~= cs@.subrange(
            i + 1,
            cs@.len() as int,
        ));
        let c = cs[i];
        if c == '(' {
            depth = depth + 1;
        } else if c == ')' {
            if depth == 0 {
                return false;
            }
            depth = depth - 1;
        }
        i = i + 1;
    }
    depth == 0
}

/// The first top-level occurrence of `pattern` in `s` (see `top_level`),
/// counted in characters.
pub fn find_top_level(s: &str, pattern: &str) -> (r: Option<usize>)
    ensures
        r is Some <==> top_level(s@, pattern@) is Some,
        r matches Some(k) ==> top_level(s@, pattern@) == Some(k as int) && occurs_at(
            s@,
            pattern@,
            k as int,
        ),
{
    let cs = chars_of(s);
    let pat = chars_of(pattern);
    let mut depth: i128 = 0;
    let mut in_quote = false;
    let mut quote = '"';
    let mut i: usize = 0;
    proof {
        lemma_scan_top(s@, pattern@, 0, 0, false, '"');
    }
    while i < cs.len()
        invariant
            i <= cs@.len(),
            cs@ == s@,
            pat@ == pattern@,
            -(i as int) <= depth <= i,
            top_level(s@, pattern@) == scan_top(s@, pattern@, i as int, depth as int, in_quote, quote),
        decreases cs@.len() - i,
    {
        let c = cs[i];
        if in_quote {
            if c == quote && (i == 0 || cs[i - 1] != '\\') {
                in_quote = false;
            }
        } else if c == '"' || c == '\'' {
            in_quote = true;
            quote = c;
        } else if c == '(' {
            depth = depth + 1;
        } else if c == ')' {
            depth = depth - 1;
        } else if depth == 0 && occurs_at_exec(&cs, &pat, i) {
            return Some(i);
        }
        i = i + 1;
    }
    None
}

/// The trimmed argument with its quotes removed.
pub fn extract_string_arg(s: &str) -> (r: String)
    ensures
        r@ == unquote(trim(s@)),
{
    unquote_trimmed(s)
}

/// Compiles a `matches` argument (see `regex_source`).
pub fn extract_regex_arg(s: &str) -> (r: Result<Pattern, FilterError>)
    ensures
        r is Ok <==> regex_compiles(regex_source(s@)),
        r matches Ok(p) ==> p.source() == regex_source(s@),
        r matches Err(e) ==> e is InvalidRegex,
{
    proof {
        reveal_strlit("/i");
    }
    let t = trim_str(s);
    let cs = chars_of(t);
    let n = cs.len();
    let source: String = if n >= 3 && cs[0] == '/' && ends_with_exec(&cs, &chars_of("/i")) {
        "(?i)".to_owned().concat(t.substring_char(1, n - 2))
    } else if n >= 2 && cs[0] == '/' && cs[n - 1] == '/' {
        t.substring_char(1, n - 1).to_owned()
    } else {
        extract_string_arg(t)
    };
    match Pattern::compile(source.as_str()) {
        Ok(p) => Ok(p),
        Err(_) => Err(FilterError::InvalidRegex(source)),
    }
}

/// The pieces of a method call (see `method_call`): kind, text before the
/// dot, argument text.
fn method_call_exec(t: &str) -> (r: Option<(CallKind, &str, &str)>)
    ensures
        match method_call(t@) {
            Some((k, before, arg)) => r matches Some((k2, b2, a2)) && k2 == k && b2@ == before
                && a2@ == arg,
            None => r is None,
        },
{
    let cs = chars_of(t);
    let n = cs.len();
    let dot = crate::url::char_pattern('.');
    match find_exec(&cs, &dot) {
        Some(i) => {
            let rest = t.substring_char(i + 1, n);
            let before = t.substring_char(0, i);
            let rc = chars_of(rest);
            let m = rc.len();
            proof {
                reveal_strlit(")");
                reveal_strlit("contains(");
                reveal_strlit("startsWith(");
                reveal_strlit("endsWith(");
                reveal_strlit("matches(");
                if m > 0 {
                    assert(rc@.subrange(m - 1, m as int)[0] == rc@.last());
                }
            }
            if call_shape(&rc, "contains(") {
                assert(rc@.subrange(0, 9)[8] == rc@[8]);
                Some((CallKind::Contains, before, rest.substring_char(9, m - 1)))
            } else if call_shape(&rc, "startsWith(") {
                assert(rc@.subrange(0, 11)[10] == rc@[10]);
                Some((CallKind::StartsWith, before, rest.substring_char(11, m - 1)))
            } else if call_shape(&rc, "endsWith(") {
                assert(rc@.subrange(0, 9)[8] == rc@[8]);
                Some((CallKind::EndsWith, before, rest.substring_char(9, m - 1)))
            } else if call_shape(&rc, "matches(") {
                assert(rc@.subrange(0, 8)[7] == rc@[7]);
                Some((CallKind::Matches, before, rest.substring_char(8, m - 1)))
            } else {
                None
            }
        },
        None => None,
    }
}

fn call_shape(t: &Vec<char>, prefix: &str) -> (r: bool)
    ensures
        r == is_call(t@, prefix@),
{
    proof {
        reveal_strlit(")");
    }
    starts_with_exec(t, &chars_of(prefix)) && ends_with_exec(t, &chars_of(")"))
}

/// See `split_comparison`.
fn split_comparison_exec(t: &Vec<char>) -> (r: Option<(CmpOp, usize)>)
    ensures
        match split_comparison(t@) {
            Some((op, p)) => r matches Some((op2, p2)) && op2 == op && p2 == p && occurs_at(
                t@,
                op_text(op),
                p,
            ),
            None => r is None,
        },
{
    if let Some(p) = find_exec(t, &chars_of("==")) {
        return Some((CmpOp::Eq, p));
    }
    if let Some(p) = find_exec(t, &chars_of("!=")) {
        return Some((CmpOp::Ne, p));
    }
    if let Some(p) = find_exec(t, &chars_of(">=")) {
        return Some((CmpOp::Ge, p));
    }
    if let Some(p) = find_exec(t, &chars_of("<=")) {
        return Some((CmpOp::Le, p));
    }
    if let Some(p) = find_exec(t, &chars_of(">")) {
        return Some((CmpOp::Gt, p));
    }
    if let Some(p) = find_exec(t, &chars_of("<")) {
        return Some((CmpOp::Lt, p));
    }
    None
}

fn op_len(op: &CmpOp) -> (r: usize)
    ensures
        r == op_text(*op).len(),
{
    proof {
        reveal_strlit("==");
        reveal_strlit("!=");
        reveal_strlit(">=");
        reveal_strlit("<=");
        reveal_strlit(">");
        reveal_strlit("<");
    }
    match op {
        CmpOp::Eq | CmpOp::Ne | CmpOp::Ge | CmpOp::Le => 2,
        CmpOp::Gt | CmpOp::Lt => 1,
    }
}

fn comparison_node_exec(op: CmpOp, f: Field, v: Value) -> (r: FilterExpr)
    ensures
        match op {
            CmpOp::Eq => r == FilterExpr::Eq(f, v),
            CmpOp::Ne => r == FilterExpr::Ne(f, v),
            CmpOp::Ge => r == FilterExpr::Ge(f, v),
            CmpOp::Le => r == FilterExpr::Le(f, v),
            CmpOp::Gt => r == FilterExpr::Gt(f, v),
            CmpOp::Lt => r == FilterExpr::Lt(f, v),
        },
{
    match op {
        CmpOp::Eq => FilterExpr::Eq(f, v),
        CmpOp::Ne => FilterExpr::Ne(f, v),
        CmpOp::Ge => FilterExpr::Ge(f, v),
        CmpOp::Le => FilterExpr::Le(f, v),
        CmpOp::Gt => FilterExpr::Gt(f, v),
        CmpOp::Lt => FilterExpr::Lt(f, v),
    }
}

impl FilterExpr {
    /// Parses a filter (see `parses_to` and `parse_error`).
    pub fn parse(expr: &str) -> (r: Result<FilterExpr, FilterError>)
        ensures
            r is Ok <==> parse_error(expr@) is None,
            r matches Ok(e) ==> parses_to(e, expr@),
            r matches Err(err) ==> parse_error(expr@) == Some(err.kind()),
        decreases expr@.len(),
    {
        proof {
            lemma_trim_len(expr@);
            reveal_strlit("||");
            reveal_strlit("&&");
        }
        let t = trim_str(expr);
        let cs = chars_of(t);
        let n = cs.len();
        if n >= 2 && cs[0] == '(' && cs[n - 1] == ')' {
            let inner = t.substring_char(1, n - 1);
            if is_balanced(inner) {
                return Self::parse(inner);
            }
        }
        if let Some(pos) = find_top_level(t, "||") {
            let left = match Self::parse(t.substring_char(0, pos)) {
                Ok(e) => e,
                Err(e) => return Err(e),
            };
            let right = match Self::parse(t.substring_char(pos + 2, n)) {
                Ok(e) => e,
                Err(e) => return Err(e),
            };
            return Ok(FilterExpr::Or(Box::new(left), Box::new(right)));
        }
        if let Some(pos) = find_top_level(t, "&&") {
            let left = match Self::parse(t.substring_char(0, pos)) {
                Ok(e) => e,
                Err(e) => return Err(e),
            };
            let right = match Self::parse(t.substring_char(pos + 2, n)) {
                Ok(e) => e,
                Err(e) => return Err(e),
            };
            return Ok(FilterExpr::And(Box::new(left), Box::new(right)));
        }
        if n > 0 && cs[0] == '!' {
            return match Self::parse(t.substring_char(1, n)) {
                Ok(e) => Ok(FilterExpr::Not(Box::new(e))),
                Err(e) => Err(e),
            };
        }
        if n >= 4 {
            let head = ascii_lower_exec(&chars_of(t.substring_char(0, 4)));
            if same_chars(&head, &chars_of("not ")) {
                return match Self::parse(t.substring_char(4, n)) {
                    Ok(e) => Ok(FilterExpr::Not(Box::new(e))),
                    Err(e) => Err(e),
                };
            }
        }
        Self::parse_comparison(t)
    }

    /// Parses a comparison, method call or bare field (see `comparison_as`).
    fn parse_comparison(t: &str) -> (r: Result<FilterExpr, FilterError>)
        ensures
            r is Ok <==> comparison_error(t@) is None,
            r matches Ok(e) ==> comparison_as(e, t@),
            r matches Err(err) ==> comparison_error(t@) == Some(err.kind()),
    {
        if let Some((kind, before, arg)) = method_call_exec(t) {
            match kind {
                CallKind::Contains => {
                    let a = extract_string_arg(arg);
                    let f = match Field::parse(before) {
                        Ok(f) => f,
                        Err(e) => return Err(e),
                    };
                    return Ok(FilterExpr::Contains(f, a));
                },
                CallKind::StartsWith => {
                    let a = extract_string_arg(arg);
                    let f = match Field::parse(before) {
                        Ok(f) => f,
                        Err(e) => return Err(e),
                    };
                    return Ok(FilterExpr::StartsWith(f, a));
                },
                CallKind::EndsWith => {
                    let a = extract_string_arg(arg);
                    let f = match Field::parse(before) {
                        Ok(f) => f,
                        Err(e) => return Err(e),
                    };
                    return Ok(FilterExpr::EndsWith(f, a));
                },
                CallKind::Matches => {
                    let p = match extract_regex_arg(arg) {
                        Ok(p) => p,
                        Err(e) => return Err(e),
                    };
                    let f = match Field::parse(before) {
                        Ok(f) => f,
                        Err(e) => return Err(e),
                    };
                    return Ok(FilterExpr::Matches(f, p));
                },
            }
        }
        let cs = chars_of(t);
        let n = cs.len();
        if let Some((op, pos)) = split_comparison_exec(&cs) {
            let k = op_len(&op);
            let field_str = trim_str(t.substring_char(0, pos));
            let value_str = trim_str(t.substring_char(pos + k, n));
            let f = match Field::parse(field_str) {
                Ok(f) => f,
                Err(e) => return Err(e),
            };
            let v = Value::parse(value_str);
            return Ok(comparison_node_exec(op, f, v));
        }
        match Field::parse(t) {
            Ok(f) => Ok(FilterExpr::Bool(f)),
            Err(_) => Err(FilterError::UnparsableExpression(t.to_owned())),
        }
    }

    /// Whether the filter holds of `entry` (see `eval`). Never fails.
    pub fn matches(&self, entry: &Entry) -> (r: bool)
        ensures
            r == eval(*self, *entry),
        decreases self,
    {
        match self {
            FilterExpr::Eq(f, v) => match f.get_value(entry) {
                Some(x) => x.eq_value(v),
                None => false,
            },
            FilterExpr::Ne(f, v) => match f.get_value(entry) {
                Some(x) => !x.eq_value(v),
                None => true,
            },
            FilterExpr::Gt(f, v) => match f.get_value(entry) {
                Some(x) => x.gt_value(v),
                None => false,
            },
            FilterExpr::Ge(f, v) => match f.get_value(entry) {
                Some(x) => x.ge_value(v),
                None => false,
            },
            FilterExpr::Lt(f, v) => match f.get_value(entry) {
                Some(x) => x.lt_value(v),
                None => false,
            },
            FilterExpr::Le(f, v) => match f.get_value(entry) {
                Some(x) => x.le_value(v),
                None => false,
            },
            FilterExpr::Contains(f, a) => match f.get_string(entry) {
                Some(x) => contains_exec(&chars_of(x.as_str()), &chars_of(a.as_str())),
                None => false,
            },
            FilterExpr::StartsWith(f, a) => match f.get_string(entry) {
                Some(x) => starts_with_exec(&chars_of(x.as_str()), &chars_of(a.as_str())),
                None => false,
            },
            FilterExpr::EndsWith(f, a) => match f.get_string(entry) {
                Some(x) => ends_with_exec(&chars_of(x.as_str()), &chars_of(a.as_str())),
                None => false,
            },
            FilterExpr::Matches(f, p) => match f.get_string(entry) {
                Some(x) => p.is_match(x.as_str()),
                None => false,
            },
            FilterExpr::And(a, b) => {
                let x = a.matches(entry);
                let y = b.matches(entry);
                x && y
            },
            FilterExpr::Or(a, b) => {
                let x = a.matches(entry);
                let y = b.matches(entry);
                x || y
            },
            FilterExpr::Not(a) => !a.matches(entry),
            FilterExpr::Bool(f) => match f.get_value(entry) {
                Some(x) => x.is_truthy(),
                None => false,
            },
        }
    }
}

} // verus!
