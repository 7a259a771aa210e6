//! The value model: strings, exact numbers and booleans, with the coercion
//! and comparison rules that filters use.
use vstd::prelude::*;
use crate::decimal::{Decimal, literal_units, units_text};
use crate::text::{trim, chars_of, trim_str, substring, same_chars};

verus! {

/// A value as the rules see it.
pub enum Lit {
    Str(Seq<char>),
    Num(int),
    Bool(bool),
}

/// A value taken from a literal or from a record.
#[derive(Clone, Debug)]
pub enum Value {
    String(String),
    Number(Decimal),
    Bool(bool),
}

impl Value {
    pub open spec fn view(self) -> Lit {
        match self {
            Value::String(s) => Lit::Str(s@),
            Value::Number(d) => Lit::Num(d.units as int),
            Value::Bool(b) => Lit::Bool(b),
        }
    }
}

/// Strict lexicographic order on characters (what `<` on `String` gives).
pub open spec fn seq_less(a: Seq<char>, b: Seq<char>) -> bool
    decreases a.len(),
{
    if a.len() == 0 {
        b.len() > 0
    } else if b.len() == 0 {
        false
    } else if a[0] != b[0] {
        (a[0] as u32) < (b[0] as u32)
    } else {
        seq_less(a.drop_first(), b.drop_first())
    }
}

/// Numbers closer than `f64::EPSILON` (2.22e-16, just over 222 units) count as equal.
pub const EPSILON_UNITS: i128 = 222;

/// `x` and `y` (in units) differ by less than `f64::EPSILON`.
pub open spec fn near(x: int, y: int) -> bool {
    -EPSILON_UNITS <= x - y <= EPSILON_UNITS
}

/// Equality across types: numbers within `f64::EPSILON` of each other are
/// equal, and a string equals a number when it reads as a number within
/// that tolerance.
pub open spec fn lit_eq(a: Lit, b: Lit) -> bool {
    match (a, b) {
        (Lit::Str(x), Lit::Str(y)) => x == y,
        (Lit::Num(x), Lit::Num(y)) => near(x, y),
        (Lit::Bool(x), Lit::Bool(y)) => x == y,
        (Lit::Str(x), Lit::Num(y)) => literal_units(x) matches Some(n) && near(n, y),
        (Lit::Num(x), Lit::Str(y)) => literal_units(y) matches Some(n) && near(n, x),
        _ => false,
    }
}

/// See `near`.
pub fn near_exec(x: i128, y: i128) -> (r: bool)
    ensures
        r == near(x as int, y as int),
{
    if x >= y {
        y > i128::MAX - EPSILON_UNITS || x <= y + EPSILON_UNITS
    } else {
        x > i128::MAX - EPSILON_UNITS || y <= x + EPSILON_UNITS
    }
}

/// `a > b`: numbers by value (a string read as a number), strings lexicographically.
pub open spec fn lit_gt(a: Lit, b: Lit) -> bool {
    match (a, b) {
        (Lit::Num(x), Lit::Num(y)) => x > y,
        (Lit::Str(x), Lit::Num(y)) => literal_units(x) matches Some(n) && n > y,
        (Lit::Num(x), Lit::Str(y)) => literal_units(y) matches Some(n) && x > n,
        (Lit::Str(x), Lit::Str(y)) => seq_less(y, x),
        _ => false,
    }
}

/// `a < b`, by the same rules as `lit_gt`.
pub open spec fn lit_lt(a: Lit, b: Lit) -> bool {
    match (a, b) {
        (Lit::Num(x), Lit::Num(y)) => x < y,
        (Lit::Str(x), Lit::Num(y)) => literal_units(x) matches Some(n) && n < y,
        (Lit::Num(x), Lit::Str(y)) => literal_units(y) matches Some(n) && x < n,
        (Lit::Str(x), Lit::Str(y)) => seq_less(x, y),
        _ => false,
    }
}

pub open spec fn lit_ge(a: Lit, b: Lit) -> bool {
    lit_eq(a, b) || lit_gt(a, b)
}

pub open spec fn lit_le(a: Lit, b: Lit) -> bool {
    lit_eq(a, b) || lit_lt(a, b)
}

pub open spec fn lit_truthy(a: Lit) -> bool {
    match a {
        Lit::Bool(b) => b,
        Lit::Num(n) => n != 0,
        Lit::Str(s) => s.len() > 0,
    }
}

/// The text that substring and pattern predicates look at.
pub open spec fn lit_text(a: Lit) -> Seq<char> {
    match a {
        Lit::Str(s) => s,
        Lit::Num(n) => units_text(n),
        Lit::Bool(b) => if b {
            "true"@
        } else {
            "false"@
        },
    }
}

/// `t` is wrapped in a pair of double or single quotes.
pub open spec fn is_quoted(t: Seq<char>) -> bool {
    t.len() >= 2 && ((t[0] == '"' && t.last() == '"') || (t[0] == '\'' && t.last() == '\''))
}

/// `t` with its quotes removed when it is quoted, else `t`.
pub open spec fn unquote(t: Seq<char>) -> Seq<char> {
    if is_quoted(t) {
        t.subrange(1, t.len() - 1)
    } else {
        t
    }
}

/// The value that the literal text `s` denotes: a quoted string, `true` or
/// `false`, a number, or else the bare text as a string.
pub open spec fn literal_lit(s: Seq<char>) -> Lit {
    let t = trim(s);
    if is_quoted(t) {
        Lit::Str(unquote(t))
    } else if t == "true"@ {
        Lit::Bool(true)
    } else if t == "false"@ {
        Lit::Bool(false)
    } else if literal_units(t) is Some {
        Lit::Num(literal_units(t)->Some_0)
    } else {
        Lit::Str(t)
    }
}

/// Whether `t` is quoted.
pub fn is_quoted_exec(t: &Vec<char>) -> (r: bool)
    ensures
        r == is_quoted(t@),
{
    let n = t.len();
    n >= 2 && ((t[0] == '"' && t[n - 1] == '"') || (t[0] == '\'' && t[n - 1] == '\''))
}

/// The trimmed `s`, with its quotes removed when it is quoted.
pub fn unquote_trimmed(s: &str) -> (r: String)
    ensures
        r@ == unquote(trim(s@)),
{
    let t = trim_str(s);
    let cs = chars_of(t);
    if is_quoted_exec(&cs) {
        substring(t, 1, cs.len() - 1)
    } else {
        t.to_owned()
    }
}

impl Value {
    /// Reads a literal (see `literal_lit`). Never fails: bare text is a string.
    pub fn parse(s: &str) -> (r: Value)
        ensures
            r@ == literal_lit(s@),
    {
        let t = trim_str(s);
        let cs = chars_of(t);
        if is_quoted_exec(&cs) {
            return Value::String(substring(t, 1, cs.len() - 1));
        }
        let yes = chars_of("true");
        let no = chars_of("false");
        if same_chars(&cs, &yes) {
            return Value::Bool(true);
        }
        if same_chars(&cs, &no) {
            return Value::Bool(false);
        }
        match Decimal::parse(t) {
            Some(d) => Value::Number(d),
            None => Value::String(t.to_owned()),
        }
    }

    /// Equality across types (see `lit_eq`).
    pub fn eq_value(&self, other: &Value) -> (r: bool)
        ensures
            r == lit_eq(self@, other@),
    {
        match (self, other) {
            (Value::String(a), Value::String(b)) => same_chars(&chars_of(a.as_str()), &chars_of(b.as_str())),
            (Value::Number(a), Value::Number(b)) => near_exec(a.units, b.units),
            (Value::Bool(a), Value::Bool(b)) => *a == *b,
            (Value::String(a), Value::Number(b)) => match Decimal::parse(a.as_str()) {
                Some(n) => near_exec(n.units, b.units),
                None => false,
            },
            (Value::Number(a), Value::String(b)) => match Decimal::parse(b.as_str()) {
                Some(n) => near_exec(n.units, a.units),
                None => false,
            },
            _ => false,
        }
    }

    /// `self > other` (see `lit_gt`).
    pub fn gt_value(&self, other: &Value) -> (r: bool)
        ensures
            r == lit_gt(self@, other@),
    {
        match (self, other) {
            (Value::Number(a), Value::Number(b)) => a.units > b.units,
            (Value::String(a), Value::Number(b)) => match Decimal::parse(a.as_str()) {
                Some(n) => n.units > b.units,
                None => false,
            },
            (Value::Number(a), Value::String(b)) => match Decimal::parse(b.as_str()) {
                Some(n) => a.units > n.units,
                None => false,
            },
            (Value::String(a), Value::String(b)) => less_than(b.as_str(), a.as_str()),
            _ => false,
        }
    }

    pub fn ge_value(&self, other: &Value) -> (r: bool)
        ensures
            r == lit_ge(self@, other@),
    {
        self.eq_value(other) || self.gt_value(other)
    }

    /// `self < other` (see `lit_lt`).
    pub fn lt_value(&self, other: &Value) -> (r: bool)
        ensures
            r == lit_lt(self@, other@),
    {
        match (self, other) {
            (Value::Number(a), Value::Number(b)) => a.units < b.units,
            (Value::String(a), Value::Number(b)) => match Decimal::parse(a.as_str()) {
                Some(n) => n.units < b.units,
                None => false,
            },
            (Value::Number(a), Value::String(b)) => match Decimal::parse(b.as_str()) {
                Some(n) => a.units < n.units,
                None => false,
            },
            (Value::String(a), Value::String(b)) => less_than(a.as_str(), b.as_str()),
            _ => false,
        }
    }

    pub fn le_value(&self, other: &Value) -> (r: bool)
        ensures
            r == lit_le(self@, other@),
    {
        self.eq_value(other) || self.lt_value(other)
    }

    pub fn is_truthy(&self) -> (r: bool)
        ensures
            r == lit_truthy(self@),
    {
        match self {
            Value::Bool(b) => *b,
            Value::Number(n) => !n.is_zero(),
            Value::String(s) => s.as_str().unicode_len() > 0,
        }
    }

    /// The text form: strings as they are, numbers in shortest decimal form,
    /// booleans as `true` / `false`.
    pub fn to_string(&self) -> (r: String)
        ensures
            r@ == lit_text(self@),
    {
        match self {
            Value::String(s) => s.clone(),
            Value::Number(n) => n.to_text(),
            Value::Bool(b) => {
                if *b {
                    "true".to_owned()
                } else {
                    "false".to_owned()
                }
            },
        }
    }
}

/// `a < b`, lexicographically by character.
pub fn less_than(a: &str, b: &str) -> (r: bool)
    ensures
        r == seq_less(a@, b@),
{
    let x = chars_of(a);
    let y = chars_of(b);
    let mut i: usize = 0;
    assert(x@.subrange(0, x@.len() as int) =~= x@);
    assert(y@.subrange(0, y@.len() as int) =~= y@);
    while i < x.len() && i < y.len() && x[i] == y[i]
        invariant
            i <= x@.len(),
            i <= y@.len(),
            seq_less(x@, y@) == seq_less(
                x@.subrange(i as int, x@.len() as int),
                y@.subrange(i as int, y@.len() as int),
            ),
        decreases x@.len() - i,
    {
        assert(x@.subrange(i as int, x@.len() as int).drop_first() =~= x@.subrange(
            i + 1,
            x@.len() as int,
        ));
        assert(y@.subrange(i as int, y@.len() as int).drop_first() =~= y@.subrange(
            i + 1,
            y@.len() as int,
        ));
        i = i + 1;
    }
    if i == x.len() {
        i < y.len()
    } else if i == y.len() {
        false
    } else {
        (x[i] as u32) < (y[i] as u32)
    }
}

} // verus!
