//! Exact decimal numbers: a value is held as a whole count of 10^-18 units.
use vstd::prelude::*;
use crate::text::{find_first, chars_of, find_exec};

verus! {

/// Units in one: every number is a multiple of 10^-18.
pub const ONE: i128 = 1_000_000_000_000_000_000;

/// Integer parts must stay below this in magnitude.
pub const INT_LIMIT: i128 = 10_000_000_000_000_000_000;

/// Decimal digits kept after the point.
pub const FRACTION_DIGITS: usize = 18;

/// A number, exactly: `units` counts 10^-18 steps.
#[derive(Clone, Copy, Debug, PartialEq, Eq, Structural)]
pub struct Decimal {
    pub units: i128,
}

pub open spec fn pow10(n: nat) -> int
    decreases n,
{
    if n == 0 {
        1
    } else {
        10 * pow10((n - 1) as nat)
    }
}

pub open spec fn is_digit(c: char) -> bool {
    48 <= c as u32 <= 57
}

pub open spec fn digit_value(c: char) -> int {
    (c as u32) - 48
}

pub open spec fn all_digits(s: Seq<char>) -> bool {
    forall|i: int| 0 <= i < s.len() ==> is_digit(#[trigger] s[i])
}

/// The number that a run of decimal digits spells.
pub open spec fn digits_value(s: Seq<char>) -> int
    decreases s.len(),
{
    if s.len() == 0 {
        0
    } else {
        digits_value(s.drop_last()) * 10 + digit_value(s.last())
    }
}

pub open spec fn strip_trailing_zeros(s: Seq<char>) -> Seq<char>
    decreases s.len(),
{
    if s.len() > 0 && s.last() == '0' {
        strip_trailing_zeros(s.drop_last())
    } else {
        s
    }
}

/// What stands before the first point (all of `s` when there is none).
pub open spec fn int_part(s: Seq<char>) -> Seq<char> {
    match find_first(s, seq!['.']) {
        Some(d) => s.subrange(0, d),
        None => s,
    }
}

/// What stands after the first point (nothing when there is none).
pub open spec fn frac_part(s: Seq<char>) -> Seq<char> {
    match find_first(s, seq!['.']) {
        Some(d) => s.subrange(d + 1, s.len() as int),
        None => Seq::<char>::empty(),
    }
}

/// `n` zeros.
pub open spec fn zeros(n: nat) -> Seq<char> {
    Seq::new(n, |i: int| '0')
}

/// The first index at or after `i` where an exponent marker `e` or `E` stands.
pub open spec fn exp_mark_from(s: Seq<char>, i: int) -> Option<int>
    decreases s.len() - i,
{
    if i < 0 || i >= s.len() {
        None
    } else if s[i] == 'e' || s[i] == 'E' {
        Some(i)
    } else {
        exp_mark_from(s, i + 1)
    }
}

/// The text before the exponent marker (all of `s` when there is none).
pub open spec fn mantissa(s: Seq<char>) -> Seq<char> {
    match exp_mark_from(s, 0) {
        Some(i) => s.subrange(0, i),
        None => s,
    }
}

/// The value of an exponent: an optional sign and at least one digit.
pub open spec fn exponent_value(t: Seq<char>) -> Option<int> {
    let neg = t.len() > 0 && t[0] == '-';
    let ds = if t.len() > 0 && (t[0] == '-' || t[0] == '+') {
        t.drop_first()
    } else {
        t
    };
    if ds.len() > 0 && all_digits(ds) {
        Some(
            if neg {
                -digits_value(ds)
            } else {
                digits_value(ds)
            },
        )
    } else {
        None
    }
}

/// The whole-part digits once the point after `ip` moves `x` places right.
pub open spec fn shift_int(ip: Seq<char>, fp: Seq<char>, x: int) -> Seq<char> {
    let d = ip + fp;
    let p = ip.len() + x;
    if p <= 0 {
        Seq::empty()
    } else if p <= d.len() {
        d.subrange(0, p)
    } else {
        d + zeros((p - d.len()) as nat)
    }
}

/// The fraction digits once the point after `ip` moves `x` places right.
pub open spec fn shift_frac(ip: Seq<char>, fp: Seq<char>, x: int) -> Seq<char> {
    let d = ip + fp;
    let p = ip.len() + x;
    if p <= 0 {
        zeros((-p) as nat) + d
    } else if p <= d.len() {
        d.subrange(p, d.len() as int)
    } else {
        Seq::empty()
    }
}

/// Units of the number with whole digits `ip` and fraction digits `fp`,
/// when its whole part is below 10^19 and it has at most 18 significant
/// fraction digits.
pub open spec fn plain_units(ip: Seq<char>, fp: Seq<char>) -> Option<int> {
    let fz = strip_trailing_zeros(fp);
    if digits_value(ip) < INT_LIMIT && fz.len() <= FRACTION_DIGITS {
        Some(digits_value(ip) * ONE + digits_value(fz) * pow10((FRACTION_DIGITS - fz.len()) as nat))
    } else {
        None
    }
}

/// Units of an unsigned literal `digits[.digits][(e|E)[+-]digits]`, with at
/// least one mantissa digit: the exact value, when it fits (see `plain_units`
/// for the mantissa with its point moved by the exponent).
pub open spec fn unsigned_units(s: Seq<char>) -> Option<int> {
    let m = mantissa(s);
    let ip = int_part(m);
    let fp = frac_part(m);
    if !(all_digits(ip) && all_digits(fp) && ip.len() + fp.len() > 0) {
        None
    } else {
        match exp_mark_from(s, 0) {
            None => plain_units(ip, fp),
            Some(i) => match exponent_value(s.subrange(i + 1, s.len() as int)) {
                None => None,
                Some(x) => plain_units(shift_int(ip, fp, x), shift_frac(ip, fp, x)),
            },
        }
    }
}

/// Units of a numeric literal: an optional sign, digits with an optional
/// fraction and an optional exponent (what a float literal is, without the
/// `inf` and `nan` words). `None` unless the value is exact in 10^-18
/// units with a whole part below 10^19.
pub open spec fn literal_units(s: Seq<char>) -> Option<int> {
    if s.len() > 0 && s[0] == '-' {
        match unsigned_units(s.drop_first()) {
            Some(u) => Some(-u),
            None => None,
        }
    } else if s.len() > 0 && s[0] == '+' {
        unsigned_units(s.drop_first())
    } else {
        unsigned_units(s)
    }
}

pub open spec fn digit_char(d: int) -> char {
    ((d + 48) as u32) as char
}

/// Decimal text of a natural number, without leading zeros.
pub open spec fn nat_text(n: nat) -> Seq<char>
    decreases n,
{
    if n < 10 {
        seq![digit_char(n as int)]
    } else {
        nat_text(n / 10).push(digit_char((n % 10) as int))
    }
}

/// Decimal text of an integer: a `-` before the digits of a negative one.
pub open spec fn int_text(k: int) -> Seq<char> {
    if k < 0 {
        seq!['-'] + nat_text((-k) as nat)
    } else {
        nat_text(k as nat)
    }
}

/// The digits of a natural number are decimal digits and spell it.
pub proof fn lemma_nat_text(m: nat)
    ensures
        all_digits(nat_text(m)),
        nat_text(m).len() >= 1,
        digits_value(nat_text(m)) == m,
    decreases m,
{
    let d = (m % 10) as int;
    assert((((d + 48) as u32) as char) as u32 == d + 48);
    assert(digit_value(digit_char(d)) == d);
    if m < 10 {
        assert(m % 10 == m);
        assert(nat_text(m).drop_last() =~= Seq::<char>::empty());
        assert(nat_text(m).last() == digit_char(d));
        assert(digits_value(nat_text(m)) == digits_value(Seq::<char>::empty()) * 10 + d);
    } else {
        lemma_nat_text(m / 10);
        let s = nat_text(m / 10);
        assert(nat_text(m).drop_last() =~= s);
        assert(m == (m / 10) * 10 + m % 10) by (nonlinear_arith);
        assert(nat_text(m).last() == digit_char(d));
        assert(digits_value(nat_text(m)) == digits_value(s) * 10 + d);
        assert forall|i: int| 0 <= i < nat_text(m).len() implies is_digit(#[trigger] nat_text(m)[i]) by {
            if i < s.len() {
                assert(nat_text(m)[i] == s[i]);
            }
        }
    }
}

/// The text of an integer below 10^19 in magnitude reads back as that integer.
pub proof fn lemma_int_text_units(k: int)
    requires
        -INT_LIMIT < k < INT_LIMIT,
    ensures
        literal_units(int_text(k)) == Some(k * ONE),
        forall|i: int| 0 <= i < int_text(k).len() ==> is_digit(#[trigger] int_text(k)[i]) || (i == 0
            && int_text(k)[i] == '-'),
        int_text(k).len() >= 1,
        is_digit(int_text(k).last()),
{
    let m: nat = if k < 0 {
        (-k) as nat
    } else {
        k as nat
    };
    lemma_nat_text(m);
    let s = nat_text(m);
    lemma_no_exp_mark(s, 0);
    assert(mantissa(s) == s);
    crate::text::lemma_find_from(s, seq!['.'], 0);
    if find_first(s, seq!['.']) is Some {
        let j = find_first(s, seq!['.'])->Some_0;
        assert(s.subrange(j, j + 1)[0] == s[j]);
        assert(is_digit(s[j]));
    }
    assert(int_part(s) == s);
    assert(frac_part(s) =~= Seq::<char>::empty());
    assert(strip_trailing_zeros(Seq::<char>::empty()) =~= Seq::<char>::empty());
    assert(unsigned_units(s) == Some(m * ONE));
    if k < 0 {
        assert((seq!['-'] + s).drop_first() =~= s);
        assert(int_text(k)[0] == '-');
        assert forall|i: int| 0 <= i < int_text(k).len() implies is_digit(#[trigger] int_text(k)[i])
            || (i == 0 && int_text(k)[i] == '-') by {
            if i > 0 {
                assert(int_text(k)[i] == s[i - 1]);
            }
        }
        assert(int_text(k).last() == s.last());
    } else {
        assert(is_digit(s[0]));
    }
}

/// The last `width` decimal digits of `n`, zero-padded.
pub open spec fn padded_text(n: nat, width: nat) -> Seq<char>
    decreases width,
{
    if width == 0 {
        Seq::empty()
    } else {
        padded_text(n / 10, (width - 1) as nat).push(digit_char((n % 10) as int))
    }
}

pub open spec fn abs(x: int) -> nat {
    if x < 0 {
        (-x) as nat
    } else {
        x as nat
    }
}

/// The shortest decimal text of the number: no exponent, no trailing zeros
/// after the point, and no point for a whole number.
pub open spec fn units_text(u: int) -> Seq<char> {
    let sign = if u < 0 {
        seq!['-']
    } else {
        Seq::empty()
    };
    let whole = nat_text(abs(u) / (ONE as nat));
    let frac = abs(u) % (ONE as nat);
    if frac == 0 {
        sign + whole
    } else {
        sign + whole + seq!['.'] + strip_trailing_zeros(padded_text(frac, FRACTION_DIGITS as nat))
    }
}

impl Decimal {
    pub open spec fn wf(self) -> bool {
        -INT_LIMIT * ONE < self.units < INT_LIMIT * ONE
    }

    /// The number `v`.
    pub fn from_int(v: i64) -> (r: Decimal)
        ensures
            r.units == v as int * ONE,
            r.wf(),
    {
        Decimal { units: v as i128 * ONE }
    }

    /// Reads a numeric literal (see `literal_units`); `None` when `s` is not one.
    pub fn parse(s: &str) -> (r: Option<Decimal>)
        ensures
            r is Some <==> literal_units(s@) is Some,
            r matches Some(d) ==> literal_units(s@) == Some(d.units as int) && d.wf(),
    {
        let cs = chars_of(s);
        if cs.len() > 0 && cs[0] == '-' {
            let rest = s.substring_char(1, cs.len());
            assert(rest@ =~= s@.drop_first());
            match parse_unsigned(rest) {
                Some(u) => Some(Decimal { units: -u }),
                None => None,
            }
        } else if cs.len() > 0 && cs[0] == '+' {
            let rest = s.substring_char(1, cs.len());
            assert(rest@ =~= s@.drop_first());
            match parse_unsigned(rest) {
                Some(u) => Some(Decimal { units: u }),
                None => None,
            }
        } else {
            match parse_unsigned(s) {
                Some(u) => Some(Decimal { units: u }),
                None => None,
            }
        }
    }

    pub fn is_zero(&self) -> (r: bool)
        ensures
            r == (self.units == 0),
    {
        self.units == 0
    }

    /// Decimal text, as `units_text` gives it.
    pub fn to_text(&self) -> (r: String)
        ensures
            r@ == units_text(self.units as int),
    {
        let u = self.units;
        let mut out = String::new();
        if u < 0 {
            out.append("-");
            proof {
                reveal_strlit("-");
            }
        }
        let mag: u128 = if u < 0 {
            ((-(u + 1)) as u128) + 1
        } else {
            u as u128
        };
        let whole = mag / (ONE as u128);
        let frac = mag % (ONE as u128);
        push_nat_text(&mut out, whole);
        if frac != 0 {
            out.append(".");
            proof {
                reveal_strlit(".");
            }
            let digits = padded_digits(frac, 18);
            let mut end: usize = digits.len();
            assert(digits@.subrange(0, end as int) =~= digits@);
            while end > 0 && digits[end - 1] == '0'
                invariant
                    end <= digits@.len(),
                    strip_trailing_zeros(digits@) == strip_trailing_zeros(
                        digits@.subrange(0, end as int),
                    ),
                decreases end,
            {
                assert(digits@.subrange(0, end as int).drop_last() =~= digits@.subrange(
                    0,
                    end - 1,
                ));
                end = end - 1;
            }
            let mut i: usize = 0;
            let ghost before = out@;
            while i < end
                invariant
                    i <= end <= digits@.len(),
                    out@ == before + digits@.subrange(0, i as int),
                    forall|k: int| 0 <= k < digits@.len() ==> is_digit(#[trigger] digits@[k]),
                decreases end - i,
            {
                push_digit(&mut out, digits[i]);
                assert(digits@.subrange(0, i + 1) =~= digits@.subrange(0, i as int).push(
                    digits@[i as int],
                ));
                i = i + 1;
            }
        }
        out
    }
}

/// Exponents are read up to this magnitude; beyond it every nonzero
/// mantissa leaves the range anyway.
const EXP_CAP: i128 = 1_000_000_000_000_000_000_000_000_000_000;

fn all_digits_exec(v: &Vec<char>) -> (r: bool)
    ensures
        r == all_digits(v@),
{
    let mut i: usize = 0;
    while i < v.len()
        invariant
            i <= v@.len(),
            forall|k: int| 0 <= k < i ==> is_digit(#[trigger] v@[k]),
        decreases v@.len() - i,
    {
        if !(48 <= v[i] as u32 && v[i] as u32 <= 57) {
            assert(!is_digit(v@[i as int]));
            return false;
        }
        i = i + 1;
    }
    true
}

/// The characters `a..b` of `v`.
fn slice_vec(v: &Vec<char>, a: usize, b: usize) -> (r: Vec<char>)
    requires
        a <= b <= v@.len(),
    ensures
        r@ == v@.subrange(a as int, b as int),
{
    let mut r: Vec<char> = Vec::new();
    let mut i: usize = a;
    while i < b
        invariant
            a <= i <= b <= v@.len(),
            r@ == v@.subrange(a as int, i as int),
        decreases b - i,
    {
        r.push(v[i]);
        assert(v@.subrange(a as int, i + 1) =~= v@.subrange(a as int, i as int).push(v@[i as int]));
        i = i + 1;
    }
    r
}

/// `v` followed by `n` zeros.
fn append_zeros(v: &mut Vec<char>, n: usize)
    ensures
        final(v)@ == old(v)@ + zeros(n as nat),
{
    let mut i: usize = 0;
    while i < n
        invariant
            i <= n,
            v@ == old(v)@ + zeros(i as nat),
        decreases n - i,
    {
        v.push('0');
        assert(old(v)@ + zeros((i + 1) as nat) =~= (old(v)@ + zeros(i as nat)).push('0'));
        i = i + 1;
    }
}

/// The first exponent marker in `cs` (see `exp_mark_from`).
fn exp_mark_exec(cs: &Vec<char>) -> (r: Option<usize>)
    ensures
        match exp_mark_from(cs@, 0) {
            Some(i) => r == Some(i as usize) && 0 <= i < cs@.len(),
            None => r is None,
        },
{
    let mut i: usize = 0;
    while i < cs.len()
        invariant
            i <= cs@.len(),
            exp_mark_from(cs@, 0) == exp_mark_from(cs@, i as int),
        decreases cs@.len() - i,
    {
        if cs[i] == 'e' || cs[i] == 'E' {
            return Some(i);
        }
        i = i + 1;
    }
    None
}

/// The exponent of `t`, held within `EXP_CAP` in magnitude.
fn exponent_exec(t: &Vec<char>) -> (r: Option<i128>)
    ensures
        r is Some <==> exponent_value(t@) is Some,
        r matches Some(x) ==> {
            let v = exponent_value(t@)->Some_0;
            ||| x == v
            ||| x == EXP_CAP && v >= EXP_CAP
            ||| x == -EXP_CAP && v <= -EXP_CAP
        },
{
    let n = t.len();
    let neg = n > 0 && t[0] == '-';
    let start: usize = if n > 0 && (t[0] == '-' || t[0] == '+') {
        1
    } else {
        0
    };
    let ds = slice_vec(t, start, n);
    assert(start == 1 ==> ds@ =~= t@.drop_first());
    assert(start == 0 ==> ds@ =~= t@);
    if ds.len() == 0 || !all_digits_exec(&ds) {
        return None;
    }
    let mut acc: i128 = 0;
    let mut i: usize = 0;
    while i < ds.len()
        invariant
            i <= ds@.len(),
            all_digits(ds@),
            0 <= acc <= EXP_CAP,
            acc == (if digits_value(ds@.subrange(0, i as int)) < EXP_CAP {
                digits_value(ds@.subrange(0, i as int))
            } else {
                EXP_CAP as int
            }),
        decreases ds@.len() - i,
    {
        assert(is_digit(ds@[i as int]));
        let d = (ds[i] as u32 - 48) as i128;
        assert(ds@.subrange(0, i + 1).drop_last() =~= ds@.subrange(0, i as int));
        if acc < EXP_CAP {
            let next = acc * 10 + d;
            acc = if next < EXP_CAP {
                next
            } else {
                EXP_CAP
            };
        }
        i = i + 1;
    }
    assert(ds@.subrange(0, ds@.len() as int) =~= ds@);
    if neg {
        Some(-acc)
    } else {
        Some(acc)
    }
}

/// Units of an unsigned literal (see `unsigned_units`).
fn parse_unsigned(s: &str) -> (r: Option<i128>)
    ensures
        match unsigned_units(s@) {
            Some(u) => r == Some(u as i128) && 0 <= u < INT_LIMIT * ONE,
            None => r is None,
        },
{
    proof {
        reveal_strlit(".");
    }
    let cs = chars_of(s);
    let n = cs.len();
    let mark = exp_mark_exec(&cs);
    let me: usize = match mark {
        Some(i) => i,
        None => n,
    };
    let mc = slice_vec(&cs, 0, me);
    assert(mc@ == mantissa(s@)) by {
        if mark is None {
            assert(mc@ =~= cs@);
        }
    }
    let dot = chars_of(".");
    assert(dot@ =~= seq!['.']);
    assert(dot@.len() == 1);
    let m = mc.len();
    let found = find_exec(&mc, &dot);
    let (ip_end, fp_start) = match found {
        Some(d) => {
            assert(d + 1 <= m);
            (d, d + 1)
        },
        None => (m, m),
    };
    let ip = slice_vec(&mc, 0, ip_end);
    let fp = slice_vec(&mc, fp_start, m);
    assert(ip@ == int_part(mc@)) by {
        if found is None {
            assert(ip@ =~= mc@);
        }
    }
    assert(fp@ == frac_part(mc@)) by {
        if found is None {
            assert(fp@ =~= Seq::<char>::empty());
        }
    }
    if !all_digits_exec(&ip) || !all_digits_exec(&fp) || ip.len() + fp.len() == 0 {
        return None;
    }
    match mark {
        None => plain_units_exec(&ip, &fp),
        Some(i) => {
            let t = slice_vec(&cs, i + 1, n);
            match exponent_exec(&t) {
                None => None,
                Some(x) => {
                    let ghost v = exponent_value(t@)->Some_0;
                    let hi: i128 = fp.len() as i128 + 20;
                    let lo: i128 = -(ip.len() as i128 + 20);
                    let xc: i128 = if x > hi {
                        hi
                    } else if x < lo {
                        lo
                    } else {
                        x
                    };
                    proof {
                        let vc = if v > hi {
                            hi as int
                        } else if v < lo {
                            lo as int
                        } else {
                            v
                        };
                        assert(xc == vc);
                        lemma_shift_clamp(ip@, fp@, v);
                    }
                    let (si, sf) = shift_exec(&ip, &fp, xc);
                    plain_units_exec(&si, &sf)
                },
            }
        },
    }
}

/// See `shift_int` and `shift_frac`.
fn shift_exec(ip: &Vec<char>, fp: &Vec<char>, x: i128) -> (r: (Vec<char>, Vec<char>))
    requires
        -(ip@.len() + 20) <= x <= fp@.len() + 20,
        all_digits(ip@),
        all_digits(fp@),
    ensures
        r.0@ == shift_int(ip@, fp@, x as int),
        r.1@ == shift_frac(ip@, fp@, x as int),
        all_digits(r.0@),
        all_digits(r.1@),
{
    let mut d = slice_vec(ip, 0, ip.len());
    let mut k: usize = 0;
    assert(d@ =~= ip@);
    while k < fp.len()
        invariant
            k <= fp@.len(),
            d@ == ip@ + fp@.subrange(0, k as int),
        decreases fp@.len() - k,
    {
        d.push(fp[k]);
        assert(ip@ + fp@.subrange(0, k + 1) =~= (ip@ + fp@.subrange(0, k as int)).push(fp@[k as int]));
        k = k + 1;
    }
    assert(fp@.subrange(0, fp@.len() as int) =~= fp@);
    assert(all_digits(d@)) by {
        assert forall|j: int| 0 <= j < d@.len() implies is_digit(#[trigger] d@[j]) by {
            if j >= ip@.len() {
                assert(d@[j] == fp@[j - ip@.len()]);
            }
        }
    }
    let len = d.len();
    let p: i128 = ip.len() as i128 + x;
    if p <= 0 {
        let mut f: Vec<char> = Vec::new();
        append_zeros(&mut f, (-p) as usize);
        let mut k2: usize = 0;
        let ghost z = f@;
        while k2 < len
            invariant
                k2 <= len == d@.len(),
                f@ == z + d@.subrange(0, k2 as int),
            decreases len - k2,
        {
            f.push(d[k2]);
            assert(z + d@.subrange(0, k2 + 1) =~= (z + d@.subrange(0, k2 as int)).push(d@[k2 as int]));
            k2 = k2 + 1;
        }
        assert(d@.subrange(0, len as int) =~= d@);
        assert(z =~= zeros((-p) as nat));
        assert(all_digits(f@)) by {
            assert forall|j: int| 0 <= j < f@.len() implies is_digit(#[trigger] f@[j]) by {
                if j >= z.len() {
                    assert(f@[j] == d@[j - z.len()]);
                }
            }
        }
        (Vec::new(), f)
    } else if p <= len as i128 {
        let a = slice_vec(&d, 0, p as usize);
        let b = slice_vec(&d, p as usize, len);
        (a, b)
    } else {
        let mut a = d;
        let ghost d0 = a@;
        append_zeros(&mut a, (p - len as i128) as usize);
        assert(all_digits(a@)) by {
            assert forall|j: int| 0 <= j < a@.len() implies is_digit(#[trigger] a@[j]) by {
                if j < d0.len() {
                    assert(a@[j] == d0[j]);
                }
            }
        }
        (a, Vec::new())
    }
}

/// Units of the digits `ip . fp` (see `plain_units`).
fn plain_units_exec(ip: &Vec<char>, fp: &Vec<char>) -> (r: Option<i128>)
    requires
        all_digits(ip@),
        all_digits(fp@),
    ensures
        match plain_units(ip@, fp@) {
            Some(u) => r == Some(u as i128) && 0 <= u < INT_LIMIT * ONE,
            None => r is None,
        },
{
    // whole part, held below the limit
    let mut acc: i128 = 0;
    let mut i: usize = 0;
    while i < ip.len()
        invariant
            i <= ip@.len(),
            all_digits(ip@),
            0 <= acc <= INT_LIMIT,
            acc == (if digits_value(ip@.subrange(0, i as int)) < INT_LIMIT {
                digits_value(ip@.subrange(0, i as int))
            } else {
                INT_LIMIT as int
            }),
        decreases ip@.len() - i,
    {
        assert(is_digit(ip@[i as int]));
        let d = (ip[i] as u32 - 48) as i128;
        assert(ip@.subrange(0, i + 1).drop_last() =~= ip@.subrange(0, i as int));
        if acc < INT_LIMIT {
            let next = acc * 10 + d;
            acc = if next < INT_LIMIT {
                next
            } else {
                INT_LIMIT
            };
        }
        i = i + 1;
    }
    assert(ip@.subrange(0, ip@.len() as int) =~= ip@);
    if acc >= INT_LIMIT {
        return None;
    }
    // fraction, trailing zeros dropped
    let mut end: usize = fp.len();
    assert(fp@.subrange(0, end as int) =~= fp@);
    while end > 0 && fp[end - 1] == '0'
        invariant
            end <= fp@.len(),
            strip_trailing_zeros(fp@) == strip_trailing_zeros(fp@.subrange(0, end as int)),
        decreases end,
    {
        assert(fp@.subrange(0, end as int).drop_last() =~= fp@.subrange(0, end - 1));
        end = end - 1;
    }
    let ghost fz = fp@.subrange(0, end as int);
    assert(strip_trailing_zeros(fp@) == fz);
    if end > FRACTION_DIGITS {
        return None;
    }
    let mut f: i128 = 0;
    let mut k: usize = 0;
    while k < end
        invariant
            k <= end <= fp@.len(),
            end <= FRACTION_DIGITS,
            fz == fp@.subrange(0, end as int),
            all_digits(fp@),
            f == digits_value(fz.subrange(0, k as int)),
            0 <= f < pow10(k as nat),
        decreases end - k,
    {
        assert(fz[k as int] == fp@[k as int]);
        assert(is_digit(fp@[k as int]));
        let d = (fp[k] as u32 - 48) as i128;
        assert(fz.subrange(0, k + 1).drop_last() =~= fz.subrange(0, k as int));
        proof {
            lemma_pow10_bound(k as nat);
        }
        f = f * 10 + d;
        k = k + 1;
    }
    assert(fz.subrange(0, end as int) =~= fz);
    let p = pow10_exec((FRACTION_DIGITS - end) as u32);
    proof {
        lemma_pow10_mul(end as nat, (FRACTION_DIGITS - end) as nat);
    }
    assert(f * p < pow10(end as nat) * p) by (nonlinear_arith)
        requires
            0 <= f < pow10(end as nat),
            p > 0,
    ;
    proof {
        lemma_pow10_bound(18);
    }
    assert(0 <= f * p);
    assert(0 <= acc * ONE < INT_LIMIT * ONE) by (nonlinear_arith)
        requires
            0 <= acc < INT_LIMIT,
    ;
    Some(acc * ONE + f * p)
}

/// Digits hold no exponent marker.
proof fn lemma_no_exp_mark(s: Seq<char>, i: int)
    requires
        all_digits(s),
        0 <= i,
    ensures
        exp_mark_from(s, i) is None,
    decreases s.len() - i,
{
    if i < s.len() {
        assert(is_digit(s[i]));
        lemma_no_exp_mark(s, i + 1);
    }
}

proof fn lemma_digits_nonneg(s: Seq<char>)
    requires
        all_digits(s),
    ensures
        digits_value(s) >= 0,
    decreases s.len(),
{
    if s.len() > 0 {
        assert(is_digit(s.last()));
        lemma_digits_nonneg(s.drop_last());
    }
}

proof fn lemma_digits_zeros(d: Seq<char>, m: nat)
    ensures
        digits_value(d + zeros(m)) == digits_value(d) * pow10(m),
    decreases m,
{
    if m == 0 {
        assert(d + zeros(0) =~= d);
    } else {
        lemma_digits_zeros(d, (m - 1) as nat);
        assert((d + zeros(m)).drop_last() =~= d + zeros((m - 1) as nat));
        assert(digits_value(d + zeros(m)) == digits_value(d) * pow10((m - 1) as nat) * 10);
        assert(digits_value(d) * pow10((m - 1) as nat) * 10 == digits_value(d) * (10 * pow10(
            (m - 1) as nat,
        ))) by (nonlinear_arith);
    }
}

proof fn lemma_strip_zeros(m: nat)
    ensures
        strip_trailing_zeros(zeros(m)) == Seq::<char>::empty(),
    decreases m,
{
    if m > 0 {
        assert(zeros(m).drop_last() =~= zeros((m - 1) as nat));
        lemma_strip_zeros((m - 1) as nat);
    } else {
        assert(zeros(0) =~= Seq::<char>::empty());
    }
}

proof fn lemma_strip_concat(a: Seq<char>, b: Seq<char>)
    ensures
        strip_trailing_zeros(a + b) == (if strip_trailing_zeros(b).len() == 0 {
            strip_trailing_zeros(a)
        } else {
            a + strip_trailing_zeros(b)
        }),
    decreases b.len(),
{
    if b.len() == 0 {
        assert(a + b =~= a);
    } else if b.last() == '0' {
        assert((a + b).drop_last() =~= a + b.drop_last());
        lemma_strip_concat(a, b.drop_last());
    } else {
        assert((a + b).last() == b.last());
    }
}

/// Moving the point further than 20 places past either end of the digits
/// gives the same result as moving it exactly 20 places past.
proof fn lemma_shift_clamp(ip: Seq<char>, fp: Seq<char>, v: int)
    requires
        all_digits(ip),
        all_digits(fp),
    ensures
        plain_units(shift_int(ip, fp, v), shift_frac(ip, fp, v)) == ({
            let vc = if v > fp.len() + 20 {
                fp.len() + 20int
            } else if v < -(ip.len() + 20) {
                -(ip.len() + 20)
            } else {
                v
            };
            plain_units(shift_int(ip, fp, vc), shift_frac(ip, fp, vc))
        }),
{
    let d = ip + fp;
    assert(all_digits(d)) by {
        assert forall|j: int| 0 <= j < d.len() implies is_digit(#[trigger] d[j]) by {
            if j >= ip.len() {
                assert(d[j] == fp[j - ip.len()]);
            }
        }
    }
    lemma_digits_nonneg(d);
    reveal_with_fuel(pow10, 21);
    assert(strip_trailing_zeros(Seq::<char>::empty()) =~= Seq::<char>::empty());
    if v > fp.len() + 20 {
        let m = (ip.len() + v - d.len()) as nat;
        lemma_digits_zeros(d, m);
        lemma_digits_zeros(d, 20);
        lemma_pow10_mul(20, (m - 20) as nat);
        lemma_pow10_pos((m - 20) as nat);
        assert(digits_value(d) == 0 || digits_value(d) * pow10(m) >= pow10(20)) by (nonlinear_arith)
            requires
                digits_value(d) >= 0,
                pow10(m) == pow10(20) * pow10((m - 20) as nat),
                pow10((m - 20) as nat) >= 1,
                pow10(20) > 0,
        ;
        assert(digits_value(d) == 0 || digits_value(d) * pow10(20) >= pow10(20)) by (nonlinear_arith)
            requires
                digits_value(d) >= 0,
                pow10(20) > 0,
        ;
    } else if v < -(ip.len() + 20) {
        let m = (-(ip.len() + v)) as nat;
        lemma_strip_concat(zeros(m), d);
        lemma_strip_concat(zeros(20), d);
        lemma_strip_zeros(m);
        lemma_strip_zeros(20);
        assert(digits_value(Seq::<char>::empty()) == 0);
    }
}

proof fn lemma_pow10_bound(n: nat)
    requires
        n <= 18,
    ensures
        1 <= pow10(n) <= pow10(18),
        pow10(18) == ONE,
    decreases n,
{
    reveal_with_fuel(pow10, 19);
    if n > 0 {
        lemma_pow10_bound((n - 1) as nat);
    }
}

proof fn lemma_pow10_mul(a: nat, b: nat)
    ensures
        pow10(a) * pow10(b) == pow10(a + b),
        pow10(b) > 0,
    decreases a,
{
    if a > 0 {
        lemma_pow10_mul((a - 1) as nat, b);
        assert(pow10(a) * pow10(b) == 10 * (pow10((a - 1) as nat) * pow10(b))) by (nonlinear_arith)
            requires
                pow10(a) == 10 * pow10((a - 1) as nat),
        ;
    } else {
        lemma_pow10_pos(b);
    }
}

proof fn lemma_pow10_pos(n: nat)
    ensures
        pow10(n) > 0,
    decreases n,
{
    if n > 0 {
        lemma_pow10_pos((n - 1) as nat);
    }
}

fn pow10_exec(n: u32) -> (r: i128)
    requires
        n <= 18,
    ensures
        r == pow10(n as nat),
        r > 0,
{
    let mut r: i128 = 1;
    let mut i: u32 = 0;
    while i < n
        invariant
            i <= n <= 18,
            r == pow10(i as nat),
        decreases n - i,
    {
        proof {
            lemma_pow10_bound((i + 1) as nat);
        }
        r = r * 10;
        i = i + 1;
    }
    proof {
        lemma_pow10_bound(n as nat);
    }
    r
}

/// Appends one digit character.
pub(crate) fn push_digit(out: &mut String, c: char)
    requires
        is_digit(c),
    ensures
        final(out)@ == old(out)@.push(c),
{
    proof {
        reveal_strlit("0");
        reveal_strlit("1");
        reveal_strlit("2");
        reveal_strlit("3");
        reveal_strlit("4");
        reveal_strlit("5");
        reveal_strlit("6");
        reveal_strlit("7");
        reveal_strlit("8");
        reveal_strlit("9");
    }
    let s = if c == '0' {
        "0"
    } else if c == '1' {
        "1"
    } else if c == '2' {
        "2"
    } else if c == '3' {
        "3"
    } else if c == '4' {
        "4"
    } else if c == '5' {
        "5"
    } else if c == '6' {
        "6"
    } else if c == '7' {
        "7"
    } else if c == '8' {
        "8"
    } else {
        "9"
    };
    assert(s@ =~= seq![c]);
    out.append(s);
}

pub(crate) fn digit_char_exec(d: u128) -> (c: char)
    requires
        d < 10,
    ensures
        c == digit_char(d as int),
        is_digit(c),
{
    ((d as u8) + 48) as char
}

/// The last `width` digits of `n`, zero-padded.
fn padded_digits(n: u128, width: usize) -> (r: Vec<char>)
    ensures
        r@ == padded_text(n as nat, width as nat),
        r@.len() == width,
        forall|k: int| 0 <= k < r@.len() ==> is_digit(#[trigger] r@[k]),
    decreases width,
{
    if width == 0 {
        Vec::new()
    } else {
        let mut r = padded_digits(n / 10, width - 1);
        r.push(digit_char_exec(n % 10));
        r
    }
}

/// Appends the decimal text of `n`.
pub(crate) fn push_nat_text(out: &mut String, n: u128)
    ensures
        final(out)@ == old(out)@ + nat_text(n as nat),
    decreases n,
{
    if n < 10 {
        let c = digit_char_exec(n);
        push_digit(out, c);
        assert(old(out)@.push(c) =~= old(out)@ + seq![c]);
    } else {
        push_nat_text(out, n / 10);
        let c = digit_char_exec(n % 10);
        push_digit(out, c);
        assert(old(out)@ + nat_text(n as nat) =~= old(out)@ + nat_text((n / 10) as nat) + seq![c]);
    }
}

} // verus!
