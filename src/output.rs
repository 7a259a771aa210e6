//! Helpers for presenting records: output choices, shortened text,
//! human-readable sizes and the URL parts shown in listings.
use vstd::prelude::*;
use vstd::utf8::{encode_utf8, is_char_boundary};
use crate::decimal::{nat_text, digit_char, push_nat_text, push_digit, digit_char_exec};
use crate::text::{chars_of, find_exec};
use crate::url::{strip_scheme, before_first, without_scheme, before_first_exec, char_pattern};
use crate::text::find_first;

verus! {

/// How listings are written.
#[derive(Clone, Copy, Debug, Default, PartialEq, Eq, Structural)]
pub enum OutputFormat {
    #[default]
    Table,
    Json,
    Compact,
}

/// When to colour output.
#[derive(Clone, Copy, Debug, Default, PartialEq, Eq, Structural)]
pub enum ColorWhen {
    #[default]
    Auto,
    Always,
    Never,
}

/// One row of an entry listing, already formatted.
#[derive(Clone, Debug)]
pub struct EntryRow {
    pub index: usize,
    pub method: String,
    pub status: String,
    pub time: String,
    pub size: String,
    pub url: String,
}

/// Relies on `atty::is` for standard output: whether it is a terminal,
/// which depends on how the process was started.
#[verifier::external_body]
fn stdout_is_terminal() -> (r: bool) {
    atty::is(atty::Stream::Stdout)
}

impl ColorWhen {
    /// Whether to colour, given whether standard output is a terminal.
    pub fn color_for(&self, terminal: bool) -> (r: bool)
        ensures
            r == (*self == ColorWhen::Always || (*self == ColorWhen::Auto && terminal)),
    {
        match self {
            ColorWhen::Always => true,
            ColorWhen::Never => false,
            ColorWhen::Auto => terminal,
        }
    }

    /// Whether to colour: always, never, or when standard output is a terminal.
    pub fn should_color(&self) -> (r: bool)
        ensures
            *self == ColorWhen::Always ==> r,
            *self == ColorWhen::Never ==> !r,
    {
        match self {
            ColorWhen::Auto => self.color_for(stdout_is_terminal()),
            _ => self.color_for(false),
        }
    }
}

/// `s` cut to `max_len` bytes: whole when it fits; its first `max_len`
/// characters when `max_len` is 3 or less; else its first `max_len - 3`
/// bytes followed by `...`.
pub fn truncate(s: &str, max_len: usize) -> (r: String)
    requires
        encode_utf8(s@).len() <= max_len || max_len <= 3 || is_char_boundary(
            encode_utf8(s@),
            max_len - 3,
        ),
    ensures
        encode_utf8(s@).len() <= max_len ==> r@ == s@,
        encode_utf8(s@).len() > max_len && max_len <= 3 ==> r@ == s@.subrange(
            0,
            if max_len < s@.len() {
                max_len as int
            } else {
                s@.len() as int
            },
        ),
        encode_utf8(s@).len() > max_len && max_len > 3 ==> {
            &&& r@.len() >= 3
            &&& r@.subrange(r@.len() - 3, r@.len() as int) == "..."@
            &&& encode_utf8(r@.subrange(0, r@.len() - 3)) == encode_utf8(s@).subrange(
                0,
                max_len - 3,
            )
        },
{
    let byte_len = s.as_bytes().len();
    if byte_len <= max_len {
        s.to_owned()
    } else if max_len <= 3 {
        let n = s.unicode_len();
        let k = if max_len < n {
            max_len
        } else {
            n
        };
        s.substring_char(0, k).to_owned()
    } else {
        proof {
            reveal_strlit("...");
        }
        let (head, _) = s.split_at(max_len - 3);
        let r = head.to_owned().concat("...");
        assert(r@.subrange(0, r@.len() - 3) =~= head@);
        assert(r@.subrange(r@.len() - 3, r@.len() as int) =~= "..."@);
        r
    }
}

/// `n / d` rounded to the nearest whole number, ties to even.
pub open spec fn round_half_even(n: nat, d: nat) -> nat
    recommends
        d > 0,
{
    let q = n / d;
    let rem = n % d;
    if 2 * rem > d || (2 * rem == d && q % 2 == 1) {
        q + 1
    } else {
        q
    }
}

/// The spacing of 64-bit floating-point numbers around `b` (below 2^63):
/// 1 below 2^53, doubling at each further power of two.
pub open spec fn float_spacing(b: nat) -> nat {
    if b < 0x20_0000_0000_0000 {
        1
    } else if b < 0x40_0000_0000_0000 {
        2
    } else if b < 0x80_0000_0000_0000 {
        4
    } else if b < 0x100_0000_0000_0000 {
        8
    } else if b < 0x200_0000_0000_0000 {
        16
    } else if b < 0x400_0000_0000_0000 {
        32
    } else if b < 0x800_0000_0000_0000 {
        64
    } else if b < 0x1000_0000_0000_0000 {
        128
    } else if b < 0x2000_0000_0000_0000 {
        256
    } else if b < 0x4000_0000_0000_0000 {
        512
    } else {
        1024
    }
}

/// `b` as a 64-bit floating-point number holds it: rounded to a multiple of
/// the spacing there, ties to even.
pub open spec fn as_float(b: nat) -> nat {
    round_half_even(b, float_spacing(b)) * float_spacing(b)
}

/// `tenths` tenths, written with one decimal.
pub open spec fn tenths_text(tenths: nat) -> Seq<char> {
    nat_text(tenths / 10) + seq!['.', digit_char((tenths % 10) as int)]
}

/// A byte count for people: `-` below zero, whole bytes below 1024, else
/// kilobytes below 1024 * 1024, else megabytes, with one decimal rounded
/// half to even (megabytes from the count as a floating-point number holds it).
pub open spec fn bytes_text(bytes: int) -> Seq<char> {
    if bytes < 0 {
        "-"@
    } else if bytes < 1024 {
        nat_text(bytes as nat) + "B"@
    } else if bytes < 1024 * 1024 {
        tenths_text(round_half_even((bytes * 10) as nat, 1024)) + "KB"@
    } else {
        tenths_text(round_half_even(as_float(bytes as nat) * 10, 1024 * 1024)) + "MB"@
    }
}

fn round_half_even_exec(n: u128, d: u128) -> (r: u128)
    requires
        0 < d <= 1024 * 1024,
        n <= 100_000_000_000_000_000_000,
    ensures
        r == round_half_even(n as nat, d as nat),
{
    let q = n / d;
    let rem = n % d;
    if 2 * rem > d || (2 * rem == d && q % 2 == 1) {
        q + 1
    } else {
        q
    }
}

/// See `as_float`.
fn float_value(b: u128) -> (r: u128)
    requires
        b < 0x8000_0000_0000_0000,
    ensures
        r == as_float(b as nat),
        r <= b + 1024,
{
    let u: u128 = if b < 0x20_0000_0000_0000 {
        1
    } else if b < 0x40_0000_0000_0000 {
        2
    } else if b < 0x80_0000_0000_0000 {
        4
    } else if b < 0x100_0000_0000_0000 {
        8
    } else if b < 0x200_0000_0000_0000 {
        16
    } else if b < 0x400_0000_0000_0000 {
        32
    } else if b < 0x800_0000_0000_0000 {
        64
    } else if b < 0x1000_0000_0000_0000 {
        128
    } else if b < 0x2000_0000_0000_0000 {
        256
    } else if b < 0x4000_0000_0000_0000 {
        512
    } else {
        1024
    };
    let q = round_half_even_exec(b, u);
    assert(q * u <= b + u) by (nonlinear_arith)
        requires
            q <= b / u + 1,
            1 <= u,
    ;
    q * u
}

fn push_tenths(out: &mut String, tenths: u128)
    ensures
        final(out)@ == old(out)@ + tenths_text(tenths as nat),
{
    proof {
        reveal_strlit(".");
    }
    push_nat_text(out, tenths / 10);
    out.append(".");
    let c = digit_char_exec(tenths % 10);
    push_digit(out, c);
    assert(final(out)@ =~= old(out)@ + tenths_text(tenths as nat));
}

/// See `bytes_text`.
pub fn format_bytes(bytes: i64) -> (r: String)
    ensures
        r@ == bytes_text(bytes as int),
{
    proof {
        reveal_strlit("-");
        reveal_strlit("B");
        reveal_strlit("KB");
        reveal_strlit("MB");
    }
    if bytes < 0 {
        return "-".to_owned();
    }
    let mut out = String::new();
    if bytes < 1024 {
        push_nat_text(&mut out, bytes as u128);
        out.append("B");
    } else if bytes < 1024 * 1024 {
        push_tenths(&mut out, round_half_even_exec(bytes as u128 * 10, 1024));
        out.append("KB");
    } else {
        let f = float_value(bytes as u128);
        push_tenths(&mut out, round_half_even_exec(f * 10, 1024 * 1024));
        out.append("MB");
    }
    out
}

/// The host with any port: after the scheme, up to the first `/`.
pub fn extract_host(url: &str) -> (r: &str)
    ensures
        r@ == before_first(strip_scheme(url@), '/'),
{
    before_first_exec(without_scheme(url), '/')
}

/// The path with any query: from the first `/` after the scheme; `/` when there is none.
pub fn extract_path(url: &str) -> (r: &str)
    ensures
        r@ == (match find_first(strip_scheme(url@), seq!['/']) {
            Some(i) => strip_scheme(url@).subrange(i, strip_scheme(url@).len() as int),
            None => "/"@,
        }),
{
    let w = without_scheme(url);
    let cs = chars_of(w);
    match find_exec(&cs, &char_pattern('/')) {
        Some(i) => w.substring_char(i, cs.len()),
        None => "/",
    }
}

} // verus!
