//! Verified decimal rendering of integers.
//!
//! Every command line and filter expression the pipeline hands to the
//! external decode/encode service is plain text, so the crate needs an
//! exact, verified way to turn numbers into decimal strings: bare
//! integers, zero-padded frame ordinals, and millisecond counts shown as
//! seconds with three decimal places.

use vstd::prelude::*;

verus! {

/// The decimal digit character for a value below ten.
pub open spec fn spec_digit_char(d: nat) -> char {
    if d == 0 {
        '0'
    } else if d == 1 {
        '1'
    } else if d == 2 {
        '2'
    } else if d == 3 {
        '3'
    } else if d == 4 {
        '4'
    } else if d == 5 {
        '5'
    } else if d == 6 {
        '6'
    } else if d == 7 {
        '7'
    } else if d == 8 {
        '8'
    } else {
        '9'
    }
}

/// The usual decimal rendering of `n`, without leading zeroes
/// (a single `'0'` for zero itself).
pub open spec fn spec_dec(n: nat) -> Seq<char>
    decreases n,
{
    if n < 10 {
        seq![spec_digit_char(n)]
    } else {
        spec_dec(n / 10) + seq![spec_digit_char(n % 10)]
    }
}

/// The decimal rendering of `n` left-padded with zeroes to at least
/// three characters, as a frame ordinal is written.
pub open spec fn spec_dec_pad3(n: nat) -> Seq<char> {
    if n < 10 {
        seq!['0', '0'] + spec_dec(n)
    } else if n < 100 {
        seq!['0'] + spec_dec(n)
    } else {
        spec_dec(n)
    }
}

/// A millisecond count rendered as seconds with exactly three decimal
/// places, e.g. `12345` becomes `12.345`.
pub open spec fn spec_ms3(ms: nat) -> Seq<char> {
    spec_dec(ms / 1000) + seq!['.'] + spec_dec_pad3(ms % 1000)
}

/// The decimal rendering of `n` left-padded with zeroes to at least two
/// characters, as clock fields are written.
pub open spec fn spec_dec_pad2(n: nat) -> Seq<char> {
    if n < 10 {
        seq!['0'] + spec_dec(n)
    } else {
        spec_dec(n)
    }
}

/// A millesimal count rendered as a plain decimal number with trailing
/// zeroes (and a trailing point) removed, e.g. `2000` becomes `2` and
/// `500` becomes `0.5`.
pub open spec fn spec_milli_compact(m: nat) -> Seq<char> {
    if m % 1000 == 0 {
        spec_dec(m / 1000)
    } else if m % 100 == 0 {
        spec_dec(m / 1000) + seq!['.', spec_digit_char(m / 100 % 10)]
    } else if m % 10 == 0 {
        spec_dec(m / 1000) + seq![
            '.',
            spec_digit_char(m / 100 % 10),
            spec_digit_char(m / 10 % 10),
        ]
    } else {
        spec_ms3(m)
    }
}

/// The one-character string for a decimal digit.
fn digit_str(d: u64) -> (r: &'static str)
    requires
        d < 10,
    ensures
        r@ =~= seq![spec_digit_char(d as nat)],
{
    proof {
        reveal_strlit("0");
        reveal_strlit("1");
        reveal_strlit("2");
        reveal_strlit("3");
        reveal_strlit("4");
        reveal_strlit("5");
        reveal_strlit("6");
        reveal_strlit("7");
        reveal_strlit("8");
        reveal_strlit("9");
    }
    match d {
        0 => "0",
        1 => "1",
        2 => "2",
        3 => "3",
        4 => "4",
        5 => "5",
        6 => "6",
        7 => "7",
        8 => "8",
        _ => "9",
    }
}

/// Renders `n` in decimal.
pub fn fmt_u64(n: u64) -> (r: String)
    ensures
        r@ == spec_dec(n as nat),
    decreases n,
{
    if n < 10 {
        let r = digit_str(n).to_owned();
        assert(r@ =~= spec_dec(n as nat));
        r
    } else {
        let mut r = fmt_u64(n / 10);
        r.append(digit_str(n % 10));
        assert(r@ =~= spec_dec(n as nat));
        r
    }
}

/// Renders `n` in decimal, zero-padded to at least three characters.
pub fn fmt_u64_pad3(n: u64) -> (r: String)
    ensures
        r@ == spec_dec_pad3(n as nat),
{
    proof {
        reveal_strlit("00");
        reveal_strlit("0");
        reveal_strlit("");
    }
    let mut r = if n < 10 {
        "00".to_owned()
    } else if n < 100 {
        "0".to_owned()
    } else {
        "".to_owned()
    };
    let d = fmt_u64(n);
    r.append(d.as_str());
    assert(r@ =~= spec_dec_pad3(n as nat));
    r
}

/// Renders `n` in decimal, zero-padded to at least two characters.
pub fn fmt_u64_pad2(n: u64) -> (r: String)
    ensures
        r@ == spec_dec_pad2(n as nat),
{
    proof {
        reveal_strlit("0");
        reveal_strlit("");
    }
    let mut r = if n < 10 {
        "0".to_owned()
    } else {
        "".to_owned()
    };
    let d = fmt_u64(n);
    r.append(d.as_str());
    assert(r@ =~= spec_dec_pad2(n as nat));
    r
}

/// Renders a millisecond count as seconds with three decimal places.
pub fn fmt_ms3(ms: u64) -> (r: String)
    ensures
        r@ == spec_ms3(ms as nat),
{
    proof {
        reveal_strlit(".");
    }
    let mut r = fmt_u64(ms / 1000);
    r.append(".");
    let frac = fmt_u64_pad3(ms % 1000);
    r.append(frac.as_str());
    assert(r@ =~= spec_ms3(ms as nat));
    r
}

/// Renders a millesimal count compactly, without trailing zeroes.
pub fn fmt_milli_compact(m: u64) -> (r: String)
    ensures
        r@ == spec_milli_compact(m as nat),
{
    proof {
        reveal_strlit(".");
    }
    if m % 1000 == 0 {
        fmt_u64(m / 1000)
    } else if m % 100 == 0 {
        let mut r = fmt_u64(m / 1000);
        r.append(".");
        r.append(digit_str(m / 100 % 10));
        assert(r@ =~= spec_milli_compact(m as nat));
        r
    } else if m % 10 == 0 {
        let mut r = fmt_u64(m / 1000);
        r.append(".");
        r.append(digit_str(m / 100 % 10));
        r.append(digit_str(m / 10 % 10));
        assert(r@ =~= spec_milli_compact(m as nat));
        r
    } else {
        let r = fmt_ms3(m);
        assert(r@ =~= spec_milli_compact(m as nat));
        r
    }
}

} // verus!
