//! Rendering of byte counts and timestamps as display strings.
//!
//! Sizes are rendered on a binary (1024-based) unit ladder `B`, `KB`, `MB`,
//! `GB`, `TB`: the value is scaled down by 1024 until it falls below 1024 or
//! the ladder ends, then printed with one decimal digit (plain bytes are
//! printed without a decimal part). Timestamps are rendered as
//! `YYYY-MM-DD HH:MM` with zero-padded fields.

use vstd::prelude::*;
use vstd::string::*;

use crate::inspect::Timestamp;

verus! {

/// The character for a single decimal digit.
pub open spec fn digit_char(d: nat) -> char {
    if d == 0 {
        '0'
    } else if d == 1 {
        '1'
    } else if d == 2 {
        '2'
    } else if d == 3 {
        '3'
    } else if d == 4 {
        '4'
    } else if d == 5 {
        '5'
    } else if d == 6 {
        '6'
    } else if d == 7 {
        '7'
    } else if d == 8 {
        '8'
    } else {
        '9'
    }
}

/// The decimal representation of `n`, most significant digit first,
/// with no leading zeros (a single `'0'` for zero).
pub open spec fn dec_digits(n: nat) -> Seq<char>
    decreases n,
{
    if n < 10 {
        seq![digit_char(n)]
    } else {
        dec_digits(n / 10).push(digit_char(n % 10))
    }
}

fn digit_str(d: u64) -> (r: &'static str)
    requires
        d < 10,
    ensures
        r@ == seq![digit_char(d as nat)],
{
    if d == 0 {
        proof {
            reveal_strlit("0");
            assert("0"@ =~= seq![digit_char(0)]);
        }
        "0"
    } else if d == 1 {
        proof {
            reveal_strlit("1");
            assert("1"@ =~= seq![digit_char(1)]);
        }
        "1"
    } else if d == 2 {
        proof {
            reveal_strlit("2");
            assert("2"@ =~= seq![digit_char(2)]);
        }
        "2"
    } else if d == 3 {
        proof {
            reveal_strlit("3");
            assert("3"@ =~= seq![digit_char(3)]);
        }
        "3"
    } else if d == 4 {
        proof {
            reveal_strlit("4");
            assert("4"@ =~= seq![digit_char(4)]);
        }
        "4"
    } else if d == 5 {
        proof {
            reveal_strlit("5");
            assert("5"@ =~= seq![digit_char(5)]);
        }
        "5"
    } else if d == 6 {
        proof {
            reveal_strlit("6");
            assert("6"@ =~= seq![digit_char(6)]);
        }
        "6"
    } else if d == 7 {
        proof {
            reveal_strlit("7");
            assert("7"@ =~= seq![digit_char(7)]);
        }
        "7"
    } else if d == 8 {
        proof {
            reveal_strlit("8");
            assert("8"@ =~= seq![digit_char(8)]);
        }
        "8"
    } else {
        proof {
            reveal_strlit("9");
            assert("9"@ =~= seq![digit_char(9)]);
        }
        "9"
    }
}

/// Renders `n` in decimal, without padding.
pub fn decimal_string(n: u64) -> (r: String)
    ensures
        r@ == dec_digits(n as nat),
    decreases n,
{
    if n < 10 {
        String::from_str(digit_str(n))
    } else {
        let mut r = decimal_string(n / 10);
        r.append(digit_str(n % 10));
        proof {
            assert(r@ =~= dec_digits((n / 10) as nat).push(digit_char((n % 10) as nat)));
        }
        r
    }
}

/// `1024^k`: the number of bytes in one step `k` of the unit ladder.
pub open spec fn pow1024(k: nat) -> nat
    decreases k,
{
    if k == 0 {
        1
    } else {
        1024 * pow1024((k - 1) as nat)
    }
}

pub proof fn lemma_pow1024_values()
    ensures
        pow1024(1) == 1024,
        pow1024(2) == 1048576,
        pow1024(3) == 1073741824,
        pow1024(4) == 1099511627776,
{
    assert(pow1024(0) == 1);
    assert(pow1024(1) == 1024);
    assert(pow1024(2) == 1048576);
    assert(pow1024(3) == 1073741824);
    assert(pow1024(4) == 1099511627776);
}

/// The index on the unit ladder at which the scaling loop stops: the first
/// step at which the scaled value falls below 1024, capped at the last unit.
pub open spec fn unit_index(size: nat) -> nat {
    if size < pow1024(1) {
        0
    } else if size < pow1024(2) {
        1
    } else if size < pow1024(3) {
        2
    } else if size < pow1024(4) {
        3
    } else {
        4
    }
}

/// The label of unit `k` of the ladder.
pub open spec fn unit_label(k: nat) -> Seq<char> {
    if k == 0 {
        seq!['B']
    } else if k == 1 {
        seq!['K', 'B']
    } else if k == 2 {
        seq!['M', 'B']
    } else if k == 3 {
        seq!['G', 'B']
    } else {
        seq!['T', 'B']
    }
}

/// `num / den` rounded to the nearest integer, ties to the even neighbour
/// (the rounding used when a binary fraction is printed with a fixed number
/// of decimal digits).
pub open spec fn round_half_even(num: int, den: int) -> int
    recommends
        den > 0,
{
    let q = num / den;
    let r = num % den;
    if 2 * r > den || (2 * r == den && q % 2 != 0) {
        q + 1
    } else {
        q
    }
}

/// The rendering of a byte count: scaled to its ladder unit, with one
/// decimal digit unless the value stayed in plain bytes.
pub open spec fn spec_format_size(size: nat) -> Seq<char> {
    let k = unit_index(size);
    if k == 0 {
        dec_digits(size) + seq![' ', 'B']
    } else {
        let n = round_half_even(size as int * 10, pow1024(k) as int);
        dec_digits((n / 10) as nat) + seq!['.', digit_char((n % 10) as nat), ' '] + unit_label(k)
    }
}

fn scaled_string(size: u64, den: u64, label: &'static str) -> (r: String)
    requires
        1024 <= den,
        1 <= unit_index(size as nat),
        den == pow1024(unit_index(size as nat)),
        label@ == unit_label(unit_index(size as nat)),
    ensures
        r@ == spec_format_size(size as nat),
{
    let num: u128 = (size as u128) * 10;
    let d: u128 = den as u128;
    let q: u128 = num / d;
    let rem: u128 = num % d;
    proof {
        assert(q * 1024 <= q * d) by (nonlinear_arith)
            requires
                q >= 0,
                1024 <= d,
        ;
        assert(q * d <= num) by (nonlinear_arith)
            requires
                d > 0,
                q == num / d,
                num >= 0,
        ;
        assert(q < 0x400000000000000);
    }
    let up: bool = 2 * rem > d || (2 * rem == d && q % 2 == 1);
    let n128: u128 = if up {
        q + 1
    } else {
        q
    };
    let n: u64 = n128 as u64;
    proof {
        assert(n == round_half_even(size as int * 10, den as int));
    }
    let mut r = decimal_string(n / 10);
    r.append(".");
    r.append(digit_str(n % 10));
    r.append(" ");
    r.append(label);
    proof {
        reveal_strlit(".");
        reveal_strlit(" ");
        let ghost k = unit_index(size as nat);
        let ghost nn = round_half_even(size as int * 10, pow1024(k) as int);
        assert(r@ =~= dec_digits((nn / 10) as nat) + seq![
            '.',
            digit_char((nn % 10) as nat),
            ' ',
        ] + unit_label(k));
    }
    r
}

/// Renders a byte count on the binary unit ladder, as
/// [`spec_format_size`] states: `"0 B"`, `"1023 B"`, `"1.0 KB"`,
/// `"2.0 MB"`, and so on, with `TB` as the ceiling unit.
pub fn format_size(size: u64) -> (r: String)
    ensures
        r@ == spec_format_size(size as nat),
{
    proof {
        lemma_pow1024_values();
    }
    if size < 1024 {
        let mut r = decimal_string(size);
        r.append(" B");
        proof {
            reveal_strlit(" B");
            assert(r@ =~= dec_digits(size as nat) + seq![' ', 'B']);
        }
        r
    } else if size < 1048576 {
        proof {
            reveal_strlit("KB");
            assert("KB"@ =~= unit_label(1));
        }
        scaled_string(size, 1024, "KB")
    } else if size < 1073741824 {
        proof {
            reveal_strlit("MB");
            assert("MB"@ =~= unit_label(2));
        }
        scaled_string(size, 1048576, "MB")
    } else if size < 1099511627776 {
        proof {
            reveal_strlit("GB");
            assert("GB"@ =~= unit_label(3));
        }
        scaled_string(size, 1073741824, "GB")
    } else {
        proof {
            reveal_strlit("TB");
            assert("TB"@ =~= unit_label(4));
        }
        scaled_string(size, 1099511627776, "TB")
    }
}

/// The indentation of a record at `depth`: two spaces per level beyond the
/// immediate children of the root.
pub open spec fn indent_spec(depth: int) -> Seq<char> {
    Seq::new(
        if depth <= 1 {
            0
        } else {
            (2 * (depth - 1)) as nat
        },
        |i: int| ' ',
    )
}

/// Renders the indentation of a record at `depth`, as [`indent_spec`]
/// states.
pub fn indent_for(depth: usize) -> (r: String)
    ensures
        r@ == indent_spec(depth as int),
{
    let mut r = String::new();
    let mut k: usize = 1;
    while k < depth
        invariant
            1 <= k,
            k <= depth || k == 1,
            r@ =~= Seq::new((2 * (k - 1)) as nat, |i: int| ' '),
        decreases depth - k,
    {
        r.append("  ");
        proof {
            reveal_strlit("  ");
            assert(r@ =~= Seq::new((2 * (k + 1 - 1)) as nat, |i: int| ' '));
        }
        k = k + 1;
    }
    proof {
        assert(r@ =~= indent_spec(depth as int));
    }
    r
}

/// `n` in decimal, padded with zeros on the left to at least two digits.
pub open spec fn padded2(n: nat) -> Seq<char> {
    if n < 10 {
        seq!['0'] + dec_digits(n)
    } else {
        dec_digits(n)
    }
}

/// `n` in decimal, padded with zeros on the left to at least four digits.
pub open spec fn padded4(n: nat) -> Seq<char> {
    if n < 10 {
        seq!['0', '0', '0'] + dec_digits(n)
    } else if n < 100 {
        seq!['0', '0'] + dec_digits(n)
    } else if n < 1000 {
        seq!['0'] + dec_digits(n)
    } else {
        dec_digits(n)
    }
}

/// The rendering of a timestamp: `YYYY-MM-DD HH:MM`, each field zero-padded.
pub open spec fn spec_format_timestamp(t: Timestamp) -> Seq<char> {
    padded4(t.year as nat) + seq!['-'] + padded2(t.month as nat) + seq!['-'] + padded2(
        t.day as nat,
    ) + seq![' '] + padded2(t.hour as nat) + seq![':'] + padded2(t.minute as nat)
}

fn padded2_string(n: u64) -> (r: String)
    ensures
        r@ == padded2(n as nat),
{
    let mut r = String::new();
    if n < 10 {
        r.append("0");
        proof {
            reveal_strlit("0");
        }
    }
    let digits = decimal_string(n);
    r.append(digits.as_str());
    proof {
        if n < 10 {
            assert(r@ =~= seq!['0'] + dec_digits(n as nat));
        } else {
            assert(r@ =~= dec_digits(n as nat));
        }
    }
    r
}

fn padded4_string(n: u64) -> (r: String)
    ensures
        r@ == padded4(n as nat),
{
    let mut r = String::new();
    if n < 10 {
        r.append("000");
        proof {
            reveal_strlit("000");
            assert("000"@ =~= seq!['0', '0', '0']);
        }
    } else if n < 100 {
        r.append("00");
        proof {
            reveal_strlit("00");
            assert("00"@ =~= seq!['0', '0']);
        }
    } else if n < 1000 {
        r.append("0");
        proof {
            reveal_strlit("0");
        }
    }
    let digits = decimal_string(n);
    r.append(digits.as_str());
    proof {
        if n < 10 {
            assert(r@ =~= seq!['0', '0', '0'] + dec_digits(n as nat));
        } else if n < 100 {
            assert(r@ =~= seq!['0', '0'] + dec_digits(n as nat));
        } else if n < 1000 {
            assert(r@ =~= seq!['0'] + dec_digits(n as nat));
        } else {
            assert(r@ =~= dec_digits(n as nat));
        }
    }
    r
}

/// Renders a timestamp as `YYYY-MM-DD HH:MM`, as
/// [`spec_format_timestamp`] states.
pub fn format_timestamp(t: &Timestamp) -> (r: String)
    ensures
        r@ == spec_format_timestamp(*t),
{
    let mut r = padded4_string(t.year as u64);
    r.append("-");
    let month = padded2_string(t.month as u64);
    r.append(month.as_str());
    r.append("-");
    let day = padded2_string(t.day as u64);
    r.append(day.as_str());
    r.append(" ");
    let hour = padded2_string(t.hour as u64);
    r.append(hour.as_str());
    r.append(":");
    let minute = padded2_string(t.minute as u64);
    r.append(minute.as_str());
    proof {
        reveal_strlit("-");
        reveal_strlit(" ");
        reveal_strlit(":");
        assert(r@ =~= spec_format_timestamp(*t));
    }
    r
}

} // verus!
