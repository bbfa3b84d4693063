//! Rendering of a room's time limit.
//!
//! A time limit arrives in minutes and is stored rendered as `HH:MM:SS`,
//! the shape the store's interval column is read back in: hours (at least
//! two digits, more when the value needs them), minutes and seconds, each
//! zero-padded, joined by colons. The seconds are always `00`.

use vstd::prelude::*;
use vstd::string::StringExecFns;

verus! {

/// The decimal digit character for `d`, meaningful for `d < 10`.
pub open spec fn dec_digit(d: nat) -> char {
    if d == 0 {
        '0'
    } else if d == 1 {
        '1'
    } else if d == 2 {
        '2'
    } else if d == 3 {
        '3'
    } else if d == 4 {
        '4'
    } else if d == 5 {
        '5'
    } else if d == 6 {
        '6'
    } else if d == 7 {
        '7'
    } else if d == 8 {
        '8'
    } else {
        '9'
    }
}

/// The decimal representation of `n`, most significant digit first, with no
/// leading zeros (a single `0` for zero itself).
pub open spec fn dec_rep(n: nat) -> Seq<char>
    decreases n,
{
    if n < 10 {
        seq![dec_digit(n)]
    } else {
        dec_rep(n / 10).push(dec_digit(n % 10))
    }
}

/// The decimal representation of `n`, zero-padded to at least two digits.
pub open spec fn dec_rep2(n: nat) -> Seq<char> {
    if n < 10 {
        seq!['0'] + dec_rep(n)
    } else {
        dec_rep(n)
    }
}

/// `minutes` rendered as `HH:MM:SS`: whole hours, leftover minutes, and a
/// zero seconds field.
pub open spec fn time_limit_display(minutes: nat) -> Seq<char> {
    dec_rep2(minutes / 60) + seq![':'] + dec_rep2(minutes % 60) + seq![':', '0', '0']
}

/// The one-character string for the decimal digit `d`.
fn digit_str(d: u64) -> (s: &'static str)
    requires
        d < 10,
    ensures
        s@ == seq![dec_digit(d as nat)],
{
    proof {
        reveal_strlit("0");
        reveal_strlit("1");
        reveal_strlit("2");
        reveal_strlit("3");
        reveal_strlit("4");
        reveal_strlit("5");
        reveal_strlit("6");
        reveal_strlit("7");
        reveal_strlit("8");
        reveal_strlit("9");
    }
    let s: &'static str = if d == 0 {
        "0"
    } else if d == 1 {
        "1"
    } else if d == 2 {
        "2"
    } else if d == 3 {
        "3"
    } else if d == 4 {
        "4"
    } else if d == 5 {
        "5"
    } else if d == 6 {
        "6"
    } else if d == 7 {
        "7"
    } else if d == 8 {
        "8"
    } else {
        "9"
    };
    proof {
        assert(s@ =~= seq![dec_digit(d as nat)]);
    }
    s
}

/// Appends the decimal representation of `n` to `out`.
fn push_dec(n: u64, out: &mut String)
    ensures
        final(out)@ == old(out)@ + dec_rep(n as nat),
    decreases n,
{
    if n >= 10 {
        push_dec(n / 10, out);
    }
    out.append(digit_str(n % 10));
    proof {
        assert(out@ =~= old(out)@ + dec_rep(n as nat));
    }
}

/// Appends the decimal representation of `n`, zero-padded to at least two
/// digits, to `out`.
fn push_dec2(n: u64, out: &mut String)
    ensures
        final(out)@ == old(out)@ + dec_rep2(n as nat),
{
    if n < 10 {
        proof {
            reveal_strlit("0");
        }
        out.append("0");
    }
    push_dec(n, out);
    proof {
        assert(out@ =~= old(out)@ + dec_rep2(n as nat));
    }
}

/// Renders a time limit given in minutes as its stored `HH:MM:SS` form.
pub fn format_time_limit(minutes: u64) -> (s: String)
    ensures
        s@ == time_limit_display(minutes as nat),
{
    proof {
        reveal_strlit(":");
        reveal_strlit(":00");
    }
    let mut out = String::new();
    push_dec2(minutes / 60, &mut out);
    out.append(":");
    push_dec2(minutes % 60, &mut out);
    out.append(":00");
    proof {
        assert(out@ =~= time_limit_display(minutes as nat));
    }
    out
}

} // verus!
