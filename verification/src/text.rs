//! Verified construction of the decimal strings the pipeline needs:
//! identifiers inside URLs and file names, and the zero-padded fields of a
//! calendar-date string.

use vstd::prelude::*;

verus! {

/// The character for one decimal digit.
pub open spec fn digit_char(d: int) -> char {
    if d == 0 {
        '0'
    } else if d == 1 {
        '1'
    } else if d == 2 {
        '2'
    } else if d == 3 {
        '3'
    } else if d == 4 {
        '4'
    } else if d == 5 {
        '5'
    } else if d == 6 {
        '6'
    } else if d == 7 {
        '7'
    } else if d == 8 {
        '8'
    } else {
        '9'
    }
}

/// The decimal representation of `n`, without leading zeros
/// (a single `'0'` for zero itself).
pub open spec fn dec_rep(n: nat) -> Seq<char>
    decreases n,
{
    if n < 10 {
        seq![digit_char(n as int)]
    } else {
        dec_rep(n / 10) + seq![digit_char((n % 10) as int)]
    }
}

/// Two decimal digits, zero-padded: the form of months and days in a date string.
pub open spec fn dec_pad2(n: int) -> Seq<char> {
    seq![digit_char(n / 10), digit_char(n % 10)]
}

/// Four decimal digits, zero-padded: the form of years in a date string.
pub open spec fn dec_pad4(n: int) -> Seq<char> {
    seq![digit_char(n / 1000), digit_char((n / 100) % 10), digit_char((n / 10) % 10), digit_char(
        n % 10,
    )]
}

/// Append the character for a single digit to `s`.
fn append_digit(s: &mut String, d: u64)
    requires
        d < 10,
    ensures
        final(s)@ == old(s)@ + seq![digit_char(d as int)],
{
    proof {
        reveal_strlit("0");
        reveal_strlit("1");
        reveal_strlit("2");
        reveal_strlit("3");
        reveal_strlit("4");
        reveal_strlit("5");
        reveal_strlit("6");
        reveal_strlit("7");
        reveal_strlit("8");
        reveal_strlit("9");
    }
    if d == 0 {
        s.append("0");
        proof {
            assert(final(s)@ =~= old(s)@ + seq![digit_char(d as int)]);
        }
    } else if d == 1 {
        s.append("1");
        proof {
            assert(final(s)@ =~= old(s)@ + seq![digit_char(d as int)]);
        }
    } else if d == 2 {
        s.append("2");
        proof {
            assert(final(s)@ =~= old(s)@ + seq![digit_char(d as int)]);
        }
    } else if d == 3 {
        s.append("3");
        proof {
            assert(final(s)@ =~= old(s)@ + seq![digit_char(d as int)]);
        }
    } else if d == 4 {
        s.append("4");
        proof {
            assert(final(s)@ =~= old(s)@ + seq![digit_char(d as int)]);
        }
    } else if d == 5 {
        s.append("5");
        proof {
            assert(final(s)@ =~= old(s)@ + seq![digit_char(d as int)]);
        }
    } else if d == 6 {
        s.append("6");
        proof {
            assert(final(s)@ =~= old(s)@ + seq![digit_char(d as int)]);
        }
    } else if d == 7 {
        s.append("7");
        proof {
            assert(final(s)@ =~= old(s)@ + seq![digit_char(d as int)]);
        }
    } else if d == 8 {
        s.append("8");
        proof {
            assert(final(s)@ =~= old(s)@ + seq![digit_char(d as int)]);
        }
    } else {
        s.append("9");
        proof {
            assert(final(s)@ =~= old(s)@ + seq![digit_char(d as int)]);
        }
    }
}

/// Append the decimal representation of `n` to `s`.
pub fn append_u64(s: &mut String, n: u64)
    ensures
        final(s)@ == old(s)@ + dec_rep(n as nat),
    decreases n,
{
    if n < 10 {
        append_digit(s, n);
    } else {
        append_u64(s, n / 10);
        append_digit(s, n % 10);
        proof {
            assert(final(s)@ =~= old(s)@ + dec_rep(n as nat));
        }
    }
}

/// The decimal representation of `n` as a fresh string.
pub fn u64_to_string(n: u64) -> (r: String)
    ensures
        r@ == dec_rep(n as nat),
{
    let mut s = String::new();
    append_u64(&mut s, n);
    proof {
        assert(s@ =~= dec_rep(n as nat));
    }
    s
}

/// The decimal representation of a signed number: a minus sign before the
/// digits when it is negative.
pub open spec fn dec_rep_signed(n: int) -> Seq<char> {
    if n < 0 {
        seq!['-'] + dec_rep((-n) as nat)
    } else {
        dec_rep(n as nat)
    }
}

/// Append the decimal representation of `n`, sign included, to `s`.
pub fn append_i32(s: &mut String, n: i32)
    ensures
        final(s)@ == old(s)@ + dec_rep_signed(n as int),
{
    if n < 0 {
        proof {
            reveal_strlit("-");
        }
        s.append("-");
        let mag: u64 = (-(n as i64)) as u64;
        append_u64(s, mag);
        proof {
            assert(final(s)@ =~= old(s)@ + dec_rep_signed(n as int));
        }
    } else {
        append_u64(s, n as u64);
    }
}

/// The decimal representation of `n`, sign included, as a fresh string.
pub fn i32_to_string(n: i32) -> (r: String)
    ensures
        r@ == dec_rep_signed(n as int),
{
    let mut s = String::new();
    append_i32(&mut s, n);
    proof {
        assert(s@ =~= dec_rep_signed(n as int));
    }
    s
}

/// Append `n` as exactly two zero-padded decimal digits.
pub fn append_pad2(s: &mut String, n: u64)
    requires
        n < 100,
    ensures
        final(s)@ == old(s)@ + dec_pad2(n as int),
{
    append_digit(s, n / 10);
    append_digit(s, n % 10);
    proof {
        assert(final(s)@ =~= old(s)@ + dec_pad2(n as int));
    }
}

/// Append `n` as exactly four zero-padded decimal digits.
pub fn append_pad4(s: &mut String, n: u64)
    requires
        n < 10000,
    ensures
        final(s)@ == old(s)@ + dec_pad4(n as int),
{
    append_digit(s, n / 1000);
    append_digit(s, (n / 100) % 10);
    append_digit(s, (n / 10) % 10);
    append_digit(s, n % 10);
    proof {
        assert(final(s)@ =~= old(s)@ + dec_pad4(n as int));
    }
}

} // verus!
