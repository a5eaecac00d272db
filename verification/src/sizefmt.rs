use vstd::prelude::*;
use vstd::string::StringExecFns;

verus! {

pub const KB: u64 = 1024;

pub const MB: u64 = 1024 * 1024;

pub const GB: u64 = 1024 * 1024 * 1024;

/// The character for one decimal digit.
pub open spec fn digit_char(d: nat) -> char {
    if d == 0 {
        '0'
    } else if d == 1 {
        '1'
    } else if d == 2 {
        '2'
    } else if d == 3 {
        '3'
    } else if d == 4 {
        '4'
    } else if d == 5 {
        '5'
    } else if d == 6 {
        '6'
    } else if d == 7 {
        '7'
    } else if d == 8 {
        '8'
    } else {
        '9'
    }
}

/// The usual decimal rendering of a number, without sign or padding.
pub open spec fn dec_str(n: nat) -> Seq<char>
    decreases n,
{
    if n < 10 {
        seq![digit_char(n)]
    } else {
        dec_str(n / 10) + seq![digit_char(n % 10)]
    }
}

/// `n / div` scaled to tenths and rounded to the nearest tenth
/// (halves round up).
pub open spec fn tenths_of(n: nat, div: nat) -> nat {
    (n * 10 + div / 2) / div
}

/// `n / div` rendered with exactly one fractional digit.
pub open spec fn scaled_str(n: nat, div: nat) -> Seq<char> {
    let t = tenths_of(n, div);
    dec_str(t / 10) + seq!['.'] + seq![digit_char(t % 10)]
}

/// The human-readable form of a byte count: the largest unit among
/// B, KB, MB, GB (powers of 1024) in which the value is at least 1;
/// bytes print whole, the other units with one fractional digit.
pub open spec fn size_str(n: u64) -> Seq<char> {
    if n < KB {
        dec_str(n as nat) + seq![' ', 'B']
    } else if n < MB {
        scaled_str(n as nat, KB as nat) + seq![' ', 'K', 'B']
    } else if n < GB {
        scaled_str(n as nat, MB as nat) + seq![' ', 'M', 'B']
    } else {
        scaled_str(n as nat, GB as nat) + seq![' ', 'G', 'B']
    }
}

/// Appends the character for the decimal digit `d`.
pub fn push_digit(s: &mut String, d: u64)
    requires
        d < 10,
    ensures
        final(s)@ == old(s)@ + seq![digit_char(d as nat)],
{
    if d == 0 {
        proof {
            reveal_strlit("0");
            assert("0"@ =~= seq![digit_char(0)]);
        }
        s.append("0");
    } else if d == 1 {
        proof {
            reveal_strlit("1");
            assert("1"@ =~= seq![digit_char(1)]);
        }
        s.append("1");
    } else if d == 2 {
        proof {
            reveal_strlit("2");
            assert("2"@ =~= seq![digit_char(2)]);
        }
        s.append("2");
    } else if d == 3 {
        proof {
            reveal_strlit("3");
            assert("3"@ =~= seq![digit_char(3)]);
        }
        s.append("3");
    } else if d == 4 {
        proof {
            reveal_strlit("4");
            assert("4"@ =~= seq![digit_char(4)]);
        }
        s.append("4");
    } else if d == 5 {
        proof {
            reveal_strlit("5");
            assert("5"@ =~= seq![digit_char(5)]);
        }
        s.append("5");
    } else if d == 6 {
        proof {
            reveal_strlit("6");
            assert("6"@ =~= seq![digit_char(6)]);
        }
        s.append("6");
    } else if d == 7 {
        proof {
            reveal_strlit("7");
            assert("7"@ =~= seq![digit_char(7)]);
        }
        s.append("7");
    } else if d == 8 {
        proof {
            reveal_strlit("8");
            assert("8"@ =~= seq![digit_char(8)]);
        }
        s.append("8");
    } else {
        proof {
            reveal_strlit("9");
            assert("9"@ =~= seq![digit_char(9)]);
        }
        s.append("9");
    }
}

/// Renders a number in decimal.
pub fn u64_to_dec(n: u64) -> (s: String)
    ensures
        s@ == dec_str(n as nat),
    decreases n,
{
    if n < 10 {
        let mut s = String::new();
        push_digit(&mut s, n);
        proof {
            assert(s@ =~= dec_str(n as nat));
        }
        s
    } else {
        let mut s = u64_to_dec(n / 10);
        push_digit(&mut s, n % 10);
        s
    }
}

/// Renders `n / div` with one fractional digit, rounding to the
/// nearest tenth.
fn scaled_to_string(n: u64, div: u64) -> (s: String)
    requires
        KB <= div,
    ensures
        s@ == scaled_str(n as nat, div as nat),
{
    let t128: u128 = ((n as u128) * 10 + (div as u128) / 2) / (div as u128);
    proof {
        let x = (n as int) * 10 + (div as int) / 2;
        vstd::arithmetic::div_mod::lemma_div_is_ordered_by_denominator(x, KB as int, div as int);
        vstd::arithmetic::div_mod::lemma_div_is_ordered(x, u64::MAX as int * 10 + div as int, KB as int);
        assert(t128 <= u64::MAX);
    }
    let t: u64 = t128 as u64;
    let mut s = u64_to_dec(t / 10);
    proof {
        reveal_strlit(".");
        assert("."@ =~= seq!['.']);
    }
    s.append(".");
    push_digit(&mut s, t % 10);
    s
}

/// Formats a byte count in the largest fitting unit among B, KB, MB
/// and GB.
pub fn format_size(size: u64) -> (s: String)
    ensures
        s@ == size_str(size),
{
    if size < KB {
        let mut s = u64_to_dec(size);
        proof {
            reveal_strlit(" B");
            assert(" B"@ =~= seq![' ', 'B']);
        }
        s.append(" B");
        s
    } else if size < MB {
        let mut s = scaled_to_string(size, KB);
        proof {
            reveal_strlit(" KB");
            assert(" KB"@ =~= seq![' ', 'K', 'B']);
        }
        s.append(" KB");
        s
    } else if size < GB {
        let mut s = scaled_to_string(size, MB);
        proof {
            reveal_strlit(" MB");
            assert(" MB"@ =~= seq![' ', 'M', 'B']);
        }
        s.append(" MB");
        s
    } else {
        let mut s = scaled_to_string(size, GB);
        proof {
            reveal_strlit(" GB");
            assert(" GB"@ =~= seq![' ', 'G', 'B']);
        }
        s.append(" GB");
        s
    }
}

} // verus!
