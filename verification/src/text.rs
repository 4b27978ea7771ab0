//! Decimal and hexadecimal digits as text.
use vstd::prelude::*;

verus! {

/// The digit for `d` below sixteen; letters are upper case when `upper`.
pub open spec fn digit_char(d: nat, upper: bool) -> char {
    if d == 0 {
        '0'
    } else if d == 1 {
        '1'
    } else if d == 2 {
        '2'
    } else if d == 3 {
        '3'
    } else if d == 4 {
        '4'
    } else if d == 5 {
        '5'
    } else if d == 6 {
        '6'
    } else if d == 7 {
        '7'
    } else if d == 8 {
        '8'
    } else if d == 9 {
        '9'
    } else if d == 10 {
        if upper { 'A' } else { 'a' }
    } else if d == 11 {
        if upper { 'B' } else { 'b' }
    } else if d == 12 {
        if upper { 'C' } else { 'c' }
    } else if d == 13 {
        if upper { 'D' } else { 'd' }
    } else if d == 14 {
        if upper { 'E' } else { 'e' }
    } else {
        if upper { 'F' } else { 'f' }
    }
}

/// The decimal digits of `n`, most significant first.
pub open spec fn decimal(n: nat) -> Seq<char>
    decreases n,
{
    if n < 10 {
        seq![digit_char(n, true)]
    } else {
        decimal(n / 10).push(digit_char(n % 10, true))
    }
}

/// The hexadecimal digits of `n`, most significant first, with no leading zeros.
pub open spec fn hex_digits(n: nat, upper: bool) -> Seq<char>
    decreases n,
{
    if n < 16 {
        seq![digit_char(n, upper)]
    } else {
        hex_digits(n / 16, upper).push(digit_char(n % 16, upper))
    }
}

/// The upper-case hexadecimal digits of `n`.
pub open spec fn hex(n: nat) -> Seq<char> {
    hex_digits(n, true)
}

/// The lower-case hexadecimal digits of `n`.
pub open spec fn hex_lower(n: nat) -> Seq<char> {
    hex_digits(n, false)
}

/// The last `k` hexadecimal digits of `n`, zeros in front where `n` has
/// fewer; letters are upper case when `upper`.
pub open spec fn hex_fixed(n: nat, k: nat, upper: bool) -> Seq<char>
    decreases k,
{
    if k == 0 {
        Seq::empty()
    } else {
        hex_fixed(n / 16, (k - 1) as nat, upper).push(digit_char(n % 16, upper))
    }
}

/// Appends the digit for `d`.
fn push_digit(s: &mut String, d: u64, upper: bool)
    requires
        d < 16,
    ensures
        final(s)@ == old(s)@.push(digit_char(d as nat, upper)),
{
    let lit = if d == 0 {
        proof {
            reveal_strlit("0");
        }
        "0"
    } else if d == 1 {
        proof {
            reveal_strlit("1");
        }
        "1"
    } else if d == 2 {
        proof {
            reveal_strlit("2");
        }
        "2"
    } else if d == 3 {
        proof {
            reveal_strlit("3");
        }
        "3"
    } else if d == 4 {
        proof {
            reveal_strlit("4");
        }
        "4"
    } else if d == 5 {
        proof {
            reveal_strlit("5");
        }
        "5"
    } else if d == 6 {
        proof {
            reveal_strlit("6");
        }
        "6"
    } else if d == 7 {
        proof {
            reveal_strlit("7");
        }
        "7"
    } else if d == 8 {
        proof {
            reveal_strlit("8");
        }
        "8"
    } else if d == 9 {
        proof {
            reveal_strlit("9");
        }
        "9"
    } else if d == 10 {
        if upper {
            proof {
                reveal_strlit("A");
            }
            "A"
        } else {
            proof {
                reveal_strlit("a");
            }
            "a"
        }
    } else if d == 11 {
        if upper {
            proof {
                reveal_strlit("B");
            }
            "B"
        } else {
            proof {
                reveal_strlit("b");
            }
            "b"
        }
    } else if d == 12 {
        if upper {
            proof {
                reveal_strlit("C");
            }
            "C"
        } else {
            proof {
                reveal_strlit("c");
            }
            "c"
        }
    } else if d == 13 {
        if upper {
            proof {
                reveal_strlit("D");
            }
            "D"
        } else {
            proof {
                reveal_strlit("d");
            }
            "d"
        }
    } else if d == 14 {
        if upper {
            proof {
                reveal_strlit("E");
            }
            "E"
        } else {
            proof {
                reveal_strlit("e");
            }
            "e"
        }
    } else {
        if upper {
            proof {
                reveal_strlit("F");
            }
            "F"
        } else {
            proof {
                reveal_strlit("f");
            }
            "f"
        }
    };
    assert(lit@ == seq![digit_char(d as nat, upper)]);
    s.append(lit);
}

/// Appends the decimal digits of `n`.
pub fn push_decimal(s: &mut String, n: u64)
    ensures
        final(s)@ == old(s)@ + decimal(n as nat),
    decreases n,
{
    if n >= 10 {
        push_decimal(s, n / 10);
    }
    push_digit(s, n % 10, true);
    assert(final(s)@ =~= old(s)@ + decimal(n as nat)) by {
        if n < 10 {
            assert(n % 10 == n);
        }
    }
}

/// Appends the hexadecimal digits of `n`, upper case when `upper`.
pub fn push_hex_digits(s: &mut String, n: u64, upper: bool)
    ensures
        final(s)@ == old(s)@ + hex_digits(n as nat, upper),
    decreases n,
{
    if n >= 16 {
        push_hex_digits(s, n / 16, upper);
    }
    push_digit(s, n % 16, upper);
    assert(final(s)@ =~= old(s)@ + hex_digits(n as nat, upper)) by {
        if n < 16 {
            assert(n % 16 == n);
        }
    }
}

/// Appends the upper-case hexadecimal digits of `n`.
pub fn push_hex(s: &mut String, n: u64)
    ensures
        final(s)@ == old(s)@ + hex(n as nat),
{
    push_hex_digits(s, n, true);
}

/// Appends the lower-case hexadecimal digits of `n`.
pub fn push_hex_lower(s: &mut String, n: u64)
    ensures
        final(s)@ == old(s)@ + hex_lower(n as nat),
{
    push_hex_digits(s, n, false);
}

/// Appends the last `k` hexadecimal digits of `n`, upper case when `upper`.
pub fn push_hex_fixed(s: &mut String, n: u64, k: u64, upper: bool)
    ensures
        final(s)@ == old(s)@ + hex_fixed(n as nat, k as nat, upper),
    decreases k,
{
    if k > 0 {
        push_hex_fixed(s, n / 16, k - 1, upper);
        push_digit(s, n % 16, upper);
        assert(final(s)@ =~= old(s)@ + hex_fixed(n as nat, k as nat, upper));
    } else {
        assert(final(s)@ =~= old(s)@ + hex_fixed(n as nat, k as nat, upper));
    }
}

} // verus!
