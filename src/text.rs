//! Building text: decimal numbers and dotted-quad addresses.
use vstd::prelude::*;

verus! {

/// The ten decimal digits.
pub open spec fn digit_chars() -> Seq<char> {
    seq!['0', '1', '2', '3', '4', '5', '6', '7', '8', '9']
}

/// The decimal digits of `n`, without leading zeros.
pub open spec fn decimal(n: nat) -> Seq<char>
    decreases n,
{
    if n < 10 {
        seq![digit_chars()[n as int]]
    } else {
        decimal(n / 10) + seq![digit_chars()[(n % 10) as int]]
    }
}

/// The text of one decimal digit.
fn digit_str(d: u32) -> (r: &'static str)
    requires
        d < 10,
    ensures
        r@ == seq![digit_chars()[d as int]],
{
    match d {
        0 => {
            proof {
                reveal_strlit("0");
            }
            "0"
        },
        1 => {
            proof {
                reveal_strlit("1");
            }
            "1"
        },
        2 => {
            proof {
                reveal_strlit("2");
            }
            "2"
        },
        3 => {
            proof {
                reveal_strlit("3");
            }
            "3"
        },
        4 => {
            proof {
                reveal_strlit("4");
            }
            "4"
        },
        5 => {
            proof {
                reveal_strlit("5");
            }
            "5"
        },
        6 => {
            proof {
                reveal_strlit("6");
            }
            "6"
        },
        7 => {
            proof {
                reveal_strlit("7");
            }
            "7"
        },
        8 => {
            proof {
                reveal_strlit("8");
            }
            "8"
        },
        _ => {
            proof {
                reveal_strlit("9");
            }
            "9"
        },
    }
}

/// Appends the decimal digits of `n` to `s`.
pub fn push_decimal(s: &mut String, n: u32)
    ensures
        final(s)@ == old(s)@ + decimal(n as nat),
    decreases n,
{
    if n >= 10 {
        push_decimal(s, n / 10);
    }
    s.append(digit_str(n % 10));
    assert(final(s)@ =~= old(s)@ + decimal(n as nat));
}

/// The decimal text of `n`.
pub fn decimal_string(n: u32) -> (r: String)
    ensures
        r@ == decimal(n as nat),
{
    let mut s = String::new();
    push_decimal(&mut s, n);
    assert(s@ =~= decimal(n as nat));
    s
}

/// The dotted-quad text of the address numbered `ip`.
pub open spec fn dotted(ip: u32) -> Seq<char> {
    decimal((ip as nat / 0x1000000) % 0x100) + "."@ + decimal((ip as nat / 0x10000) % 0x100) + "."@
        + decimal((ip as nat / 0x100) % 0x100) + "."@ + decimal(ip as nat % 0x100)
}

/// Appends the dotted-quad text of `ip` to `s`.
pub fn push_dotted(s: &mut String, ip: u32)
    ensures
        final(s)@ == old(s)@ + dotted(ip),
{
    push_decimal(s, (ip / 0x1000000) % 0x100);
    s.append(".");
    push_decimal(s, (ip / 0x10000) % 0x100);
    s.append(".");
    push_decimal(s, (ip / 0x100) % 0x100);
    s.append(".");
    push_decimal(s, ip % 0x100);
    assert(final(s)@ =~= old(s)@ + dotted(ip));
}

/// The dotted-quad text of the address numbered `ip`.
pub fn format_ipv4(ip: u32) -> (r: String)
    ensures
        r@ == dotted(ip),
{
    let mut s = String::new();
    push_dotted(&mut s, ip);
    assert(s@ =~= dotted(ip));
    s
}

} // verus!
