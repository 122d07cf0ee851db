//! Verified text helpers: decimal rendering of machine integers and
//! fixed-width padding, as the diagnostics and the disassembler need them.

use vstd::prelude::*;
use vstd::string::*;

verus! {

/// The decimal digit character for `d` (`d < 10`).
pub open spec fn digit_char(d: nat) -> char {
    if d == 0 {
        '0'
    } else if d == 1 {
        '1'
    } else if d == 2 {
        '2'
    } else if d == 3 {
        '3'
    } else if d == 4 {
        '4'
    } else if d == 5 {
        '5'
    } else if d == 6 {
        '6'
    } else if d == 7 {
        '7'
    } else if d == 8 {
        '8'
    } else {
        '9'
    }
}

/// The decimal rendering of `n`, most significant digit first, with no
/// leading zeroes (a single `'0'` for zero).
pub open spec fn dec_digits(n: nat) -> Seq<char>
    decreases n,
{
    if n < 10 {
        seq![digit_char(n)]
    } else {
        dec_digits(n / 10).push(digit_char(n % 10))
    }
}

/// `s` filled on the left with `c` up to width `w`; unchanged when already
/// that wide.
pub open spec fn pad_left(s: Seq<char>, c: char, w: nat) -> Seq<char> {
    if s.len() >= w {
        s
    } else {
        Seq::new((w - s.len()) as nat, |i: int| c) + s
    }
}

/// `s` filled on the right with `c` up to width `w`.
pub open spec fn pad_right(s: Seq<char>, c: char, w: nat) -> Seq<char> {
    if s.len() >= w {
        s
    } else {
        s + Seq::new((w - s.len()) as nat, |i: int| c)
    }
}

/// The one-character string for the digit `d`.
fn digit_str(d: usize) -> (r: &'static str)
    requires
        d < 10,
    ensures
        r@ == seq![digit_char(d as nat)],
{
    proof {
        reveal_strlit("0");
        reveal_strlit("1");
        reveal_strlit("2");
        reveal_strlit("3");
        reveal_strlit("4");
        reveal_strlit("5");
        reveal_strlit("6");
        reveal_strlit("7");
        reveal_strlit("8");
        reveal_strlit("9");
    }
    let r: &'static str = match d {
        0 => "0",
        1 => "1",
        2 => "2",
        3 => "3",
        4 => "4",
        5 => "5",
        6 => "6",
        7 => "7",
        8 => "8",
        _ => "9",
    };
    proof {
        assert(r@ =~= seq![digit_char(d as nat)]);
    }
    r
}

/// Appends the decimal rendering of `n` to `out`.
pub fn append_usize(out: &mut String, n: usize)
    ensures
        final(out)@ == old(out)@ + dec_digits(n as nat),
    decreases n,
{
    if n < 10 {
        out.append(digit_str(n));
    } else {
        append_usize(out, n / 10);
        out.append(digit_str(n % 10));
        proof {
            assert(out@ =~= old(out)@ + dec_digits(n as nat));
        }
    }
}

/// The decimal rendering of `n` as a fresh string.
pub fn render_usize(n: usize) -> (r: String)
    ensures
        r@ == dec_digits(n as nat),
{
    let mut out = String::new();
    append_usize(&mut out, n);
    proof {
        assert(out@ =~= dec_digits(n as nat));
    }
    out
}

/// Appends `n` to `out`, filled on the left with `fill` to width `width`.
pub fn append_usize_padded(out: &mut String, n: usize, fill: char, width: usize)
    requires
        fill == '0' || fill == ' ',
    ensures
        final(out)@ == old(out)@ + pad_left(dec_digits(n as nat), fill, width as nat),
{
    let digits = render_usize(n);
    let len = digits.as_str().unicode_len();
    let mut k: usize = len;
    while k < width
        invariant
            len == dec_digits(n as nat).len(),
            len <= k,
            k <= width || k == len,
            fill == '0' || fill == ' ',
            digits@ == dec_digits(n as nat),
            out@ == old(out)@ + Seq::new((k - len) as nat, |i: int| fill),
        decreases width - k,
    {
        if fill == '0' {
            proof {
                reveal_strlit("0");
            }
            out.append("0");
        } else {
            proof {
                reveal_strlit(" ");
            }
            out.append(" ");
        }
        k = k + 1;
        proof {
            assert(out@ =~= old(out)@ + Seq::new((k - len) as nat, |i: int| fill));
        }
    }
    out.append(digits.as_str());
    proof {
        assert(out@ =~= old(out)@ + pad_left(dec_digits(n as nat), fill, width as nat));
    }
}

/// Appends `s` to `out`, filled on the right with spaces to width `width`.
pub fn append_str_padded(out: &mut String, s: &str, width: usize)
    ensures
        final(out)@ == old(out)@ + pad_right(s@, ' ', width as nat),
{
    out.append(s);
    let len = s.unicode_len();
    let mut k: usize = len;
    while k < width
        invariant
            len == s@.len(),
            len <= k,
            k <= width || k == len,
            out@ == old(out)@ + s@ + Seq::new((k - len) as nat, |i: int| ' '),
        decreases width - k,
    {
        proof {
            reveal_strlit(" ");
        }
        out.append(" ");
        k = k + 1;
        proof {
            assert(out@ =~= old(out)@ + s@ + Seq::new((k - len) as nat, |i: int| ' '));
        }
    }
    proof {
        assert(out@ =~= old(out)@ + pad_right(s@, ' ', width as nat));
    }
}

} // verus!
