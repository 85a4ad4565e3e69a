use vstd::prelude::*;
use vstd::string::*;

verus! {

/// The decimal digit `d` as a character, for `d < 10`.
pub open spec fn digit_char(d: int) -> char {
    if d == 0 {
        '0'
    } else if d == 1 {
        '1'
    } else if d == 2 {
        '2'
    } else if d == 3 {
        '3'
    } else if d == 4 {
        '4'
    } else if d == 5 {
        '5'
    } else if d == 6 {
        '6'
    } else if d == 7 {
        '7'
    } else if d == 8 {
        '8'
    } else {
        '9'
    }
}

/// The decimal digits of `n`, most significant first, no sign and no
/// leading zeros (a single `0` for zero).
pub open spec fn dec_digits(n: int) -> Seq<char>
    decreases n,
{
    if n < 10 {
        seq![digit_char(n)]
    } else {
        dec_digits(n / 10) + seq![digit_char(n % 10)]
    }
}

/// The decimal form of a signed number: a `-` before the digits when
/// negative.
pub open spec fn dec_signed(n: int) -> Seq<char> {
    if n < 0 {
        "-"@ + dec_digits(-n)
    } else {
        dec_digits(n)
    }
}

fn digit_str(d: u64) -> (r: &'static str)
    requires
        d < 10,
    ensures
        r@ == seq![digit_char(d as int)],
{
    proof {
        reveal_strlit("0");
        reveal_strlit("1");
        reveal_strlit("2");
        reveal_strlit("3");
        reveal_strlit("4");
        reveal_strlit("5");
        reveal_strlit("6");
        reveal_strlit("7");
        reveal_strlit("8");
        reveal_strlit("9");
    }
    let r = match d {
        0 => "0",
        1 => "1",
        2 => "2",
        3 => "3",
        4 => "4",
        5 => "5",
        6 => "6",
        7 => "7",
        8 => "8",
        _ => "9",
    };
    proof {
        assert(r@ =~= seq![digit_char(d as int)]);
    }
    r
}

/// Format an unsigned number in decimal.
pub fn fmt_u64(x: u64) -> (r: String)
    ensures
        r@ == dec_digits(x as int),
    decreases x,
{
    if x < 10 {
        let mut out = String::new();
        out.append(digit_str(x));
        proof {
            assert(out@ =~= seq![digit_char(x as int)]);
        }
        out
    } else {
        let mut out = fmt_u64(x / 10);
        out.append(digit_str(x % 10));
        out
    }
}

/// Format a signed byte in decimal.
pub fn fmt_i8(x: i8) -> (r: String)
    ensures
        r@ == dec_signed(x as int),
{
    if x < 0 {
        let mag: u64 = (-(x as i64)) as u64;
        let mut out = String::from_str("-");
        let digits = fmt_u64(mag);
        out.append(digits.as_str());
        out
    } else {
        fmt_u64(x as u64)
    }
}

/// Strict lexicographic order on character sequences, by scalar value; the
/// order `String` comparison and sorting follow.
pub open spec fn str_lt(a: Seq<char>, b: Seq<char>) -> bool
    decreases a.len(),
{
    if b.len() == 0 {
        false
    } else if a.len() == 0 {
        true
    } else if (a[0] as u32) < (b[0] as u32) {
        true
    } else if a[0] == b[0] {
        str_lt(a.subrange(1, a.len() as int), b.subrange(1, b.len() as int))
    } else {
        false
    }
}

pub open spec fn str_le(a: Seq<char>, b: Seq<char>) -> bool {
    str_lt(a, b) || a == b
}

} // verus!
