use vstd::prelude::*;
use crate::naming::{decimal, decimal_string};

verus! {

/// `s` with zeros in front, up to `width` characters.
pub open spec fn zero_pad(s: Seq<char>, width: nat) -> Seq<char> {
    if s.len() >= width {
        s
    } else {
        Seq::new((width - s.len()) as nat, |i: int| '0') + s
    }
}

/// A year as in `%Y`: at least four digits, with a sign outside 0 to 9999.
pub open spec fn year_text(year: int) -> Seq<char> {
    if 0 <= year <= 9999 {
        zero_pad(decimal(year as nat), 4)
    } else if year < 0 {
        seq!['-'] + zero_pad(decimal((-year) as nat), 4)
    } else {
        seq!['+'] + zero_pad(decimal(year as nat), 4)
    }
}

/// The month bucket `YYYY-MM` for a year and a month.
pub open spec fn bucket_text(year: int, month: nat) -> Seq<char> {
    year_text(year) + seq!['-'] + zero_pad(decimal(month), 2)
}

/// `n` in decimal, with zeros in front up to `width` characters.
pub fn zero_padded(n: u64, width: usize) -> (r: String)
    ensures
        r@ == zero_pad(decimal(n as nat), width as nat),
{
    let digits = decimal_string(n);
    let len = digits.unicode_len();
    let mut out = String::new();
    if len < width {
        proof {
            reveal_strlit("0");
        }
        let mut k: usize = 0;
        while k < width - len
            invariant
                len < width,
                k <= width - len,
                out@ =~= Seq::new(k as nat, |i: int| '0'),
            decreases width - len - k,
        {
            proof {
                reveal_strlit("0");
            }
            out.append("0");
            k += 1;
        }
    }
    out.append(digits.as_str());
    assert(out@ =~= zero_pad(decimal(n as nat), width as nat));
    out
}

/// The month bucket for `year` and `month`: the year as in `%Y`, a dash,
/// and the month in two digits.
pub fn month_bucket(year: i32, month: u32) -> (r: String)
    ensures
        r@ == bucket_text(year as int, month as nat),
{
    proof {
        reveal_strlit("-");
        reveal_strlit("+");
    }
    let mut s = if 0 <= year && year <= 9999 {
        zero_padded(year as u64, 4)
    } else if year < 0 {
        let mut t = String::from_str("-");
        let magnitude: i64 = -(year as i64);
        t.append(zero_padded(magnitude as u64, 4).as_str());
        t
    } else {
        let mut t = String::from_str("+");
        t.append(zero_padded(year as u64, 4).as_str());
        t
    };
    assert(s@ =~= year_text(year as int));
    s.append("-");
    s.append(zero_padded(month as u64, 2).as_str());
    assert(s@ =~= bucket_text(year as int, month as nat));
    s
}

} // verus!
