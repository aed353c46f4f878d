use vstd::prelude::*;
use vstd::string::StringExecFns;

verus! {

/// A half-year milestone period such as `2025h1`.
#[derive(Clone, Copy, Debug, PartialEq, Eq, Structural)]
pub struct MilestonePeriod {
    pub year: u32,
    pub second_half: bool,
}

/// Whether a character is a decimal digit.
pub open spec fn is_digit(c: char) -> bool {
    '0' <= c && c <= '9'
}

/// The value of a decimal digit.
pub open spec fn digit_value(c: char) -> int {
    (c as int) - ('0' as int)
}

/// The milestone period a directory name denotes: exactly four decimal digits,
/// then `h`, then `1` or `2`.
pub open spec fn period_of(s: Seq<char>) -> Option<MilestonePeriod> {
    if s.len() == 6 && is_digit(s[0]) && is_digit(s[1]) && is_digit(s[2]) && is_digit(s[3])
        && s[4] == 'h' && (s[5] == '1' || s[5] == '2') {
        Some(
            MilestonePeriod {
                year: (digit_value(s[0]) * 1000 + digit_value(s[1]) * 100 + digit_value(s[2]) * 10
                    + digit_value(s[3])) as u32,
                second_half: s[5] == '2',
            },
        )
    } else {
        None
    }
}

/// Parses a milestone-period directory name.
pub fn parse_period(name: &str) -> (r: Option<MilestonePeriod>)
    ensures
        r == period_of(name@),
{
    let n = name.unicode_len();
    if n != 6 {
        return None;
    }
    let c0 = name.get_char(0);
    let c1 = name.get_char(1);
    let c2 = name.get_char(2);
    let c3 = name.get_char(3);
    let c4 = name.get_char(4);
    let c5 = name.get_char(5);
    if !('0' <= c0 && c0 <= '9' && '0' <= c1 && c1 <= '9' && '0' <= c2 && c2 <= '9' && '0' <= c3
        && c3 <= '9') {
        return None;
    }
    if c4 != 'h' || !(c5 == '1' || c5 == '2') {
        return None;
    }
    let year: u32 = (c0 as u32 - '0' as u32) * 1000 + (c1 as u32 - '0' as u32) * 100 + (c2 as u32
        - '0' as u32) * 10 + (c3 as u32 - '0' as u32);
    Some(MilestonePeriod { year, second_half: c5 == '2' })
}

/// Whether a directory name denotes a milestone period.
pub fn is_period_dir(name: &str) -> (r: bool)
    ensures
        r == period_of(name@).is_some(),
{
    parse_period(name).is_some()
}

} // verus!

verus! {

/// The one-character text of a decimal digit.
pub(crate) fn digit_text(d: u32) -> (r: &'static str)
    requires
        d < 10,
    ensures
        r@.len() == 1,
        is_digit(r@[0]),
        digit_value(r@[0]) == d,
{
    proof {
        reveal_strlit("0");
        reveal_strlit("1");
        reveal_strlit("2");
        reveal_strlit("3");
        reveal_strlit("4");
        reveal_strlit("5");
        reveal_strlit("6");
        reveal_strlit("7");
        reveal_strlit("8");
        reveal_strlit("9");
    }
    match d {
        0 => "0",
        1 => "1",
        2 => "2",
        3 => "3",
        4 => "4",
        5 => "5",
        6 => "6",
        7 => "7",
        8 => "8",
        _ => "9",
    }
}

impl MilestonePeriod {
    /// The period's name, such as `2025h1`: the name of its directory and of
    /// the label its tracking issues carry.
    pub fn label(&self) -> (r: String)
        requires
            self.year < 10000,
        ensures
            period_of(r@) == Some(*self),
    {
        let y = self.year;
        let d0: u32 = y / 1000;
        let d1: u32 = y / 100 % 10;
        let d2: u32 = y / 10 % 10;
        let d3: u32 = y % 10;
        assert(y == d0 * 1000 + d1 * 100 + d2 * 10 + d3) by (nonlinear_arith)
            requires
                y < 10000,
                d0 == y / 1000,
                d1 == y / 100 % 10,
                d2 == y / 10 % 10,
                d3 == y % 10,
        ;
        let mut r = String::new();
        r.append(digit_text(d0));
        r.append(digit_text(d1));
        r.append(digit_text(d2));
        r.append(digit_text(d3));
        proof {
            reveal_strlit("h");
            reveal_strlit("1");
            reveal_strlit("2");
        }
        r.append("h");
        if self.second_half {
            r.append("2");
        } else {
            r.append("1");
        }
        r
    }
}

/// Distinct milestone-period names denote distinct periods.
pub proof fn lemma_period_names_distinct(a: Seq<char>, b: Seq<char>)
    requires
        period_of(a).is_some(),
        period_of(a) == period_of(b),
    ensures
        a == b,
{
    let (a0, a1, a2, a3) = (digit_value(a[0]), digit_value(a[1]), digit_value(a[2]), digit_value(a[3]));
    let (b0, b1, b2, b3) = (digit_value(b[0]), digit_value(b[1]), digit_value(b[2]), digit_value(b[3]));
    assert(a0 * 1000 + a1 * 100 + a2 * 10 + a3 == b0 * 1000 + b1 * 100 + b2 * 10 + b3);
    assert(a0 == b0 && a1 == b1 && a2 == b2 && a3 == b3) by (nonlinear_arith)
        requires
            0 <= a0 <= 9, 0 <= a1 <= 9, 0 <= a2 <= 9, 0 <= a3 <= 9,
            0 <= b0 <= 9, 0 <= b1 <= 9, 0 <= b2 <= 9, 0 <= b3 <= 9,
            a0 * 1000 + a1 * 100 + a2 * 10 + a3 == b0 * 1000 + b1 * 100 + b2 * 10 + b3,
    ;
    assert(a[5] == b[5]);
    assert(a =~= b);
}

} // verus!
