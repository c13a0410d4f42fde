//! Rendering the sections of a pattern against a date.
use vstd::prelude::*;
use vstd::string::*;

use crate::tokens::{part_spelling, FormatPart, Section};

verus! {

/// A calendar date as the renderer reads it: the year, the month (1 to 12)
/// and the day of the month (1 to 31).
#[derive(Debug, Clone, Copy, PartialEq, Eq, Structural)]
pub struct Date {
    pub year: i32,
    pub month: u32,
    pub day: u32,
}

impl Date {
    /// The month and the day lie in their ranges.
    pub open spec fn wf(&self) -> bool {
        1 <= self.month <= 12 && 1 <= self.day <= 31
    }

    /// The date with these components, when the month and the day lie in
    /// their ranges. Whether the day exists in that month is not checked.
    pub fn new(year: i32, month: u32, day: u32) -> (r: Option<Date>)
        ensures
            match r {
                Some(d) => d.wf() && d.year == year && d.month == month && d.day == day,
                None => !(1 <= month <= 12 && 1 <= day <= 31),
            },
    {
        if 1 <= month && month <= 12 && 1 <= day && day <= 31 {
            Some(Date { year, month, day })
        } else {
            None
        }
    }
}

/// The decimal digit `d`, for `0 <= d < 10`.
pub open spec fn digit_char(d: int) -> char {
    seq!['0', '1', '2', '3', '4', '5', '6', '7', '8', '9'][d]
}

/// The decimal representation of `n`, without leading zeros.
pub open spec fn digits(n: nat) -> Seq<char>
    decreases n,
{
    if n < 10 {
        seq![digit_char(n as int)]
    } else {
        digits(n / 10).push(digit_char((n % 10) as int))
    }
}

/// The decimal representation of `i`, with a minus sign when it is negative.
pub open spec fn decimal(i: int) -> Seq<char> {
    if i < 0 {
        seq!['-'] + digits((-i) as nat)
    } else {
        digits(i as nat)
    }
}

/// `s` filled with zeros on the left up to a width of two.
pub open spec fn pad_two(s: Seq<char>) -> Seq<char> {
    if s.len() < 2 {
        Seq::new((2 - s.len()) as nat, |_j: int| '0') + s
    } else {
        s
    }
}

/// The abbreviated English names of the months, January first.
pub open spec fn month_abbreviations() -> Seq<Seq<char>> {
    seq![
        seq!['J', 'a', 'n'],
        seq!['F', 'e', 'b'],
        seq!['M', 'a', 'r'],
        seq!['A', 'p', 'r'],
        seq!['M', 'a', 'y'],
        seq!['J', 'u', 'n'],
        seq!['J', 'u', 'l'],
        seq!['A', 'u', 'g'],
        seq!['S', 'e', 'p'],
        seq!['O', 'c', 't'],
        seq!['N', 'o', 'v'],
        seq!['D', 'e', 'c'],
    ]
}

/// The abbreviated English name of month `m`, for `1 <= m <= 12`.
pub open spec fn month_abbreviation(m: int) -> Seq<char> {
    if 1 <= m <= 12 {
        month_abbreviations()[m - 1]
    } else {
        seq![]
    }
}

/// What a section becomes for a date.
pub open spec fn render_section(s: Section, d: Date) -> Seq<char> {
    match s {
        Section::YY => pad_two(digits(((d.year as int) % 100) as nat)),
        Section::YYYY => decimal(d.year as int),
        Section::M => digits(d.month as nat),
        Section::MM => pad_two(digits(d.month as nat)),
        Section::MMM => month_abbreviation(d.month as int),
        Section::D => digits(d.day as nat),
        Section::DD => pad_two(digits(d.day as nat)),
    }
}

/// What a part becomes for a date: a section its rendering, a separator
/// its own character.
pub open spec fn render_part(p: FormatPart, d: Date) -> Seq<char> {
    match p {
        FormatPart::Section(s) => render_section(s, d),
        FormatPart::Separator(_) => part_spelling(p),
    }
}

/// The renderings of `parts`, one after the other.
pub open spec fn render_parts(parts: Seq<FormatPart>, d: Date) -> Seq<char>
    decreases parts.len(),
{
    if parts.len() == 0 {
        seq![]
    } else {
        render_parts(parts.drop_last(), d) + render_part(parts.last(), d)
    }
}

/// One digit for a number below ten, two for one below a hundred, and never
/// a leading zero.
proof fn lemma_digits_width(n: nat)
    requires
        n < 100,
    ensures
        digits(n).len() == (if n < 10 {
            1int
        } else {
            2int
        }),
        n >= 1 ==> digits(n)[0] != '0',
{
    if n >= 10 {
        assert(digits(n / 10) == seq![digit_char((n / 10) as int)]);
        assert(digits(n)[0] == digit_char((n / 10) as int));
    }
}

/// `dd`, `mm` and `yy` always give exactly two digits; `d` and `m` give one
/// digit below ten and two from ten on, never with a leading zero.
pub proof fn lemma_render_widths(d: Date)
    requires
        d.wf(),
    ensures
        render_section(Section::DD, d).len() == 2,
        render_section(Section::MM, d).len() == 2,
        render_section(Section::YY, d).len() == 2,
        render_section(Section::D, d).len() == (if d.day < 10 {
            1int
        } else {
            2int
        }),
        render_section(Section::M, d).len() == (if d.month < 10 {
            1int
        } else {
            2int
        }),
        render_section(Section::D, d)[0] != '0',
        render_section(Section::M, d)[0] != '0',
{
    lemma_digits_width(d.day as nat);
    lemma_digits_width(d.month as nat);
    lemma_digits_width(((d.year as int) % 100) as nat);
}

/// The remainder by 100 of a negative number, from that of its negation.
proof fn lemma_mod_hundred_negative(y: int)
    requires
        y < 0,
    ensures
        y % 100 == (if (-y) % 100 == 0 {
            0
        } else {
            100 - (-y) % 100
        }),
{
    let q = (-y) / 100;
    let a = (-y) % 100;
    assert(-y == 100 * q + a && 0 <= a < 100) by (nonlinear_arith)
        requires
            q == (-y) / 100,
            a == (-y) % 100,
    ;
    if a == 0 {
        assert(y == 100 * (-q) + 0);
        vstd::arithmetic::div_mod::lemma_mod_multiples_basic(-q, 100);
    } else {
        assert(y == 100 * (-q - 1) + (100 - a)) by (nonlinear_arith)
            requires
                -y == 100 * q + a,
        ;
        vstd::arithmetic::div_mod::lemma_mod_multiples_vanish(-q - 1, 100 - a, 100);
        vstd::arithmetic::div_mod::lemma_small_mod((100 - a) as nat, 100);
    }
}

/// The digit `d` as a string of length one.
fn digit_str(d: u64) -> (r: &'static str)
    requires
        d < 10,
    ensures
        r@ == seq![digit_char(d as int)],
{
    if d == 0 {
        proof {
            reveal_strlit("0");
        }
        "0"
    } else if d == 1 {
        proof {
            reveal_strlit("1");
        }
        "1"
    } else if d == 2 {
        proof {
            reveal_strlit("2");
        }
        "2"
    } else if d == 3 {
        proof {
            reveal_strlit("3");
        }
        "3"
    } else if d == 4 {
        proof {
            reveal_strlit("4");
        }
        "4"
    } else if d == 5 {
        proof {
            reveal_strlit("5");
        }
        "5"
    } else if d == 6 {
        proof {
            reveal_strlit("6");
        }
        "6"
    } else if d == 7 {
        proof {
            reveal_strlit("7");
        }
        "7"
    } else if d == 8 {
        proof {
            reveal_strlit("8");
        }
        "8"
    } else {
        proof {
            reveal_strlit("9");
        }
        "9"
    }
}

/// The decimal representation of `n`.
pub fn digits_string(n: u64) -> (r: String)
    ensures
        r@ == digits(n as nat),
    decreases n,
{
    if n < 10 {
        String::from_str(digit_str(n))
    } else {
        let mut s = digits_string(n / 10);
        s.append(digit_str(n % 10));
        s
    }
}

/// The decimal representation of `i`, with a minus sign when it is negative.
pub fn decimal_string(i: i64) -> (r: String)
    requires
        i > i64::MIN,
    ensures
        r@ == decimal(i as int),
{
    if i < 0 {
        let minus = String::from_str("-");
        proof {
            reveal_strlit("-");
        }
        minus.concat(digits_string((-i) as u64).as_str())
    } else {
        digits_string(i as u64)
    }
}

/// `s` filled with zeros on the left up to a width of two.
pub fn pad_two_string(s: String) -> (r: String)
    ensures
        r@ == pad_two(s@),
{
    let n = s.as_str().unicode_len();
    if n == 0 {
        proof {
            reveal_strlit("00");
        }
        let r = String::from_str("00");
        assert(r@ =~= pad_two(s@));
        r
    } else if n == 1 {
        proof {
            reveal_strlit("0");
        }
        let r = String::from_str("0").concat(s.as_str());
        assert(r@ =~= pad_two(s@));
        r
    } else {
        s
    }
}

/// The abbreviated English name of `month`.
pub fn month_abbreviated(month: u32) -> (r: &'static str)
    requires
        1 <= month <= 12,
    ensures
        r@ == month_abbreviation(month as int),
{
    if month == 1 {
        proof {
            reveal_strlit("Jan");
        }
        "Jan"
    } else if month == 2 {
        proof {
            reveal_strlit("Feb");
        }
        "Feb"
    } else if month == 3 {
        proof {
            reveal_strlit("Mar");
        }
        "Mar"
    } else if month == 4 {
        proof {
            reveal_strlit("Apr");
        }
        "Apr"
    } else if month == 5 {
        proof {
            reveal_strlit("May");
        }
        "May"
    } else if month == 6 {
        proof {
            reveal_strlit("Jun");
        }
        "Jun"
    } else if month == 7 {
        proof {
            reveal_strlit("Jul");
        }
        "Jul"
    } else if month == 8 {
        proof {
            reveal_strlit("Aug");
        }
        "Aug"
    } else if month == 9 {
        proof {
            reveal_strlit("Sep");
        }
        "Sep"
    } else if month == 10 {
        proof {
            reveal_strlit("Oct");
        }
        "Oct"
    } else if month == 11 {
        proof {
            reveal_strlit("Nov");
        }
        "Nov"
    } else {
        proof {
            reveal_strlit("Dec");
        }
        "Dec"
    }
}

impl Section {
    /// The rendering of this section for `date`.
    pub fn format(&self, date: &Date) -> (r: String)
        requires
            date.wf(),
        ensures
            r@ == render_section(*self, *date),
    {
        match self {
            Section::YY => {
                let last_two: u64 = if date.year >= 0 {
                    (date.year as u64) % 100
                } else {
                    let below: u64 = ((-(date.year as i64)) as u64) % 100;
                    proof {
                        lemma_mod_hundred_negative(date.year as int);
                    }
                    if below == 0 {
                        0
                    } else {
                        100 - below
                    }
                };
                pad_two_string(digits_string(last_two))
            },
            Section::YYYY => decimal_string(date.year as i64),
            Section::M => digits_string(date.month as u64),
            Section::MM => pad_two_string(digits_string(date.month as u64)),
            Section::MMM => String::from_str(month_abbreviated(date.month)),
            Section::D => digits_string(date.day as u64),
            Section::DD => pad_two_string(digits_string(date.day as u64)),
        }
    }
}

} // verus!
