//! The `YYYY-MM-DD` text form of dates: formatting, parsing, and the proof
//! that the two are inverse to each other.

use crate::date::{days_in_month, days_in_month_of, Date};
use vstd::arithmetic::div_mod::{
    lemma_div_denominator, lemma_fundamental_div_mod, lemma_fundamental_div_mod_converse,
};
use vstd::prelude::*;
use vstd::string::{StrSliceExecFns, StringExecFns};

verus! {

/// Rejected text handed to [`parse_date`]: not the `YYYY-MM-DD` form of any
/// valid date.
#[derive(Clone, Copy, Debug, PartialEq, Eq, Structural)]
pub struct DateParseError {}

/// The decimal digit characters.
pub open spec fn digit(n: int) -> char {
    if n == 0 {
        '0'
    } else if n == 1 {
        '1'
    } else if n == 2 {
        '2'
    } else if n == 3 {
        '3'
    } else if n == 4 {
        '4'
    } else if n == 5 {
        '5'
    } else if n == 6 {
        '6'
    } else if n == 7 {
        '7'
    } else if n == 8 {
        '8'
    } else if n == 9 {
        '9'
    } else {
        '?'
    }
}

/// The ten-character `YYYY-MM-DD` form of a date: the year zero-padded to
/// four digits, month and day to two.
pub open spec fn date_text(d: Date) -> Seq<char> {
    seq![
        digit(d.year as int / 1000),
        digit((d.year as int / 100) % 10),
        digit((d.year as int / 10) % 10),
        digit(d.year as int % 10),
        '-',
        digit(d.month as int / 10),
        digit(d.month as int % 10),
        '-',
        digit(d.day as int / 10),
        digit(d.day as int % 10),
    ]
}

/// The valid date whose text form a string is, if there is one.
pub open spec fn date_of_text(s: Seq<char>) -> Option<Date> {
    if exists|d: Date| d.valid() && date_text(d) == s {
        Some(choose|d: Date| d.valid() && date_text(d) == s)
    } else {
        None
    }
}

/// The decimal digits are ten distinct characters.
proof fn lemma_digit_injective(a: int, b: int)
    requires
        0 <= a < 10,
        0 <= b < 10,
        digit(a) == digit(b),
    ensures
        a == b,
{
}

/// A number below 10000 is recomposed from its four decimal digits.
proof fn lemma_four_digit_split(y: int)
    requires
        0 <= y <= 9999,
    ensures
        y == 1000 * (y / 1000) + 100 * ((y / 100) % 10) + 10 * ((y / 10) % 10) + y % 10,
        0 <= y / 1000 < 10,
        0 <= (y / 100) % 10 < 10,
        0 <= (y / 10) % 10 < 10,
        0 <= y % 10 < 10,
{
    lemma_fundamental_div_mod(y, 10);
    lemma_fundamental_div_mod(y / 10, 10);
    lemma_div_denominator(y, 10, 10);
    lemma_fundamental_div_mod(y / 100, 10);
    lemma_div_denominator(y, 100, 10);
}

/// Four decimal digits determine the number they spell.
proof fn lemma_four_digit_join(v0: int, v1: int, v2: int, v3: int)
    requires
        0 <= v0 < 10,
        0 <= v1 < 10,
        0 <= v2 < 10,
        0 <= v3 < 10,
    ensures
        ({
            let x = 1000 * v0 + 100 * v1 + 10 * v2 + v3;
            x / 1000 == v0 && (x / 100) % 10 == v1 && (x / 10) % 10 == v2 && x % 10 == v3
        }),
{
    let x = 1000 * v0 + 100 * v1 + 10 * v2 + v3;
    lemma_fundamental_div_mod_converse(x, 1000, v0, 100 * v1 + 10 * v2 + v3);
    lemma_fundamental_div_mod_converse(x, 100, 10 * v0 + v1, 10 * v2 + v3);
    lemma_fundamental_div_mod_converse(10 * v0 + v1, 10, v0, v1);
    lemma_fundamental_div_mod_converse(x, 10, 100 * v0 + 10 * v1 + v2, v3);
    lemma_fundamental_div_mod_converse(100 * v0 + 10 * v1 + v2, 10, 10 * v0 + v1, v2);
}

/// Two decimal digits determine the number they spell.
proof fn lemma_two_digit_join(v0: int, v1: int)
    requires
        0 <= v0 < 10,
        0 <= v1 < 10,
    ensures
        (10 * v0 + v1) / 10 == v0,
        (10 * v0 + v1) % 10 == v1,
{
    lemma_fundamental_div_mod_converse(10 * v0 + v1, 10, v0, v1);
}

/// Valid dates with the same text form are the same date.
pub proof fn lemma_date_text_injective(a: Date, b: Date)
    requires
        a.valid(),
        b.valid(),
        date_text(a) == date_text(b),
    ensures
        a == b,
{
    let sa = date_text(a);
    let sb = date_text(b);
    lemma_four_digit_split(a.year as int);
    lemma_four_digit_split(b.year as int);
    assert(sa[0] == sb[0] && sa[1] == sb[1] && sa[2] == sb[2] && sa[3] == sb[3] && sa[5] == sb[5]
        && sa[6] == sb[6] && sa[8] == sb[8] && sa[9] == sb[9]);
    lemma_digit_injective(a.year as int / 1000, b.year as int / 1000);
    lemma_digit_injective((a.year as int / 100) % 10, (b.year as int / 100) % 10);
    lemma_digit_injective((a.year as int / 10) % 10, (b.year as int / 10) % 10);
    lemma_digit_injective(a.year as int % 10, b.year as int % 10);
    lemma_fundamental_div_mod(a.month as int, 10);
    lemma_fundamental_div_mod(b.month as int, 10);
    lemma_digit_injective(a.month as int / 10, b.month as int / 10);
    lemma_digit_injective(a.month as int % 10, b.month as int % 10);
    lemma_fundamental_div_mod(a.day as int, 10);
    lemma_fundamental_div_mod(b.day as int, 10);
    lemma_digit_injective(a.day as int / 10, b.day as int / 10);
    lemma_digit_injective(a.day as int % 10, b.day as int % 10);
}

/// Every date's text form names that date again: formatting and parsing are
/// inverse to each other.
pub proof fn lemma_date_text_round_trip(d: Date)
    requires
        d.valid(),
    ensures
        date_of_text(date_text(d)) == Some(d),
{
    assert(d.valid() && date_text(d) == date_text(d));
    let picked = choose|x: Date| x.valid() && date_text(x) == date_text(d);
    lemma_date_text_injective(picked, d);
}

/// A single decimal digit as a borrowed string.
fn digit_str(n: u32) -> (r: &'static str)
    requires
        n < 10,
    ensures
        r@ == seq![digit(n as int)],
{
    let r: &'static str = match n {
        0 => "0",
        1 => "1",
        2 => "2",
        3 => "3",
        4 => "4",
        5 => "5",
        6 => "6",
        7 => "7",
        8 => "8",
        _ => "9",
    };
    proof {
        reveal_strlit("0");
        reveal_strlit("1");
        reveal_strlit("2");
        reveal_strlit("3");
        reveal_strlit("4");
        reveal_strlit("5");
        reveal_strlit("6");
        reveal_strlit("7");
        reveal_strlit("8");
        reveal_strlit("9");
        assert(r@ =~= seq![digit(n as int)]);
    }
    r
}

/// Writes a date in its `YYYY-MM-DD` form.
pub fn format_date(d: &Date) -> (r: String)
    requires
        d.valid(),
    ensures
        r@ == date_text(*d),
{
    let mut s = String::new();
    s.append(digit_str(d.year / 1000));
    s.append(digit_str((d.year / 100) % 10));
    s.append(digit_str((d.year / 10) % 10));
    s.append(digit_str(d.year % 10));
    s.append("-");
    s.append(digit_str(d.month / 10));
    s.append(digit_str(d.month % 10));
    s.append("-");
    s.append(digit_str(d.day / 10));
    s.append(digit_str(d.day % 10));
    proof {
        reveal_strlit("-");
        assert(s@ =~= date_text(*d));
    }
    s
}

/// The digit's value, for the ten digit characters alone.
fn digit_val(c: char) -> (r: Option<u32>)
    ensures
        match r {
            Some(v) => v < 10 && c == digit(v as int),
            None => forall|v: int| 0 <= v < 10 ==> c != digit(v),
        },
{
    match c {
        '0' => Some(0),
        '1' => Some(1),
        '2' => Some(2),
        '3' => Some(3),
        '4' => Some(4),
        '5' => Some(5),
        '6' => Some(6),
        '7' => Some(7),
        '8' => Some(8),
        '9' => Some(9),
        _ => None,
    }
}

/// In every valid date's text form, the characters away from the two dashes
/// are decimal digits and the dashes stand at indices 4 and 7.
proof fn lemma_date_text_shape(d: Date, i: int)
    requires
        d.valid(),
        0 <= i < 10,
    ensures
        i != 4 && i != 7 ==> exists|v: int| 0 <= v < 10 && date_text(d)[i] == digit(v),
        i == 4 || i == 7 ==> date_text(d)[i] == '-',
{
    lemma_four_digit_split(d.year as int);
    if i == 0 {
        assert(0 <= d.year as int / 1000 < 10 && date_text(d)[i] == digit(d.year as int / 1000));
    } else if i == 1 {
        assert(date_text(d)[i] == digit((d.year as int / 100) % 10));
    } else if i == 2 {
        assert(date_text(d)[i] == digit((d.year as int / 10) % 10));
    } else if i == 3 {
        assert(date_text(d)[i] == digit(d.year as int % 10));
    } else if i == 5 {
        assert(0 <= d.month as int / 10 < 10 && date_text(d)[i] == digit(d.month as int / 10));
    } else if i == 6 {
        assert(date_text(d)[i] == digit(d.month as int % 10));
    } else if i == 8 {
        assert(0 <= d.day as int / 10 < 10 && date_text(d)[i] == digit(d.day as int / 10));
    } else if i == 9 {
        assert(date_text(d)[i] == digit(d.day as int % 10));
    }
}

/// No valid date's text form carries a non-digit at a digit position.
proof fn lemma_no_date_with_bad_digit(s: Seq<char>, i: int)
    requires
        0 <= i < 10,
        i != 4,
        i != 7,
        forall|v: int| 0 <= v < 10 ==> s[i] != digit(v),
    ensures
        forall|d: Date| d.valid() ==> date_text(d) != s,
{
    assert forall|d: Date| d.valid() implies date_text(d) != s by {
        lemma_date_text_shape(d, i);
        if date_text(d) == s {
            assert(s[i] == date_text(d)[i]);
        }
    }
}

/// No valid date's text form carries anything but a dash at indices 4 and 7.
proof fn lemma_no_date_with_bad_dash(s: Seq<char>, i: int)
    requires
        i == 4 || i == 7,
        s[i] != '-',
    ensures
        forall|d: Date| d.valid() ==> date_text(d) != s,
{
    assert forall|d: Date| d.valid() implies date_text(d) != s by {
        lemma_date_text_shape(d, i);
        if date_text(d) == s {
            assert(s[i] == date_text(d)[i]);
        }
    }
}

/// Reads a date from its `YYYY-MM-DD` form. Exactly the text forms of valid
/// dates are accepted, and each names the date it came from.
pub fn parse_date(s: &str) -> (r: Result<Date, DateParseError>)
    ensures
        match r {
            Ok(d) => d.valid() && date_text(d) == s@ && date_of_text(s@) == Some(d),
            Err(_) => (forall|d: Date| d.valid() ==> date_text(d) != s@) && date_of_text(
                s@,
            ) is None,
        },
{
    if s.unicode_len() != 10 {
        return Err(DateParseError {});
    }
    let c4 = s.get_char(4);
    if c4 != '-' {
        proof {
            lemma_no_date_with_bad_dash(s@, 4);
        }
        return Err(DateParseError {});
    }
    let c7 = s.get_char(7);
    if c7 != '-' {
        proof {
            lemma_no_date_with_bad_dash(s@, 7);
        }
        return Err(DateParseError {});
    }
    let v0 = match digit_val(s.get_char(0)) {
        Some(v) => v,
        None => {
            proof {
                lemma_no_date_with_bad_digit(s@, 0);
            }
            return Err(DateParseError {});
        },
    };
    let v1 = match digit_val(s.get_char(1)) {
        Some(v) => v,
        None => {
            proof {
                lemma_no_date_with_bad_digit(s@, 1);
            }
            return Err(DateParseError {});
        },
    };
    let v2 = match digit_val(s.get_char(2)) {
        Some(v) => v,
        None => {
            proof {
                lemma_no_date_with_bad_digit(s@, 2);
            }
            return Err(DateParseError {});
        },
    };
    let v3 = match digit_val(s.get_char(3)) {
        Some(v) => v,
        None => {
            proof {
                lemma_no_date_with_bad_digit(s@, 3);
            }
            return Err(DateParseError {});
        },
    };
    let v5 = match digit_val(s.get_char(5)) {
        Some(v) => v,
        None => {
            proof {
                lemma_no_date_with_bad_digit(s@, 5);
            }
            return Err(DateParseError {});
        },
    };
    let v6 = match digit_val(s.get_char(6)) {
        Some(v) => v,
        None => {
            proof {
                lemma_no_date_with_bad_digit(s@, 6);
            }
            return Err(DateParseError {});
        },
    };
    let v8 = match digit_val(s.get_char(8)) {
        Some(v) => v,
        None => {
            proof {
                lemma_no_date_with_bad_digit(s@, 8);
            }
            return Err(DateParseError {});
        },
    };
    let v9 = match digit_val(s.get_char(9)) {
        Some(v) => v,
        None => {
            proof {
                lemma_no_date_with_bad_digit(s@, 9);
            }
            return Err(DateParseError {});
        },
    };
    let year = 1000 * v0 + 100 * v1 + 10 * v2 + v3;
    let month = 10 * v5 + v6;
    let day = 10 * v8 + v9;
    proof {
        lemma_four_digit_join(v0 as int, v1 as int, v2 as int, v3 as int);
        lemma_two_digit_join(v5 as int, v6 as int);
        lemma_two_digit_join(v8 as int, v9 as int);
    }
    let d = Date { year, month, day };
    if 1 <= year && 1 <= month && month <= 12 && 1 <= day && day <= days_in_month_of(year, month) {
        proof {
            assert(date_text(d) =~= s@);
            lemma_date_text_round_trip(d);
        }
        Ok(d)
    } else {
        proof {
            assert forall|dd: Date| dd.valid() implies date_text(dd) != s@ by {
                if date_text(dd) == s@ {
                    lemma_four_digit_split(dd.year as int);
                    lemma_fundamental_div_mod(dd.month as int, 10);
                    lemma_fundamental_div_mod(dd.day as int, 10);
                    lemma_digit_injective(dd.year as int / 1000, v0 as int);
                    lemma_digit_injective((dd.year as int / 100) % 10, v1 as int);
                    lemma_digit_injective((dd.year as int / 10) % 10, v2 as int);
                    lemma_digit_injective(dd.year as int % 10, v3 as int);
                    lemma_digit_injective(dd.month as int / 10, v5 as int);
                    lemma_digit_injective(dd.month as int % 10, v6 as int);
                    lemma_digit_injective(dd.day as int / 10, v8 as int);
                    lemma_digit_injective(dd.day as int % 10, v9 as int);
                    assert(dd.year == year && dd.month == month && dd.day == day);
                }
            }
        }
        Err(DateParseError {})
    }
}

} // verus!
