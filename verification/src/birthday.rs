//! The birthday of a contact, as a `BDAY` value states it.
//!
//! Two forms are recognised. The partial form is exactly `--MMDD`: the year is
//! unknown. The full form is `YYYYMMDD`, in which `-` may stand anywhere: the
//! dashes are taken out before the eight digits are read, so `YYYY-MM-DD`
//! reads the same. The numbers are taken as written; `0230` is month 2, day 30.

use vstd::prelude::*;
use vstd::string::*;
use vstd::utf8::*;

use crate::decimal::{decimal, lemma_decimal_is_digits, push_decimal};

verus! {

/// A birthday with or without its year.
#[derive(Clone, Copy, Debug, PartialEq, Eq, Structural)]
pub enum Birthday {
    Full { year: u16, month: u8, day: u8 },
    Partial { month: u8, day: u8 },
}

pub open spec fn is_digit(c: char) -> bool {
    '0' <= c <= '9'
}

/// The value of a decimal digit.
pub open spec fn digit(c: char) -> int {
    c as int - '0' as int
}

pub open spec fn two_digits(a: char, b: char) -> int {
    10 * digit(a) + digit(b)
}

pub open spec fn four_digits(a: char, b: char, c: char, d: char) -> int {
    1000 * digit(a) + 100 * digit(b) + 10 * digit(c) + digit(d)
}

pub open spec fn all_digits(s: Seq<char>) -> bool {
    forall|i: int| 0 <= i < s.len() ==> is_digit(#[trigger] s[i])
}

/// The text with every `-` taken out.
pub open spec fn without_dashes(s: Seq<char>) -> Seq<char>
    decreases s.len(),
{
    if s.len() == 0 {
        s
    } else if s.last() == '-' {
        without_dashes(s.drop_last())
    } else {
        without_dashes(s.drop_last()).push(s.last())
    }
}

/// `--MMDD`, and nothing else.
pub open spec fn is_partial_form(s: Seq<char>) -> bool {
    &&& s.len() == 6
    &&& s[0] == '-'
    &&& s[1] == '-'
    &&& is_digit(s[2])
    &&& is_digit(s[3])
    &&& is_digit(s[4])
    &&& is_digit(s[5])
}

/// Eight digits once the dashes are out.
pub open spec fn is_full_form(s: Seq<char>) -> bool {
    &&& without_dashes(s).len() == 8
    &&& all_digits(without_dashes(s))
}

/// The birthday that a `BDAY` value states, if it has one of the two forms.
pub open spec fn birthday_of(s: Seq<char>) -> Option<Birthday> {
    if is_partial_form(s) {
        Some(
            Birthday::Partial {
                month: two_digits(s[2], s[3]) as u8,
                day: two_digits(s[4], s[5]) as u8,
            },
        )
    } else if is_full_form(s) {
        let d = without_dashes(s);
        Some(
            Birthday::Full {
                year: four_digits(d[0], d[1], d[2], d[3]) as u16,
                month: two_digits(d[4], d[5]) as u8,
                day: two_digits(d[6], d[7]) as u8,
            },
        )
    } else {
        None
    }
}

proof fn lemma_without_dashes_step(s: Seq<char>, i: int)
    requires
        0 <= i < s.len(),
    ensures
        without_dashes(s.take(i + 1)) == if s[i] == '-' {
            without_dashes(s.take(i))
        } else {
            without_dashes(s.take(i)).push(s[i])
        },
{
    assert(s.take(i + 1).drop_last() =~= s.take(i));
}

/// A character other than `-` is still there when the dashes are out.
proof fn lemma_kept(s: Seq<char>, i: int)
    requires
        0 <= i < s.len(),
        s[i] != '-',
    ensures
        without_dashes(s).contains(s[i]),
    decreases s.len(),
{
    let rest = without_dashes(s.drop_last());
    if i == s.len() - 1 {
        assert(without_dashes(s)[rest.len() as int] == s[i]);
    } else {
        lemma_kept(s.drop_last(), i);
        let j = choose|j: int| 0 <= j < rest.len() && rest[j] == s[i];
        assert(without_dashes(s)[j] == s[i]);
    }
}

/// The partial form holds four digits, so it is never the full form.
proof fn lemma_partial_is_not_full(s: Seq<char>)
    requires
        is_partial_form(s),
    ensures
        without_dashes(s).len() == 4,
{
    reveal_with_fuel(without_dashes, 7);
    assert(s.drop_last().drop_last().drop_last().drop_last().drop_last().drop_last().len() == 0);
}

/// What is left of a prefix is no longer than what is left of the whole.
proof fn lemma_prefix_is_shorter(s: Seq<char>, i: int)
    requires
        0 <= i <= s.len(),
    ensures
        without_dashes(s.take(i)).len() <= without_dashes(s).len(),
    decreases s.len() - i,
{
    if i == s.len() {
        assert(s.take(i) =~= s);
    } else {
        lemma_without_dashes_step(s, i);
        lemma_prefix_is_shorter(s, i + 1);
    }
}

fn is_digit_byte(b: u8) -> (r: bool)
    ensures
        r == (48 <= b <= 57),
{
    48 <= b && b <= 57
}

/// Reads a `BDAY` value: `Some` exactly for the two forms, with the numbers
/// that the value holds.
pub fn parse_birthday(value: &str) -> (r: Option<Birthday>)
    ensures
        r == birthday_of(value@),
{
    let ghost s = value@;
    if !value.is_ascii() {
        proof {
            let i = choose|i: int| 0 <= i < s.len() && !('\0' <= #[trigger] s[i] <= '\u{7f}');
            lemma_kept(s, i);
        }
        return None;
    }
    let bytes = value.as_bytes();
    proof {
        is_ascii_spec_bytes(value);
    }
    assert(bytes@.len() == s.len());
    assert(forall|i: int| 0 <= i < s.len() ==> bytes@[i] == #[trigger] s[i] as u8);
    if bytes.len() == 6 && bytes[0] == 45 && bytes[1] == 45 && is_digit_byte(bytes[2])
        && is_digit_byte(bytes[3]) && is_digit_byte(bytes[4]) && is_digit_byte(bytes[5]) {
        let month: u8 = 10 * (bytes[2] - 48) + (bytes[3] - 48);
        let day: u8 = 10 * (bytes[4] - 48) + (bytes[5] - 48);
        return Some(Birthday::Partial { month, day });
    }
    let mut digits: Vec<u8> = Vec::new();
    let mut i: usize = 0;
    while i < bytes.len()
        invariant
            i <= bytes.len(),
            s == value@,
            bytes@.len() == s.len(),
            is_ascii_chars(s),
            !is_partial_form(s),
            forall|k: int| 0 <= k < s.len() ==> bytes@[k] == #[trigger] s[k] as u8,
            digits@.len() == without_dashes(s.take(i as int)).len(),
            digits@.len() <= 8,
            forall|k: int|
                0 <= k < digits@.len() ==> {
                    &&& is_digit(#[trigger] without_dashes(s.take(i as int))[k])
                    &&& digits@[k] == digit(without_dashes(s.take(i as int))[k])
                },
        decreases bytes.len() - i,
    {
        let b = bytes[i];
        proof {
            lemma_without_dashes_step(s, i as int);
        }
        if b != 45 {
            if !is_digit_byte(b) {
                proof {
                    lemma_kept(s, i as int);
                }
                return None;
            }
            if digits.len() == 8 {
                proof {
                    lemma_prefix_is_shorter(s, i as int + 1);
                }
                return None;
            }
            digits.push(b - 48);
        }
        i += 1;
    }
    assert(s.take(s.len() as int) =~= s);
    if digits.len() == 8 {
        let year: u16 = 1000 * (digits[0] as u16) + 100 * (digits[1] as u16) + 10 * (
        digits[2] as u16) + (digits[3] as u16);
        let month: u8 = 10 * digits[4] + digits[5];
        let day: u8 = 10 * digits[6] + digits[7];
        Some(Birthday::Full { year, month, day })
    } else {
        None
    }
}

/// The text `????-`, which stands where the year is unknown.
pub open spec fn unknown_year_mark() -> Seq<char> {
    seq!['?', '?', '?', '?', '-']
}

/// The date as the calendar shows it: `YYYY-M-D`, or `????-M-D` where the
/// year is unknown. No number is padded.
pub open spec fn date_text(b: Birthday) -> Seq<char> {
    match b {
        Birthday::Full { year, month, day } => decimal(year as nat) + seq!['-'] + decimal(
            month as nat,
        ) + seq!['-'] + decimal(day as nat),
        Birthday::Partial { month, day } => unknown_year_mark() + decimal(month as nat) + seq!['-']
            + decimal(day as nat),
    }
}

/// The month of a birthday, as written in the card.
pub open spec fn month_of(b: Birthday) -> u8 {
    match b {
        Birthday::Full { month, .. } => month,
        Birthday::Partial { month, .. } => month,
    }
}

/// The day of a birthday, as written in the card.
pub open spec fn day_of(b: Birthday) -> u8 {
    match b {
        Birthday::Full { day, .. } => day,
        Birthday::Partial { day, .. } => day,
    }
}

/// The year of a birthday, where the card gives one.
pub open spec fn year_of(b: Birthday) -> Option<u16> {
    match b {
        Birthday::Full { year, .. } => Some(year),
        Birthday::Partial { .. } => None,
    }
}

impl Birthday {
    pub fn month(&self) -> (m: u8)
        ensures
            m == month_of(*self),
    {
        match *self {
            Birthday::Full { month, .. } => month,
            Birthday::Partial { month, .. } => month,
        }
    }

    pub fn day(&self) -> (d: u8)
        ensures
            d == day_of(*self),
    {
        match *self {
            Birthday::Full { day, .. } => day,
            Birthday::Partial { day, .. } => day,
        }
    }

    pub fn year(&self) -> (y: Option<u16>)
        ensures
            y == year_of(*self),
    {
        match *self {
            Birthday::Full { year, .. } => Some(year),
            Birthday::Partial { .. } => None,
        }
    }

    /// The text of the date cell.
    pub fn date_cell(&self) -> (text: String)
        ensures
            text@ == date_text(*self),
    {
        let mut text = String::new();
        match *self {
            Birthday::Full { year, .. } => {
                push_decimal(&mut text, year as u64);
                proof {
                    reveal_strlit("-");
                }
                text.append("-");
            },
            Birthday::Partial { .. } => {
                proof {
                    reveal_strlit("????-");
                }
                text.append("????-");
            },
        }
        push_decimal(&mut text, self.month() as u64);
        proof {
            reveal_strlit("-");
        }
        text.append("-");
        push_decimal(&mut text, self.day() as u64);
        assert(text@ =~= date_text(*self));
        text
    }
}

/// Dashes do not matter to the full form: a value that reads the same as a
/// full-form value once the dashes are out of both states the same birthday,
/// and so gets the same date cell.
pub proof fn dashes_do_not_matter(a: Seq<char>, b: Seq<char>)
    requires
        is_full_form(a),
        without_dashes(a) == without_dashes(b),
    ensures
        birthday_of(a) is Some,
        birthday_of(b) == birthday_of(a),
        date_text(birthday_of(b)->0) == date_text(birthday_of(a)->0),
{
    if is_partial_form(a) {
        lemma_partial_is_not_full(a);
    }
    if is_partial_form(b) {
        lemma_partial_is_not_full(b);
    }
}

/// The date cell begins with `????-` exactly when the value has the partial
/// form `--MMDD`.
pub proof fn unknown_year_shows_question_marks(s: Seq<char>)
    requires
        birthday_of(s) is Some,
    ensures
        is_partial_form(s) <==> date_text(birthday_of(s)->0).take(5) == unknown_year_mark(),
{
    let text = date_text(birthday_of(s)->0);
    match birthday_of(s)->0 {
        Birthday::Full { year, month, day } => {
            lemma_decimal_is_digits(year as nat);
            assert(text[0] == decimal(year as nat)[0]);
            assert(text.take(5)[0] == text[0]);
            assert(unknown_year_mark()[0] == '?');
        },
        Birthday::Partial { month, day } => {
            assert(text.take(5) =~= unknown_year_mark());
        },
    }
}

} // verus!
