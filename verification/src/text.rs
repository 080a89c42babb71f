//! The texts the bot sends: numbers in decimal, one line per birthday, and
//! the lists of birthdays.

use vstd::prelude::*;
use crate::bth::Birthday;

verus! {

/// The character of the decimal digit `d` (0 to 9).
pub open spec fn digit_char(d: int) -> char {
    (48 + d) as char
}

/// The decimal digits of `n`, without leading zeros ("0" for zero).
pub open spec fn digits(n: nat) -> Seq<char>
    decreases n,
{
    if n < 10 {
        seq![digit_char(n as int)]
    } else {
        digits(n / 10).push(digit_char((n % 10) as int))
    }
}

/// `n` written in decimal, with a leading '-' when it is negative.
pub open spec fn int_text(n: int) -> Seq<char> {
    if n < 0 {
        seq!['-'] + digits((-n) as nat)
    } else {
        digits(n as nat)
    }
}

/// `n` written in decimal and padded on the left with '0' to two characters.
pub open spec fn padded2(n: int) -> Seq<char> {
    let t = int_text(n);
    if t.len() < 2 {
        seq!['0'] + t
    } else {
        t
    }
}

/// The line that lists one birthday: its name, its day and month padded to
/// two digits, its id and its reminder.
pub open spec fn birthday_line(b: Birthday) -> Seq<char> {
    "- "@ + b.name@ + ": "@ + padded2(b.day as int) + "/"@ + padded2(b.month as int) + " (id: "@
        + int_text(b.id as int) + ") (reminder: "@ + int_text(b.reminder as int) + ")\n"@
}

/// The lines of all birthdays of `s`, in order.
pub open spec fn birthday_lines(s: Seq<Birthday>) -> Seq<char>
    decreases s.len(),
{
    if s.len() == 0 {
        Seq::empty()
    } else {
        birthday_lines(s.drop_last()) + birthday_line(s.last())
    }
}

fn digit_text(d: u32) -> (t: &'static str)
    requires
        d < 10,
    ensures
        t@ == seq![digit_char(d as int)],
{
    proof {
        reveal_strlit("0");
        reveal_strlit("1");
        reveal_strlit("2");
        reveal_strlit("3");
        reveal_strlit("4");
        reveal_strlit("5");
        reveal_strlit("6");
        reveal_strlit("7");
        reveal_strlit("8");
        reveal_strlit("9");
    }
    match d {
        0 => "0",
        1 => "1",
        2 => "2",
        3 => "3",
        4 => "4",
        5 => "5",
        6 => "6",
        7 => "7",
        8 => "8",
        _ => "9",
    }
}

fn push_digits(s: &mut String, n: u32)
    ensures
        final(s)@ == old(s)@ + digits(n as nat),
    decreases n,
{
    if n >= 10 {
        push_digits(s, n / 10);
    }
    s.append(digit_text(n % 10));
    assert(s@ =~= old(s)@ + digits(n as nat));
}

/// Appends `n` in decimal.
pub fn push_int(s: &mut String, n: i32)
    ensures
        final(s)@ == old(s)@ + int_text(n as int),
{
    if n < 0 {
        proof {
            reveal_strlit("-");
        }
        s.append("-");
        let magnitude: i64 = -(n as i64);
        push_digits(s, magnitude as u32);
        assert(s@ =~= old(s)@ + int_text(n as int));
    } else {
        push_digits(s, n as u32);
    }
}

/// The number that a text of decimal digits stands for.
pub open spec fn decimal_value(s: Seq<char>) -> int
    decreases s.len(),
{
    if s.len() == 0 {
        0
    } else {
        decimal_value(s.drop_last()) * 10 + ((s.last() as u32) - 48)
    }
}

/// The decimal text of `n` is made of the characters '0' to '9', starts with
/// '0' only for zero itself, and stands for `n`.
pub proof fn lemma_digits_stand_for_the_number(n: nat)
    ensures
        forall|i: int| 0 <= i < digits(n).len() ==> 48 <= (#[trigger] digits(n)[i] as u32) <= 57,
        n > 0 ==> digits(n)[0] != '0',
        decimal_value(digits(n)) == n,
    decreases n,
{
    if n >= 10 {
        lemma_digits_stand_for_the_number(n / 10);
        let d = digits(n);
        assert(d.drop_last() =~= digits(n / 10));
        assert forall|i: int| 0 <= i < d.len() implies 48 <= (#[trigger] d[i] as u32) <= 57 by {
            if i < d.len() - 1 {
                assert(d[i] == digits(n / 10)[i]);
            }
        }
        lemma_digits_len(n / 10);
        assert(d[0] == digits(n / 10)[0]);
        assert(d.last() == digit_char((n % 10) as int));
        assert((digit_char((n % 10) as int) as u32) == 48 + n % 10);
        assert(decimal_value(d) == decimal_value(digits(n / 10)) * 10 + n % 10);
        assert(n == (n / 10) * 10 + n % 10);
    } else {
        assert(digits(n).drop_last() =~= Seq::<char>::empty());
        assert((digit_char(n as int) as u32) == 48 + n);
        assert(decimal_value(digits(n).drop_last()) == 0);
        assert(decimal_value(digits(n)) == n);
    }
}

/// The text of an integer is its decimal digits, after a '-' exactly when it
/// is negative.
pub proof fn lemma_int_text_sign(n: int)
    ensures
        (int_text(n)[0] == '-') == (n < 0),
        n < 0 ==> decimal_value(int_text(n).drop_first()) == -n,
        n >= 0 ==> decimal_value(int_text(n)) == n,
{
    if n < 0 {
        lemma_digits_stand_for_the_number((-n) as nat);
        assert(int_text(n).drop_first() =~= digits((-n) as nat));
    } else {
        lemma_digits_stand_for_the_number(n as nat);
        lemma_digits_len(n as nat);
        assert(48 <= (digits(n as nat)[0] as u32) <= 57);
    }
}

/// A number padded to two characters is its text, with one '0' put in front
/// exactly when it is a single digit (0 to 9).
pub proof fn lemma_padded2_pads_single_digits(n: int)
    ensures
        0 <= n <= 9 ==> padded2(n) == seq!['0'] + int_text(n) && int_text(n).len() == 1,
        !(0 <= n <= 9) ==> padded2(n) == int_text(n) && int_text(n).len() >= 2,
{
    if n < 0 {
        lemma_digits_len((-n) as nat);
    } else {
        lemma_digits_len(n as nat);
    }
}

/// The decimal text of a number has at least one digit, and two or more
/// from ten on.
proof fn lemma_digits_len(n: nat)
    ensures
        digits(n).len() >= 1,
        n >= 10 ==> digits(n).len() >= 2,
    decreases n,
{
    if n >= 10 {
        lemma_digits_len(n / 10);
    }
}

/// Appends `n` in decimal, padded with '0' to two characters.
pub fn push_padded2(s: &mut String, n: i32)
    ensures
        final(s)@ == old(s)@ + padded2(n as int),
{
    proof {
        if n < 0 {
            lemma_digits_len((-n) as nat);
        } else {
            lemma_digits_len(n as nat);
        }
        reveal_strlit("0");
    }
    if 0 <= n && n <= 9 {
        s.append("0");
    }
    push_int(s, n);
    assert(s@ =~= old(s)@ + padded2(n as int));
}

/// Appends the line that lists the birthday `b`.
pub fn push_birthday_line(s: &mut String, b: &Birthday)
    ensures
        final(s)@ == old(s)@ + birthday_line(*b),
{
    s.append("- ");
    s.append(b.name.as_str());
    s.append(": ");
    push_padded2(s, b.day);
    s.append("/");
    push_padded2(s, b.month);
    s.append(" (id: ");
    push_int(s, b.id);
    s.append(") (reminder: ");
    push_int(s, b.reminder);
    s.append(")\n");
    assert(s@ =~= old(s)@ + birthday_line(*b));
}

/// The text `header` followed by the line of each birthday of `bths`, in order.
pub fn birthdays_text(header: &str, bths: &Vec<Birthday>) -> (t: String)
    ensures
        t@ == header@ + birthday_lines(bths@),
{
    let mut t = String::from_str(header);
    let mut i: usize = 0;
    while i < bths.len()
        invariant
            i <= bths.len(),
            t@ == header@ + birthday_lines(bths@.take(i as int)),
        decreases bths.len() - i,
    {
        push_birthday_line(&mut t, &bths[i]);
        assert(bths@.take(i + 1).drop_last() =~= bths@.take(i as int));
        assert(t@ =~= header@ + birthday_lines(bths@.take(i + 1)));
        i = i + 1;
    }
    assert(bths@.take(bths.len() as int) =~= bths@);
    t
}

} // verus!
