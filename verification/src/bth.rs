//! Birthdays: the record, its validity rule, the comparison of dates, and the
//! choice of the birthdays whose reminder is due.

use vstd::prelude::*;
use chrono::{Datelike, TimeZone};
use crate::order::pair_order;
use crate::calendar::{in_date_range, near_utc_date};
use crate::sort::{ListOrder, stably_sorted, stable_sort};

verus! {

/// One birthday that a user asked to be reminded of: a name, a day and a
/// month, how many days ahead to remind, and the id it is stored under.
#[derive(Debug)]
pub struct Birthday {
    pub name: String,
    pub day: i32,
    pub month: i32,
    pub reminder: i32,
    pub id: i32,
}

/// The date of `a` compared with the date `month`/`day`: by month, then by day.
pub open spec fn date_order(a: Birthday, month: i32, day: i32) -> core::cmp::Ordering {
    pair_order(a.month, a.day, month, day)
}

/// Compares the date of a birthday with the date `month`/`day`: by month,
/// then by day.
pub fn compare_bth_date(a: &Birthday, month: i32, day: i32) -> (o: core::cmp::Ordering)
    ensures
        o == date_order(*a, month, day),
{
    if a.month < month {
        core::cmp::Ordering::Less
    } else if a.month > month {
        core::cmp::Ordering::Greater
    } else if a.day < day {
        core::cmp::Ordering::Less
    } else if a.day > day {
        core::cmp::Ordering::Greater
    } else {
        core::cmp::Ordering::Equal
    }
}

/// Compares the dates of two birthdays: by month, then by day.
pub fn compare_bths(a: &Birthday, b: &Birthday) -> (o: core::cmp::Ordering)
    ensures
        o == date_order(*a, b.month, b.day),
{
    compare_bth_date(a, b.month, b.day)
}

/// The last day a birthday may fall on in the given month (1 to 12); February
/// counts 29 days.
pub open spec fn last_day_of_month(month: i32) -> i32 {
    if month == 2 {
        29
    } else if month == 4 || month == 6 || month == 9 || month == 11 {
        30
    } else {
        31
    }
}

/// A birthday is valid when its month is 1 to 12, its day lies from 0 to the
/// last day of that month, its reminder is not negative, and its name is not
/// empty.
pub open spec fn valid_birthday(a: Birthday) -> bool {
    &&& 1 <= a.month <= 12
    &&& 0 <= a.day <= last_day_of_month(a.month)
    &&& a.reminder >= 0
    &&& a.name@.len() > 0
}

/// A birthday is valid exactly when its reminder is not negative, its name
/// not empty, and its day lies from 0 to the length of its month in the
/// calendar: 31 days for January, March, May, July, August, October and
/// December, 30 for April, June, September and November, 29 for February;
/// any other month makes it invalid.
pub proof fn lemma_valid_birthday_calendar(a: Birthday)
    ensures
        valid_birthday(a) == (a.reminder >= 0 && a.name@.len() > 0 && 0 <= a.day && (((a.month == 1
            || a.month == 3 || a.month == 5 || a.month == 7 || a.month == 8 || a.month == 10
            || a.month == 12) && a.day <= 31) || ((a.month == 4 || a.month == 6 || a.month == 9
            || a.month == 11) && a.day <= 30) || (a.month == 2 && a.day <= 29))),
{
}

/// Tells whether a birthday is valid (see `valid_birthday`).
pub fn check_bth(a: &Birthday) -> (ok: bool)
    ensures
        ok == valid_birthday(*a),
{
    let last_day: i32 = match a.month {
        1 => 31,
        2 => 29,
        3 => 31,
        4 => 30,
        5 => 31,
        6 => 30,
        7 => 31,
        8 => 31,
        9 => 30,
        10 => 31,
        11 => 30,
        12 => 31,
        _ => {
            return false;
        },
    };
    if a.day > last_day {
        return false;
    }
    if a.day < 0 {
        return false;
    }
    if a.reminder < 0 {
        return false;
    }
    if a.name.as_str().is_empty() {
        return false;
    }
    true
}

/// A birthday is to be reminded of when its date is not before today's
/// date and not after the date its reminder reaches.
pub open spec fn reminded(
    bt: Birthday,
    today_month: i32,
    today_day: i32,
    until_month: i32,
    until_day: i32,
) -> bool {
    date_order(bt, today_month, today_day) != core::cmp::Ordering::Less
        && date_order(bt, until_month, until_day) != core::cmp::Ordering::Greater
}

/// A birthday is reminded of exactly when its date, compared month first and
/// then day, is not before today's date and not after the date its reminder
/// reaches; a birthday in a month before the reach month is never after the
/// reach date, whatever its day.
pub proof fn lemma_reminded_window(
    bt: Birthday,
    today_month: i32,
    today_day: i32,
    until_month: i32,
    until_day: i32,
)
    ensures
        reminded(bt, today_month, today_day, until_month, until_day) == ((bt.month > today_month || (
        bt.month == today_month && bt.day >= today_day)) && (bt.month < until_month || (bt.month
            == until_month && bt.day <= until_day))),
{
}

/// Tells whether a birthday is to be reminded of today, given today's date
/// and the date `until_month`/`until_day` that its reminder reaches.
pub fn is_reminded(
    bt: &Birthday,
    today_month: i32,
    today_day: i32,
    until_month: i32,
    until_day: i32,
) -> (r: bool)
    ensures
        r == reminded(*bt, today_month, today_day, until_month, until_day),
{
    let from_today = compare_bth_date(bt, today_month, today_day);
    let to_until = compare_bth_date(bt, until_month, until_day);
    !matches!(from_today, core::cmp::Ordering::Less) && !matches!(to_until, core::cmp::Ordering::Greater)
}

/// Calls chrono's `Local.timestamp_opt` (with `LocalResult::single`) on the
/// instant `now` (seconds since the Unix epoch), adds `TimeDelta::days(days)`
/// with `DateTime::checked_add_signed`, and reads the local month and day of
/// the result with `Datelike::month` and `Datelike::day`. Claimed of it:
/// - when `now` and `now + 86400 * days` lie in `in_date_range`, it gives a
///   date: chrono fails only outside its range of years -262143 to 262142;
/// - a date it gives is that of the instant `now + 86400 * days` in the
///   machine's time zone, so `near_utc_date` of that instant: chrono keeps
///   every offset from UTC below a day (`FixedOffset::east_opt`);
/// - its month lies from 1 to 12 and its day from 1 to 31.
/// Which of the neighbouring dates comes out is not stated: it depends on the
/// time zone of the machine and its daylight saving rules.
#[verifier::external_body]
fn local_month_day_after_days(now: i64, days: i32) -> (r: Option<(u32, u32)>)
    ensures
        in_date_range(now as int) && in_date_range(now + 86400 * days) ==> r is Some,
        r matches Some(md) ==> near_utc_date(md, now + 86400 * days),
        r matches Some(md) ==> 1 <= md.0 <= 12 && 1 <= md.1 <= 31,
{
    match chrono::Local.timestamp_opt(now, 0).single() {
        Some(today) => match today.checked_add_signed(chrono::Duration::days(i64::from(days))) {
            Some(later) => Some((later.month(), later.day())),
            None => None,
        },
        None => None,
    }
}

/// The birthdays of `pending`, in their order, that are to be reminded of on
/// the day `today` (month, day); each comes with the date (month, day) that
/// its reminder reaches.
pub open spec fn reminded_pairs(pending: Seq<(Birthday, (u32, u32))>, today: (u32, u32)) -> Seq<Birthday>
    decreases pending.len(),
{
    if pending.len() == 0 {
        Seq::empty()
    } else {
        let p = pending.last();
        let rest = reminded_pairs(pending.drop_last(), today);
        if reminded(p.0, today.0 as i32, today.1 as i32, p.1.0 as i32, p.1.1 as i32) {
            rest.push(p.0)
        } else {
            rest
        }
    }
}

/// Each birthday of `bths` paired with the date of the same place in `reaches`.
pub open spec fn with_reaches(bths: Seq<Birthday>, reaches: Seq<(u32, u32)>) -> Seq<(Birthday, (u32, u32))> {
    Seq::new(bths.len(), |i: int| (bths[i], reaches[i]))
}

/// Every birthday chosen to be reminded of is one of those given, and lies
/// from today to the date that its reminder reaches.
pub proof fn lemma_reminded_pairs_chosen(pending: Seq<(Birthday, (u32, u32))>, today: (u32, u32), i: int)
    requires
        0 <= i < reminded_pairs(pending, today).len(),
    ensures
        exists|j: int|
            0 <= j < pending.len() && #[trigger] pending[j].0 == reminded_pairs(pending, today)[i] && reminded(
                pending[j].0,
                today.0 as i32,
                today.1 as i32,
                pending[j].1.0 as i32,
                pending[j].1.1 as i32,
            ),
    decreases pending.len(),
{
    let rest = reminded_pairs(pending.drop_last(), today);
    if i < rest.len() {
        lemma_reminded_pairs_chosen(pending.drop_last(), today, i);
        let j = choose|j: int|
            0 <= j < pending.drop_last().len() && #[trigger] pending.drop_last()[j].0 == rest[i] && reminded(
                pending.drop_last()[j].0,
                today.0 as i32,
                today.1 as i32,
                pending.drop_last()[j].1.0 as i32,
                pending.drop_last()[j].1.1 as i32,
            );
        assert(pending[j] == pending.drop_last()[j]);
    } else {
        assert(pending[pending.len() - 1] == pending.last());
    }
}

/// Every birthday whose date lies from today to the date its reminder
/// reaches, compared month first and then day, is chosen.
pub proof fn lemma_reminded_pairs_complete(pending: Seq<(Birthday, (u32, u32))>, today: (u32, u32), j: int)
    requires
        0 <= j < pending.len(),
        1 <= today.0 <= 12,
        1 <= today.1 <= 31,
        1 <= pending[j].1.0 <= 12,
        1 <= pending[j].1.1 <= 31,
        pending[j].0.month > today.0 || (pending[j].0.month == today.0 && pending[j].0.day >= today.1),
        pending[j].0.month < pending[j].1.0 || (pending[j].0.month == pending[j].1.0 && pending[j].0.day
            <= pending[j].1.1),
    ensures
        reminded_pairs(pending, today).contains(pending[j].0),
    decreases pending.len(),
{
    let rest = reminded_pairs(pending.drop_last(), today);
    if j < pending.len() - 1 {
        assert(pending.drop_last()[j] == pending[j]);
        lemma_reminded_pairs_complete(pending.drop_last(), today, j);
        let k = choose|k: int| 0 <= k < rest.len() && rest[k] == pending[j].0;
        assert(reminded_pairs(pending, today)[k] == rest[k]);
    } else {
        let p = pending.last();
        assert(p == pending[j]);
        assert(reminded(p.0, today.0 as i32, today.1 as i32, p.1.0 as i32, p.1.1 as i32));
        let all = reminded_pairs(pending, today);
        assert(all[all.len() - 1] == p.0);
    }
}

/// From birthdays paired with the date (month, day) that their reminder
/// reaches, the birthdays to remind of on the day `today` (month, day), in
/// their order: those whose date lies from today to the date their reminder
/// reaches.
pub fn choose_reminded(pending: Vec<(Birthday, (u32, u32))>, today: (u32, u32)) -> (v: Vec<Birthday>)
    ensures
        v@ == reminded_pairs(pending@, today),
{
    let ghost all = pending@;
    let total: usize = pending.len();
    let mut rest = pending;
    let mut output_vec: Vec<Birthday> = Vec::new();
    let mut i: usize = 0;
    while rest.len() > 0
        invariant
            all == pending@,
            all.len() == total,
            i + rest.len() == all.len(),
            rest@ == all.skip(i as int),
            output_vec@ == reminded_pairs(all.take(i as int), today),
        decreases rest.len(),
    {
        let p = rest.remove(0);
        assert(p == all[i as int]);
        assert(all.take(i + 1).drop_last() =~= all.take(i as int));
        assert(all.take(i + 1).last() == p);
        let (bt, until) = p;
        if is_reminded(&bt, today.0 as i32, today.1 as i32, until.0 as i32, until.1 as i32) {
            output_vec.push(bt);
        }
        assert(rest@ =~= all.skip(i + 1));
        i = i + 1;
    }
    assert(all.take(i as int) =~= all);
    output_vec
}

/// The instant `now` and the instant each reminder of `bths` reaches from it
/// lie in `in_date_range`.
pub open spec fn reminders_in_range(bths: Seq<Birthday>, now: int) -> bool {
    &&& in_date_range(now)
    &&& forall|i: int| 0 <= i < bths.len() ==> in_date_range(now + 86400 * #[trigger] bths[i].reminder)
}

/// The birthdays to remind a user of at the instant `now` (seconds since the
/// Unix epoch), in the order given: those whose date lies from today's local
/// date to the local date that their reminder reaches, `reminder` days after
/// `now`. The result is `reminded_pairs` over today's date, which is near the
/// UTC date of `now`, and over a date for each birthday, near the UTC date of
/// `now` plus its reminder in days (which neighbour the machine's time zone
/// picks is left open). `None` only when one of those instants lies outside
/// `in_date_range`.
pub fn get_reminded_birthday(bths: Vec<Birthday>, now: i64) -> (r: Option<Vec<Birthday>>)
    ensures
        reminders_in_range(bths@, now as int) ==> r is Some,
        r matches Some(v) ==> exists|today: (u32, u32), reaches: Seq<(u32, u32)>|
            #[trigger] reminded_pairs(with_reaches(bths@, reaches), today) == v@
                && reaches.len() == bths@.len()
                && near_utc_date(today, now as int)
                && 1 <= today.0 <= 12 && 1 <= today.1 <= 31
                && forall|i: int|
                    0 <= i < bths@.len() ==> near_utc_date(
                        #[trigger] reaches[i],
                        now + 86400 * bths@[i].reminder,
                    ),
{
    let today = match local_month_day_after_days(now, 0) {
        Some(md) => md,
        None => {
            return None;
        },
    };
    let ghost all = bths@;
    let ghost mut reaches: Seq<(u32, u32)> = Seq::empty();
    let total: usize = bths.len();
    let mut rest = bths;
    let mut pending: Vec<(Birthday, (u32, u32))> = Vec::new();
    let mut i: usize = 0;
    while rest.len() > 0
        invariant
            all == bths@,
            all.len() == total,
            i + rest.len() == all.len(),
            rest@ == all.skip(i as int),
            reaches.len() == i,
            pending@ == with_reaches(all.take(i as int), reaches),
            forall|j: int| 0 <= j < i ==> near_utc_date(#[trigger] reaches[j], now + 86400 * all[j].reminder),
        decreases rest.len(),
    {
        let bt = rest.remove(0);
        assert(bt == all[i as int]);
        let until = match local_month_day_after_days(now, bt.reminder) {
            Some(md) => md,
            None => {
                assert(!in_date_range(now + 86400 * all[i as int].reminder) || !in_date_range(now as int));
                return None;
            },
        };
        pending.push((bt, until));
        proof {
            reaches = reaches.push(until);
        }
        assert(pending@ =~= with_reaches(all.take(i + 1), reaches));
        assert(rest@ =~= all.skip(i + 1));
        i = i + 1;
    }
    assert(all.take(i as int) =~= all);
    let chosen = choose_reminded(pending, today);
    assert(reminded_pairs(with_reaches(all, reaches), today) == chosen@);
    Some(chosen)
}

} // verus!

verus! {

/// Sorts birthdays stably by name, ASCII letters compared without regard to
/// case (see `ListOrder::Name`).
pub fn sort_bths_name(bths: &mut Vec<Birthday>)
    ensures
        stably_sorted(ListOrder::Name, old(bths)@, final(bths)@),
        final(bths)@.to_multiset() == old(bths)@.to_multiset(),
{
    stable_sort(bths, &ListOrder::Name);
}

/// Sorts birthdays stably by date: month, then day.
pub fn sort_bths_date(bths: &mut Vec<Birthday>)
    ensures
        stably_sorted(ListOrder::Date, old(bths)@, final(bths)@),
        final(bths)@.to_multiset() == old(bths)@.to_multiset(),
{
    stable_sort(bths, &ListOrder::Date);
}

/// Sorts birthdays stably from the date `month`/`day` on: those on that date
/// first, then those later in the year, then those earlier, each group by
/// date.
pub fn sort_bths_after_date(bths: &mut Vec<Birthday>, month: i32, day: i32)
    ensures
        stably_sorted(ListOrder::AfterDate(month, day), old(bths)@, final(bths)@),
        final(bths)@.to_multiset() == old(bths)@.to_multiset(),
{
    stable_sort(bths, &ListOrder::AfterDate(month, day));
}

} // verus!
