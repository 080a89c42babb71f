//! Times of day, and the choice of the users whose reminder time has come.

use vstd::prelude::*;
use crate::order::{pair_order, pair_before};

verus! {

/// A time of day, given by its hour and minute.
#[allow(non_camel_case_types)]
#[derive(Debug)]
pub struct time {
    pub hour: i32,
    pub minute: i32,
}

/// `a` comes strictly before `b` within a day: by hour, then by minute.
pub open spec fn time_before(a: time, b: time) -> bool {
    pair_before(a.hour, a.minute, b.hour, b.minute)
}

/// Whether `c` lies strictly inside the window that opens at `a` and closes
/// at `b`. When `b` is before `a` the window runs past midnight; when `a` and
/// `b` are the same time, the window holds that time alone.
pub open spec fn time_between(a: time, b: time, c: time) -> bool {
    if time_before(a, b) {
        time_before(a, c) && time_before(c, b)
    } else if a == b {
        c == a
    } else {
        time_before(a, c) || time_before(c, b)
    }
}

/// Compares two times of day: by hour, then by minute.
pub fn comp_mytime(a: &time, b: &time) -> (o: core::cmp::Ordering)
    ensures
        o == pair_order(a.hour, a.minute, b.hour, b.minute),
{
    if a.hour < b.hour {
        core::cmp::Ordering::Less
    } else if a.hour > b.hour {
        core::cmp::Ordering::Greater
    } else if a.minute < b.minute {
        core::cmp::Ordering::Less
    } else if a.minute > b.minute {
        core::cmp::Ordering::Greater
    } else {
        core::cmp::Ordering::Equal
    }
}

/// Tells whether `c` lies strictly inside the window from `a` to `b`
/// (see `time_between`).
pub fn between_time(a: &time, b: &time, c: &time) -> (r: bool)
    ensures
        r == time_between(*a, *b, *c),
{
    let comp_ab = comp_mytime(a, b);
    let comp_ac = comp_mytime(a, c);
    let comp_bc = comp_mytime(b, c);
    match comp_ab {
        core::cmp::Ordering::Less => {
            matches!(comp_ac, core::cmp::Ordering::Less) && matches!(comp_bc, core::cmp::Ordering::Greater)
        },
        core::cmp::Ordering::Equal => {
            matches!(comp_ac, core::cmp::Ordering::Equal)
        },
        core::cmp::Ordering::Greater => {
            matches!(comp_ac, core::cmp::Ordering::Less) || matches!(comp_bc, core::cmp::Ordering::Greater)
        },
    }
}

/// For two different window ends `a` and `b`, every time other than `a` and
/// `b` lies in exactly one of the windows from `a` to `b` and from `b` to `a`.
pub proof fn lemma_windows_split_the_day(a: time, b: time, c: time)
    requires
        a != b,
        c != a,
        c != b,
    ensures
        time_between(a, b, c) != time_between(b, a, c),
{
}

/// When `a` comes before `b` in the day (by hour, then minute), the window
/// from `a` to `b` holds exactly the times strictly after `a` and strictly
/// before `b`, both compared by hour, then minute.
pub proof fn lemma_window_inside_the_day(a: time, b: time, c: time)
    requires
        a.hour < b.hour || (a.hour == b.hour && a.minute < b.minute),
    ensures
        time_between(a, b, c) == ((a.hour < c.hour || (a.hour == c.hour && a.minute < c.minute)) && (c.hour
            < b.hour || (c.hour == b.hour && c.minute < b.minute))),
{
}

/// When `b` comes before `a` in the day, the window from `a` to `b` runs past
/// midnight: it holds exactly the times strictly after `a` and the times
/// strictly before `b`.
pub proof fn lemma_window_across_midnight(a: time, b: time, c: time)
    requires
        b.hour < a.hour || (b.hour == a.hour && b.minute < a.minute),
    ensures
        time_between(a, b, c) == ((a.hour < c.hour || (a.hour == c.hour && a.minute < c.minute)) || (c.hour
            < b.hour || (c.hour == b.hour && c.minute < b.minute))),
{
}

/// The window from a time to itself holds that time and no other.
pub proof fn lemma_empty_window(a: time, c: time)
    ensures
        time_between(a, a, c) == (c == a),
{
}

/// In a row at `time`, the user id is needed only when the time lies in the
/// window; the id may be missing (`None`, it could not be read).
pub open spec fn row_in_window(prev: time, curr: time, r: (i32, i32, Option<i32>)) -> bool {
    time_between(prev, curr, time { hour: r.0, minute: r.1 })
}

/// The users whose reminder time lies in the window from `prev` to `curr`,
/// in the order of `rows`; each row is an hour, a minute and a user id, and a
/// row with the user id -1 is never chosen. `None` when a row inside the
/// window has no user id.
pub open spec fn due_user_ids(prev: time, curr: time, rows: Seq<(i32, i32, Option<i32>)>) -> Option<Seq<i32>>
    decreases rows.len(),
{
    if rows.len() == 0 {
        Some(Seq::empty())
    } else {
        let r = rows.last();
        match due_user_ids(prev, curr, rows.drop_last()) {
            None => None,
            Some(rest) => if row_in_window(prev, curr, r) {
                match r.2 {
                    None => None,
                    Some(id) => if id != -1 {
                        Some(rest.push(id))
                    } else {
                        Some(rest)
                    },
                }
            } else {
                Some(rest)
            },
        }
    }
}

/// Every chosen id is not -1 and belongs to a row whose time lies in the
/// window from `prev` to `curr`.
pub proof fn lemma_due_user_ids_chosen(prev: time, curr: time, rows: Seq<(i32, i32, Option<i32>)>, i: int)
    requires
        due_user_ids(prev, curr, rows) is Some,
        0 <= i < due_user_ids(prev, curr, rows)->0.len(),
    ensures
        due_user_ids(prev, curr, rows)->0[i] != -1,
        exists|j: int|
            0 <= j < rows.len() && #[trigger] rows[j].2 == Some(due_user_ids(prev, curr, rows)->0[i])
                && row_in_window(prev, curr, rows[j]),
    decreases rows.len(),
{
    let rest = due_user_ids(prev, curr, rows.drop_last())->0;
    if i < rest.len() {
        lemma_due_user_ids_chosen(prev, curr, rows.drop_last(), i);
        let j = choose|j: int|
            0 <= j < rows.drop_last().len() && #[trigger] rows.drop_last()[j].2 == Some(rest[i])
                && row_in_window(prev, curr, rows.drop_last()[j]);
        assert(rows[j] == rows.drop_last()[j]);
    } else {
        assert(rows[rows.len() - 1] == rows.last());
    }
}

/// Every row inside the window whose user id is there and is not -1 has its
/// id among the chosen ids.
pub proof fn lemma_due_user_ids_complete(prev: time, curr: time, rows: Seq<(i32, i32, Option<i32>)>, j: int)
    requires
        due_user_ids(prev, curr, rows) is Some,
        0 <= j < rows.len(),
        time_between(prev, curr, time { hour: rows[j].0, minute: rows[j].1 }),
        rows[j].2 is Some,
        rows[j].2->0 != -1,
    ensures
        due_user_ids(prev, curr, rows)->0.contains(rows[j].2->0),
    decreases rows.len(),
{
    let rest = due_user_ids(prev, curr, rows.drop_last());
    if j < rows.len() - 1 {
        assert(rows.drop_last()[j] == rows[j]);
        lemma_due_user_ids_complete(prev, curr, rows.drop_last(), j);
        let k = choose|k: int| 0 <= k < rest->0.len() && rest->0[k] == rows[j].2->0;
        let all = due_user_ids(prev, curr, rows)->0;
        assert(all[k] == rest->0[k]);
    } else {
        let all = due_user_ids(prev, curr, rows)->0;
        assert(all[all.len() - 1] == rows[j].2->0);
    }
}

/// From the stored reminder times (hour, minute, user id), the ids of the
/// users whose reminder time lies in the window from `prev` to `curr`; `None`
/// when a row inside the window has no user id.
pub fn get_all_config(prev: &time, curr: &time, rows: &Vec<(i32, i32, Option<i32>)>) -> (ids: Option<Vec<i32>>)
    ensures
        match ids {
            Some(v) => due_user_ids(*prev, *curr, rows@) == Some(v@),
            None => due_user_ids(*prev, *curr, rows@) is None,
        },
{
    let mut ids: Vec<i32> = Vec::new();
    let mut i: usize = 0;
    while i < rows.len()
        invariant
            i <= rows.len(),
            due_user_ids(*prev, *curr, rows@.take(i as int)) == Some(ids@),
        decreases rows.len() - i,
    {
        let row = rows[i];
        let conf_time = time { hour: row.0, minute: row.1 };
        assert(rows@.take(i + 1).drop_last() =~= rows@.take(i as int));
        assert(rows@.take(i + 1).last() == row);
        let id: i32 = if between_time(prev, curr, &conf_time) {
            match row.2 {
                Some(user) => user,
                None => {
                    proof {
                        lemma_due_none_stays(*prev, *curr, rows@, i as int + 1);
                    }
                    return None;
                },
            }
        } else {
            -1
        };
        if id != -1 {
            ids.push(id);
        }
        i = i + 1;
    }
    assert(rows@.take(rows.len() as int) =~= rows@);
    Some(ids)
}

/// Once a prefix of the rows has no answer, neither have the rows.
proof fn lemma_due_none_stays(prev: time, curr: time, rows: Seq<(i32, i32, Option<i32>)>, n: int)
    requires
        0 <= n <= rows.len(),
        due_user_ids(prev, curr, rows.take(n)) is None,
    ensures
        due_user_ids(prev, curr, rows) is None,
    decreases rows.len() - n,
{
    if n < rows.len() {
        assert(rows.take(n + 1).drop_last() =~= rows.take(n));
        lemma_due_none_stays(prev, curr, rows, n + 1);
    } else {
        assert(rows.take(n) =~= rows);
    }
}

} // verus!
