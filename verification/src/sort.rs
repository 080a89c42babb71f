//! The orders in which a user's birthdays are listed, and the stable sort
//! that puts them in one of these orders.
//!
//! Each order gives every birthday a key, a sequence of integers, and orders
//! the keys lexicographically (a proper prefix comes first). Birthdays with
//! the same key keep the order in which they were given.

use vstd::prelude::*;
use crate::bth::{Birthday, date_order, compare_bth_date};

verus! {

/// The order in which to list birthdays.
pub enum ListOrder {
    /// By name, letters compared without regard to ASCII case.
    Name,
    /// By date: month, then day.
    Date,
    /// From the date `month`/`day` on: the birthdays on that date first, then
    /// those later in the year, then those earlier; each group by date.
    AfterDate(i32, i32),
}

/// The code of a character once ASCII lower-case letters are made upper case.
pub open spec fn upper_code(c: char) -> i64 {
    if 97 <= (c as u32) <= 122 {
        (c as u32 - 32) as i64
    } else {
        (c as u32) as i64
    }
}

/// A name as the codes of its characters, ASCII letters made upper case.
/// Comparing these sequences lexicographically compares the upper-cased
/// names as strings are compared (UTF-8 keeps the order of the codes).
pub open spec fn name_key(name: Seq<char>) -> Seq<i64> {
    name.map_values(|c: char| upper_code(c))
}

/// The key of a name has one entry per character of the name: entry `i` is
/// the code of character `i`, lowered by 32 when it is an ASCII lower-case
/// letter ('a' to 'z'), so whole names are compared character by character.
pub proof fn lemma_name_key_entries(name: Seq<char>)
    ensures
        name_key(name).len() == name.len(),
        forall|i: int|
            0 <= i < name.len() ==> #[trigger] name_key(name)[i] == (if 97 <= (name[i] as u32) <= 122 {
                (name[i] as u32) - 32
            } else {
                (name[i] as u32) as int
            }),
{
}

/// Which group a birthday is listed in from the date `month`/`day` on: 0 on
/// that date, 1 later in the year (a later month, or the same month and a
/// later day), 2 earlier.
pub open spec fn group_from_date(b: Birthday, month: i32, day: i32) -> int {
    if b.month == month && b.day == day {
        0
    } else if b.month > month || (b.month == month && b.day > day) {
        1
    } else {
        2
    }
}

/// Where a birthday falls relative to the date `month`/`day`: 0 on that
/// date, 1 later in the year, 2 earlier.
pub open spec fn after_date_rank(b: Birthday, month: i32, day: i32) -> i64 {
    match date_order(b, month, day) {
        core::cmp::Ordering::Equal => 0,
        core::cmp::Ordering::Greater => 1,
        core::cmp::Ordering::Less => 2,
    }
}

/// The key of a birthday by its day alone.
pub open spec fn day_key(b: Birthday) -> Seq<i64> {
    seq![b.day as i64]
}

/// The key of a birthday by date: month, then day.
pub open spec fn date_key(b: Birthday) -> Seq<i64> {
    seq![b.month as i64, b.day as i64]
}

/// The key of a birthday in the given order.
pub open spec fn order_key(how: ListOrder, b: Birthday) -> Seq<i64> {
    match how {
        ListOrder::Name => name_key(b.name@),
        ListOrder::Date => date_key(b),
        ListOrder::AfterDate(month, day) => seq![after_date_rank(b, month, day)] + date_key(b),
    }
}

/// Lexicographic order on keys: `a` is not after `b`.
pub open spec fn lex_le(a: Seq<i64>, b: Seq<i64>) -> bool
    decreases a.len(),
{
    if a.len() == 0 {
        true
    } else if b.len() == 0 {
        false
    } else if a[0] != b[0] {
        a[0] < b[0]
    } else {
        lex_le(a.drop_first(), b.drop_first())
    }
}

/// `a` and `b` agree before place `k` and `a` is smaller at place `k`.
pub open spec fn smaller_at(a: Seq<i64>, b: Seq<i64>, k: int) -> bool {
    0 <= k < a.len() && k < b.len() && a.take(k) == b.take(k) && a[k] < b[k]
}

/// Key `a` is not after key `b` exactly when `a` is a prefix of `b`, or the
/// two first differ at some place where `a` is smaller.
pub proof fn lemma_lex_le_first_difference(a: Seq<i64>, b: Seq<i64>)
    ensures
        lex_le(a, b) == ((a.len() <= b.len() && a == b.take(a.len() as int)) || exists|k: int|
            #[trigger] smaller_at(a, b, k)),
    decreases a.len(),
{
    if a.len() == 0 {
        assert(a =~= b.take(0));
    } else if b.len() == 0 {
        assert forall|k: int| !#[trigger] smaller_at(a, b, k) by {}
    } else if a[0] != b[0] {
        if a[0] < b[0] {
            assert(a.take(0) =~= b.take(0));
            assert(smaller_at(a, b, 0));
        } else {
            assert forall|k: int| !#[trigger] smaller_at(a, b, k) by {
                if smaller_at(a, b, k) && k > 0 {
                    assert(a.take(k)[0] == b.take(k)[0]);
                }
            }
            if a.len() <= b.len() && a == b.take(a.len() as int) {
                assert(a[0] == b.take(a.len() as int)[0]);
            }
        }
    } else {
        let a1 = a.drop_first();
        let b1 = b.drop_first();
        lemma_lex_le_first_difference(a1, b1);
        if a.len() <= b.len() && a == b.take(a.len() as int) {
            assert(a1 =~= b1.take(a1.len() as int));
        }
        if a1.len() <= b1.len() && a1 == b1.take(a1.len() as int) {
            assert forall|i: int| 0 <= i < a.len() implies a[i] == #[trigger] b.take(a.len() as int)[i] by {
                if i > 0 {
                    assert(a[i] == a1[i - 1]);
                    assert(a1[i - 1] == b1.take(a1.len() as int)[i - 1]);
                }
            }
            assert(a =~= b.take(a.len() as int));
        }
        if exists|k: int| #[trigger] smaller_at(a1, b1, k) {
            let k = choose|k: int| #[trigger] smaller_at(a1, b1, k);
            assert(a.take(k + 1) =~= seq![a[0]] + a1.take(k));
            assert(b.take(k + 1) =~= seq![b[0]] + b1.take(k));
            assert(smaller_at(a, b, k + 1));
        }
        if exists|k: int| #[trigger] smaller_at(a, b, k) {
            let k = choose|k: int| #[trigger] smaller_at(a, b, k);
            assert(k > 0);
            assert(a1.take(k - 1) =~= a.take(k).drop_first());
            assert(b1.take(k - 1) =~= b.take(k).drop_first());
            assert(smaller_at(a1, b1, k - 1));
        }
    }
}

/// Every key is in order with itself.
pub proof fn lemma_lex_le_reflexive(a: Seq<i64>)
    ensures
        lex_le(a, a),
    decreases a.len(),
{
    if a.len() > 0 {
        lemma_lex_le_reflexive(a.drop_first());
    }
}

/// Any two keys are in order one way or the other.
pub proof fn lemma_lex_le_total(a: Seq<i64>, b: Seq<i64>)
    ensures
        lex_le(a, b) || lex_le(b, a),
    decreases a.len(),
{
    if a.len() > 0 && b.len() > 0 && a[0] == b[0] {
        lemma_lex_le_total(a.drop_first(), b.drop_first());
    }
}

/// Keys in order both ways are the same key.
pub proof fn lemma_lex_le_antisymmetric(a: Seq<i64>, b: Seq<i64>)
    requires
        lex_le(a, b),
        lex_le(b, a),
    ensures
        a == b,
    decreases a.len(),
{
    if a.len() > 0 {
        lemma_lex_le_antisymmetric(a.drop_first(), b.drop_first());
        assert(a =~= seq![a[0]] + a.drop_first());
        assert(b =~= seq![b[0]] + b.drop_first());
    } else {
        assert(b.len() == 0);
        assert(a =~= b);
    }
}

/// The order on keys is transitive.
pub proof fn lemma_lex_le_transitive(a: Seq<i64>, b: Seq<i64>, c: Seq<i64>)
    requires
        lex_le(a, b),
        lex_le(b, c),
    ensures
        lex_le(a, c),
    decreases a.len(),
{
    if a.len() > 0 && b.len() > 0 && c.len() > 0 && a[0] == b[0] && b[0] == c[0] {
        lemma_lex_le_transitive(a.drop_first(), b.drop_first(), c.drop_first());
    }
}

/// The birthdays of `s` are in the given order.
pub open spec fn sorted_by(how: ListOrder, s: Seq<Birthday>) -> bool {
    forall|i: int, j: int|
        0 <= i < j < s.len() ==> lex_le(#[trigger] order_key(how, s[i]), #[trigger] order_key(how, s[j]))
}

/// Holds of the birthdays whose key in the given order is `k`.
pub open spec fn has_key(how: ListOrder, k: Seq<i64>) -> spec_fn(Birthday) -> bool {
    |b: Birthday| order_key(how, b) == k
}

/// `res` is `orig` sorted stably into the given order: `res` is in order, and
/// for every key, the birthdays with that key are the same in `res` as in
/// `orig`, in the same order.
pub open spec fn stably_sorted(how: ListOrder, orig: Seq<Birthday>, res: Seq<Birthday>) -> bool {
    &&& sorted_by(how, res)
    &&& forall|k: Seq<i64>| #[trigger] res.filter(has_key(how, k)) == orig.filter(has_key(how, k))
}

fn upper_code_of(c: char) -> (u: i64)
    ensures
        u == upper_code(c),
{
    let code = c as u32;
    if 97 <= code && code <= 122 {
        (code - 32) as i64
    } else {
        code as i64
    }
}

fn name_key_of(name: &String) -> (k: Vec<i64>)
    ensures
        k@ == name_key(name@),
{
    let s = name.as_str();
    let n = s.unicode_len();
    let mut k: Vec<i64> = Vec::new();
    let mut i: usize = 0;
    while i < n
        invariant
            n == name@.len(),
            s@ == name@,
            i <= n,
            k@ =~= name_key(name@.take(i as int)),
        decreases n - i,
    {
        let c = s.get_char(i);
        k.push(upper_code_of(c));
        i = i + 1;
    }
    assert(name@.take(n as int) =~= name@);
    k
}

fn date_key_of(rank: Option<i64>, b: &Birthday) -> (k: Vec<i64>)
    ensures
        k@ == (match rank {
            Some(r) => seq![r] + date_key(*b),
            None => date_key(*b),
        }),
{
    let mut k: Vec<i64> = Vec::new();
    match rank {
        Some(r) => k.push(r),
        None => {},
    }
    k.push(b.month as i64);
    k.push(b.day as i64);
    assert(date_key(*b) =~= seq![b.month as i64, b.day as i64]);
    assert(k@ =~= (match rank {
        Some(r) => seq![r] + date_key(*b),
        None => date_key(*b),
    }));
    k
}

fn after_date_rank_of(b: &Birthday, month: i32, day: i32) -> (r: i64)
    ensures
        r == after_date_rank(*b, month, day),
{
    match compare_bth_date(b, month, day) {
        core::cmp::Ordering::Equal => 0i64,
        core::cmp::Ordering::Greater => 1i64,
        core::cmp::Ordering::Less => 2i64,
    }
}

/// The key of a birthday in the given order.
pub fn key_of(how: &ListOrder, b: &Birthday) -> (k: Vec<i64>)
    ensures
        k@ == order_key(*how, *b),
{
    match how {
        ListOrder::Name => name_key_of(&b.name),
        ListOrder::Date => date_key_of(None, b),
        ListOrder::AfterDate(month, day) => {
            let rank = after_date_rank_of(b, *month, *day);
            date_key_of(Some(rank), b)
        },
    }
}

/// Tells whether key `a` is not after key `b`.
pub fn key_le(a: &Vec<i64>, b: &Vec<i64>) -> (r: bool)
    ensures
        r == lex_le(a@, b@),
{
    let mut i: usize = 0;
    assert(a@.skip(0) =~= a@);
    assert(b@.skip(0) =~= b@);
    while i < a.len() && i < b.len() && a[i] == b[i]
        invariant
            i <= a.len(),
            i <= b.len(),
            lex_le(a@, b@) == lex_le(a@.skip(i as int), b@.skip(i as int)),
        decreases a.len() - i,
    {
        assert(a@.skip(i as int).drop_first() =~= a@.skip(i + 1));
        assert(b@.skip(i as int).drop_first() =~= b@.skip(i + 1));
        i = i + 1;
    }
    if i == a.len() {
        true
    } else if i == b.len() {
        false
    } else {
        a[i] < b[i]
    }
}

/// Inserting `x` into the sorted `out` at `p`, where every key before `p` is
/// not after the key of `x` and every key from `p` on is after it, keeps
/// `out` sorted and adds `x` last among the birthdays with its key.
proof fn lemma_insert_upper(how: ListOrder, out: Seq<Birthday>, p: int, x: Birthday)
    requires
        0 <= p <= out.len(),
        sorted_by(how, out),
        forall|j: int| 0 <= j < p ==> lex_le(#[trigger] order_key(how, out[j]), order_key(how, x)),
        forall|j: int| p <= j < out.len() ==> !lex_le(#[trigger] order_key(how, out[j]), order_key(how, x)),
    ensures
        sorted_by(how, out.insert(p, x)),
        forall|k: Seq<i64>|
            #[trigger] out.insert(p, x).filter(has_key(how, k)) == (if order_key(how, x) == k {
                out.filter(has_key(how, k)).push(x)
            } else {
                out.filter(has_key(how, k))
            }),
{
    let res = out.insert(p, x);
    let kx = order_key(how, x);
    out.insert_ensures(p, x);
    assert forall|i: int, j: int| 0 <= i < j < res.len() implies lex_le(
        #[trigger] order_key(how, res[i]),
        #[trigger] order_key(how, res[j]),
    ) by {
        if j < p {
            assert(res[i] == out[i] && res[j] == out[j]);
        } else if j == p {
            assert(res[i] == out[i]);
        } else if i < p {
            assert(res[i] == out[i] && res[j] == out[j - 1]);
            assert(lex_le(order_key(how, out[i]), kx));
            lemma_lex_le_total(order_key(how, out[j - 1]), kx);
            lemma_lex_le_transitive(order_key(how, out[i]), kx, order_key(how, out[j - 1]));
        } else if i == p {
            assert(res[j] == out[j - 1]);
            lemma_lex_le_total(order_key(how, out[j - 1]), kx);
        } else {
            assert(res[i] == out[i - 1] && res[j] == out[j - 1]);
        }
    }
    let front = out.subrange(0, p);
    let back = out.subrange(p, out.len() as int);
    assert(out =~= front + back);
    assert(res =~= front + (seq![x] + back));
    assert forall|k: Seq<i64>| #[trigger] res.filter(has_key(how, k)) == (if kx == k {
        out.filter(has_key(how, k)).push(x)
    } else {
        out.filter(has_key(how, k))
    }) by {
        let pred = has_key(how, k);
        Seq::filter_distributes_over_add(front, back, pred);
        Seq::filter_distributes_over_add(front, seq![x] + back, pred);
        back.lemma_filter_prepend(x, pred);
        if kx == k {
            assert forall|j: int| 0 <= j < back.len() implies !pred(#[trigger] back[j]) by {
                assert(back[j] == out[p + j]);
                lemma_lex_le_reflexive(kx);
            }
            back.lemma_all_neg_filter_empty(pred);
            assert(back.filter(pred) =~= Seq::<Birthday>::empty());
            assert(res.filter(pred) =~= out.filter(pred).push(x));
        } else {
            assert(res.filter(pred) =~= out.filter(pred));
        }
    }
}

/// Sorts `v` stably into the given order.
pub fn stable_sort(v: &mut Vec<Birthday>, how: &ListOrder)
    ensures
        stably_sorted(*how, old(v)@, final(v)@),
        final(v)@.to_multiset() == old(v)@.to_multiset(),
{
    let mut input: Vec<Birthday> = Vec::new();
    std::mem::swap(&mut input, v);
    let ghost orig = input@;
    let total: usize = input.len();
    let mut out: Vec<Birthday> = Vec::new();
    let mut i: usize = 0;
    proof {
        reveal(Seq::filter);
        assert(out@ =~= orig.take(0));
    }
    while input.len() > 0
        invariant
            orig.len() == total,
            i <= total,
            i + input.len() == total,
            input@ == orig.skip(i as int),
            sorted_by(*how, out@),
            forall|k: Seq<i64>|
                #[trigger] out@.filter(has_key(*how, k)) == orig.take(i as int).filter(has_key(*how, k)),
            out@.to_multiset() == orig.take(i as int).to_multiset(),
        decreases input.len(),
    {
        let x = input.remove(0);
        assert(x == orig[i as int]);
        let kx = key_of(how, &x);
        let mut p: usize = 0;
        while p < out.len() && key_le(&key_of(how, &out[p]), &kx)
            invariant
                p <= out.len(),
                kx@ == order_key(*how, x),
                forall|j: int| 0 <= j < p ==> lex_le(#[trigger] order_key(*how, out@[j]), kx@),
            decreases out.len() - p,
        {
            p = p + 1;
        }
        proof {
            assert forall|j: int| p <= j < out@.len() implies !lex_le(
                #[trigger] order_key(*how, out@[j]),
                kx@,
            ) by {
                if lex_le(order_key(*how, out@[j]), kx@) {
                    if j > p {
                        lemma_lex_le_transitive(order_key(*how, out@[p as int]), order_key(*how, out@[j]), kx@);
                    }
                }
            }
            lemma_insert_upper(*how, out@, p as int, x);
            let prefix = orig.take(i as int);
            assert(orig.take(i + 1) =~= prefix.push(x));
            assert(orig.take(i + 1).drop_last() =~= prefix);
            assert forall|k: Seq<i64>|
                #[trigger] orig.take(i + 1).filter(has_key(*how, k)) == (if order_key(*how, x) == k {
                    prefix.filter(has_key(*how, k)).push(x)
                } else {
                    prefix.filter(has_key(*how, k))
                }) by {
                reveal(Seq::filter);
            }
            vstd::seq_lib::to_multiset_insert(out@, p as int, x);
            vstd::seq_lib::to_multiset_build(prefix, x);
        }
        out.insert(p, x);
        assert(input@ =~= orig.skip(i + 1));
        i = i + 1;
    }
    assert(orig.take(total as int) =~= orig);
    *v = out;
}

/// If the first element of a sorted sequence has key `k`, and some element
/// of another sorted sequence has key `k` too, the first key of the second
/// sequence is not after `k`.
proof fn lemma_first_key_not_after(how: ListOrder, r: Seq<Birthday>, x: Birthday)
    requires
        sorted_by(how, r),
        r.contains(x),
    ensures
        lex_le(order_key(how, r[0]), order_key(how, x)),
{
    let j = choose|j: int| 0 <= j < r.len() && r[j] == x;
    if j == 0 {
        lemma_lex_le_reflexive(order_key(how, x));
    }
}

/// A stable sort has one outcome: two sequences that are both in the given
/// order, and hold, for every key, the same birthdays with that key in the
/// same order, are the same sequence.
pub proof fn lemma_sorted_same_runs_equal(how: ListOrder, r1: Seq<Birthday>, r2: Seq<Birthday>)
    requires
        sorted_by(how, r1),
        sorted_by(how, r2),
        forall|k: Seq<i64>| #[trigger] r1.filter(has_key(how, k)) == r2.filter(has_key(how, k)),
    ensures
        r1 == r2,
    decreases r1.len(),
{
    if r1.len() == 0 || r2.len() == 0 {
        if r1.len() != 0 || r2.len() != 0 {
            let (a, b) = if r1.len() != 0 { (r1, r2) } else { (r2, r1) };
            let k = order_key(how, a[0]);
            a.lemma_filter_contains(has_key(how, k), 0);
            assert(b.filter(has_key(how, k)) =~= b) by {
                reveal(Seq::filter);
            }
            assert(a.filter(has_key(how, k)).contains(a[0]));
            assert(false);
        }
        assert(r1 =~= r2);
    } else {
        let x1 = r1[0];
        let x2 = r2[0];
        let k1 = order_key(how, x1);
        let k2 = order_key(how, x2);
        r1.lemma_filter_contains(has_key(how, k1), 0);
        assert(r2.filter(has_key(how, k1)) == r1.filter(has_key(how, k1)));
        r2.lemma_filter_contains_rev(has_key(how, k1), x1);
        lemma_first_key_not_after(how, r2, x1);
        r2.lemma_filter_contains(has_key(how, k2), 0);
        assert(r1.filter(has_key(how, k2)) == r2.filter(has_key(how, k2)));
        r1.lemma_filter_contains_rev(has_key(how, k2), x2);
        lemma_first_key_not_after(how, r1, x2);
        lemma_lex_le_antisymmetric(k1, k2);
        let t1 = r1.drop_first();
        let t2 = r2.drop_first();
        assert(r1 =~= seq![x1] + t1);
        assert(r2 =~= seq![x2] + t2);
        t1.lemma_filter_prepend(x1, has_key(how, k1));
        t2.lemma_filter_prepend(x2, has_key(how, k1));
        assert(r1.filter(has_key(how, k1))[0] == x1);
        assert(r2.filter(has_key(how, k1))[0] == x2);
        assert forall|k: Seq<i64>| #[trigger] t1.filter(has_key(how, k)) == t2.filter(has_key(how, k)) by {
            t1.lemma_filter_prepend(x1, has_key(how, k));
            t2.lemma_filter_prepend(x2, has_key(how, k));
            assert(r1.filter(has_key(how, k)) == r2.filter(has_key(how, k)));
            let f1 = r1.filter(has_key(how, k));
            if k == k1 {
                assert(t1.filter(has_key(how, k)) =~= f1.drop_first());
                assert(t2.filter(has_key(how, k)) =~= f1.drop_first());
            } else {
                assert(t1.filter(has_key(how, k)) =~= f1);
                assert(t2.filter(has_key(how, k)) =~= f1);
            }
        }
        assert(sorted_by(how, t1)) by {
            assert forall|i: int, j: int| 0 <= i < j < t1.len() implies lex_le(
                #[trigger] order_key(how, t1[i]),
                #[trigger] order_key(how, t1[j]),
            ) by {
                assert(t1[i] == r1[i + 1] && t1[j] == r1[j + 1]);
            }
        }
        assert(sorted_by(how, t2)) by {
            assert forall|i: int, j: int| 0 <= i < j < t2.len() implies lex_le(
                #[trigger] order_key(how, t2[i]),
                #[trigger] order_key(how, t2[j]),
            ) by {
                assert(t2[i] == r2[i + 1] && t2[j] == r2[j + 1]);
            }
        }
        lemma_sorted_same_runs_equal(how, t1, t2);
    }
}

/// Sorting stably into an order has a single outcome.
pub proof fn lemma_stable_sort_unique(how: ListOrder, orig: Seq<Birthday>, r1: Seq<Birthday>, r2: Seq<Birthday>)
    requires
        stably_sorted(how, orig, r1),
        stably_sorted(how, orig, r2),
    ensures
        r1 == r2,
{
    assert forall|k: Seq<i64>| #[trigger] r1.filter(has_key(how, k)) == r2.filter(has_key(how, k)) by {
        assert(r1.filter(has_key(how, k)) == orig.filter(has_key(how, k)));
        assert(r2.filter(has_key(how, k)) == orig.filter(has_key(how, k)));
    }
    lemma_sorted_same_runs_equal(how, r1, r2);
}

/// Sorting birthdays that are already in the order leaves them as they are;
/// so sorting twice gives what sorting once gives.
pub proof fn lemma_sorting_sorted_keeps_it(how: ListOrder, s: Seq<Birthday>, r: Seq<Birthday>)
    requires
        sorted_by(how, s),
        stably_sorted(how, s, r),
    ensures
        r == s,
{
    lemma_sorted_same_runs_equal(how, r, s);
}

/// Holds of the birthdays whose date comes before the date `month`/`day`.
pub open spec fn before_date(month: i32, day: i32) -> spec_fn(Birthday) -> bool {
    |b: Birthday| date_order(b, month, day) == core::cmp::Ordering::Less
}

/// How many birthdays of `s` come before the date `month`/`day`.
pub open spec fn count_before(s: Seq<Birthday>, month: i32, day: i32) -> int {
    s.filter(before_date(month, day)).len() as int
}

/// In a list sorted by date, the birthdays before a given date form a prefix:
/// the first `k` of them, `k` being how many there are.
proof fn lemma_before_date_prefix(month: i32, day: i32, s: Seq<Birthday>)
    requires
        sorted_by(ListOrder::Date, s),
    ensures
        0 <= count_before(s, month, day) <= s.len(),
        s.filter(before_date(month, day)) == s.take(count_before(s, month, day)),
        forall|i: int| 0 <= i < count_before(s, month, day) ==> (before_date(month, day))(#[trigger] s[i]),
        forall|i: int| count_before(s, month, day) <= i < s.len() ==> !(before_date(month, day))(#[trigger] s[i]),
    decreases s.len(),
{
    reveal(Seq::filter);
    let bd = before_date(month, day);
    if s.len() == 0 {
        assert(s.take(count_before(s, month, day)) =~= s);
    } else {
        let t = s.drop_last();
        assert forall|i: int, j: int| 0 <= i < j < t.len() implies lex_le(
            #[trigger] order_key(ListOrder::Date, t[i]),
            #[trigger] order_key(ListOrder::Date, t[j]),
        ) by {
            assert(t[i] == s[i] && t[j] == s[j]);
        }
        lemma_before_date_prefix(month, day, t);
        let last = s.last();
        assert(s[s.len() - 1] == last);
        if bd(last) {
            assert forall|i: int| 0 <= i < t.len() implies bd(#[trigger] t[i]) by {
                assert(t[i] == s[i]);
                assert(lex_le(order_key(ListOrder::Date, s[i]), order_key(ListOrder::Date, s[s.len() - 1])));
                lemma_date_key_matches_compare(s[i], last);
            }
            assert(t.filter(bd).len() == t.len());
            assert(s.filter(bd) =~= s);
            assert(s.take(count_before(s, month, day)) =~= s);
        } else {
            assert(s.filter(bd) =~= s.take(count_before(s, month, day)));
            assert forall|i: int| count_before(s, month, day) <= i < s.len() implies !bd(#[trigger] s[i]) by {
                if i < t.len() {
                    assert(t[i] == s[i]);
                }
            }
        }
        assert forall|i: int| 0 <= i < s.filter(bd).len() implies bd(#[trigger] s[i]) by {
            if i < t.len() {
                assert(t[i] == s[i]);
            }
        }
    }
}

/// Two sequences that hold the same elements hold as many elements for which
/// a predicate holds.
pub proof fn lemma_filter_len_same_elements<A>(a: Seq<A>, b: Seq<A>, p: spec_fn(A) -> bool)
    requires
        a.to_multiset() == b.to_multiset(),
    ensures
        a.filter(p).len() == b.filter(p).len(),
    decreases a.len(),
{
    broadcast use vstd::seq_lib::group_to_multiset_ensures;
    reveal(Seq::filter);
    vstd::seq_lib::to_multiset_len(a);
    vstd::seq_lib::to_multiset_len(b);
    if a.len() == 0 {
        assert(b.len() == 0);
    } else {
        let x = a.last();
        let a1 = a.drop_last();
        assert(a =~= a1.push(x));
        assert(a.to_multiset().count(x) > 0);
        assert(b.contains(x));
        let j = choose|j: int| 0 <= j < b.len() && b[j] == x;
        let b1 = b.remove(j);
        vstd::seq_lib::to_multiset_remove(b, j);
        assert(a1.to_multiset() =~= b1.to_multiset());
        lemma_filter_len_same_elements(a1, b1, p);
        let front = b.subrange(0, j);
        let back = b.subrange(j + 1, b.len() as int);
        assert(b =~= front + (seq![x] + back));
        assert(b1 =~= front + back);
        Seq::filter_distributes_over_add(front, seq![x] + back, p);
        Seq::filter_distributes_over_add(front, back, p);
        back.lemma_filter_prepend(x, p);
    }
}

/// The date-sorted list turned to start at the date `month`/`day` is in the
/// order from that date on.
proof fn lemma_rotated_sorted(s: Seq<Birthday>, month: i32, day: i32)
    requires
        sorted_by(ListOrder::Date, s),
    ensures
        sorted_by(
            ListOrder::AfterDate(month, day),
            s.skip(count_before(s, month, day)) + s.take(count_before(s, month, day)),
        ),
{
    let bd = before_date(month, day);
    let how = ListOrder::AfterDate(month, day);
    lemma_before_date_prefix(month, day, s);
    let k = count_before(s, month, day);
    let n = s.len() - k;
    let t = s.skip(k) + s.take(k);
    assert forall|i: int, j: int| 0 <= i < j < t.len() implies lex_le(
        #[trigger] order_key(how, t[i]),
        #[trigger] order_key(how, t[j]),
    ) by {
        let ii = if i < n { i + k } else { i - n };
        let jj = if j < n { j + k } else { j - n };
        assert(t[i] == s[ii]);
        assert(t[j] == s[jj]);
        lemma_after_date_key_matches_compare(s[ii], s[jj], month, day);
        if ii < jj {
            assert(lex_le(order_key(ListOrder::Date, s[ii]), order_key(ListOrder::Date, s[jj])));
            lemma_date_key_matches_compare(s[ii], s[jj]);
        }
        assert(bd(s[ii]) == (ii < k));
        assert(bd(s[jj]) == (jj < k));
    }
}

/// Two birthdays have the same key from a date on exactly when they have the
/// same date key.
proof fn lemma_after_date_key_same(x: Birthday, b: Birthday, month: i32, day: i32)
    ensures
        (order_key(ListOrder::AfterDate(month, day), b) == order_key(ListOrder::AfterDate(month, day), x))
            == (order_key(ListOrder::Date, b) == order_key(ListOrder::Date, x)),
{
    let how = ListOrder::AfterDate(month, day);
    if order_key(how, b) == order_key(how, x) {
        assert(order_key(ListOrder::Date, b) =~= order_key(how, b).drop_first());
        assert(order_key(ListOrder::Date, x) =~= order_key(how, x).drop_first());
    }
    if order_key(ListOrder::Date, b) == order_key(ListOrder::Date, x) {
        lemma_same_date_key(x, b);
        assert(order_key(how, b) =~= order_key(how, x));
    }
}

/// Birthdays with the same date key fall on the same date.
proof fn lemma_same_date_key(x: Birthday, b: Birthday)
    requires
        order_key(ListOrder::Date, b) == order_key(ListOrder::Date, x),
    ensures
        b.month == x.month,
        b.day == x.day,
{
    assert(order_key(ListOrder::Date, b)[0] == order_key(ListOrder::Date, x)[0]);
    assert(order_key(ListOrder::Date, b)[1] == order_key(ListOrder::Date, x)[1]);
}

/// Turning the date-sorted list to start at a date keeps the birthdays with
/// the date of `x` in the order they have in the list.
#[verifier::spinoff_prover]
#[verifier::rlimit(40)]
proof fn lemma_rotated_date_run(s: Seq<Birthday>, month: i32, day: i32, x: Birthday)
    requires
        sorted_by(ListOrder::Date, s),
    ensures
        (s.skip(count_before(s, month, day)) + s.take(count_before(s, month, day))).filter(
            has_key(ListOrder::Date, order_key(ListOrder::Date, x)),
        ) == s.filter(has_key(ListOrder::Date, order_key(ListOrder::Date, x))),
{
    let bd = before_date(month, day);
    lemma_before_date_prefix(month, day, s);
    let k = count_before(s, month, day);
    let front = s.take(k);
    let back = s.skip(k);
    let q = has_key(ListOrder::Date, order_key(ListOrder::Date, x));
    assert(s =~= front + back);
    Seq::filter_distributes_over_add(front, back, q);
    Seq::filter_distributes_over_add(back, front, q);
    if bd(x) {
        assert forall|i: int| 0 <= i < back.len() implies !q(#[trigger] back[i]) by {
            assert(back[i] == s[i + k]);
            if q(back[i]) {
                lemma_same_date_key(x, back[i]);
            }
        }
        back.lemma_all_neg_filter_empty(q);
        assert(back.filter(q) =~= Seq::<Birthday>::empty());
    } else {
        assert forall|i: int| 0 <= i < front.len() implies !q(#[trigger] front[i]) by {
            assert(front[i] == s[i]);
            if q(front[i]) {
                lemma_same_date_key(x, front[i]);
            }
        }
        front.lemma_all_neg_filter_empty(q);
        assert(front.filter(q) =~= Seq::<Birthday>::empty());
    }
    assert((back + front).filter(q) =~= s.filter(q));
}

/// Turning the date-sorted list to start at a date keeps, for every key from
/// that date on, the birthdays with that key in the order of `orig`.
proof fn lemma_rotated_same_runs(orig: Seq<Birthday>, s: Seq<Birthday>, month: i32, day: i32, key: Seq<i64>)
    requires
        stably_sorted(ListOrder::Date, orig, s),
    ensures
        (s.skip(count_before(s, month, day)) + s.take(count_before(s, month, day))).filter(
            has_key(ListOrder::AfterDate(month, day), key),
        ) == orig.filter(has_key(ListOrder::AfterDate(month, day), key)),
{
    let how = ListOrder::AfterDate(month, day);
    let t = s.skip(count_before(s, month, day)) + s.take(count_before(s, month, day));
    let pk = has_key(how, key);
    if exists|x: Birthday| order_key(how, x) == key {
        let x = choose|x: Birthday| order_key(how, x) == key;
        let q = has_key(ListOrder::Date, order_key(ListOrder::Date, x));
        assert forall|b: Birthday| #[trigger] pk(b) == q(b) by {
            lemma_after_date_key_same(x, b, month, day);
        }
        assert(pk =~= q);
        assert(s.filter(q) == orig.filter(q));
        lemma_rotated_date_run(s, month, day, x);
    } else {
        assert forall|i: int| 0 <= i < t.len() implies !pk(#[trigger] t[i]) by {}
        assert forall|i: int| 0 <= i < orig.len() implies !pk(#[trigger] orig[i]) by {}
        t.lemma_all_neg_filter_empty(pk);
        orig.lemma_all_neg_filter_empty(pk);
        assert(t.filter(pk) =~= orig.filter(pk));
    }
}

/// Sorting from a date on gives the list sorted by date turned around so that
/// it starts at that date: with `k` the number of birthdays before the date,
/// the date-sorted list from place `k` on, followed by its first `k`
/// birthdays. With none before the date, both sorts give the same list.
pub proof fn lemma_after_date_sort_rotates(
    orig: Seq<Birthday>,
    s: Seq<Birthday>,
    r: Seq<Birthday>,
    month: i32,
    day: i32,
)
    requires
        stably_sorted(ListOrder::Date, orig, s),
        s.to_multiset() == orig.to_multiset(),
        stably_sorted(ListOrder::AfterDate(month, day), orig, r),
    ensures
        r == s.skip(count_before(orig, month, day)) + s.take(count_before(orig, month, day)),
        count_before(orig, month, day) == 0 ==> r == s,
{
    let how = ListOrder::AfterDate(month, day);
    lemma_filter_len_same_elements(s, orig, before_date(month, day));
    let k = count_before(s, month, day);
    let t = s.skip(k) + s.take(k);
    lemma_rotated_sorted(s, month, day);
    assert forall|key: Seq<i64>| #[trigger] t.filter(has_key(how, key)) == orig.filter(has_key(how, key)) by {
        lemma_rotated_same_runs(orig, s, month, day, key);
    }
    lemma_stable_sort_unique(how, orig, r, t);
    if k == 0 {
        assert(t =~= s);
    }
}

/// A list sorted by date has its birthdays in month order, and within a
/// month in day order.
pub proof fn lemma_date_sorted_by_month_then_day(orig: Seq<Birthday>, r: Seq<Birthday>)
    requires
        stably_sorted(ListOrder::Date, orig, r),
    ensures
        forall|i: int, j: int|
            0 <= i < j < r.len() ==> (#[trigger] r[i]).month < (#[trigger] r[j]).month || (r[i].month
                == r[j].month && r[i].day <= r[j].day),
{
    assert forall|i: int, j: int| 0 <= i < j < r.len() implies (#[trigger] r[i]).month < (
    #[trigger] r[j]).month || (r[i].month == r[j].month && r[i].day <= r[j].day) by {
        assert(lex_le(order_key(ListOrder::Date, r[i]), order_key(ListOrder::Date, r[j])));
        lemma_date_key_matches_compare(r[i], r[j]);
    }
}

/// A list sorted from the date `month`/`day` on has first the birthdays on
/// that date, then those later in the year, then those earlier (every
/// birthday before the date comes after every birthday on or after it), and
/// within each group the birthdays are in month order, then day order.
pub proof fn lemma_after_date_sorted_groups(orig: Seq<Birthday>, r: Seq<Birthday>, month: i32, day: i32)
    requires
        stably_sorted(ListOrder::AfterDate(month, day), orig, r),
    ensures
        forall|i: int, j: int|
            0 <= i < j < r.len() ==> group_from_date(#[trigger] r[i], month, day) <= group_from_date(
                #[trigger] r[j],
                month,
                day,
            ),
        forall|i: int, j: int|
            0 <= i < j < r.len() && group_from_date(r[i], month, day) == group_from_date(r[j], month, day)
                ==> (#[trigger] r[i]).month < (#[trigger] r[j]).month || (r[i].month == r[j].month
                && r[i].day <= r[j].day),
{
    assert forall|i: int, j: int| 0 <= i < j < r.len() implies group_from_date(#[trigger] r[i], month, day)
        <= group_from_date(#[trigger] r[j], month, day) && (group_from_date(r[i], month, day)
        == group_from_date(r[j], month, day) ==> r[i].month < r[j].month || (r[i].month == r[j].month
        && r[i].day <= r[j].day)) by {
        assert(lex_le(
            order_key(ListOrder::AfterDate(month, day), r[i]),
            order_key(ListOrder::AfterDate(month, day), r[j]),
        ));
        lemma_after_date_key_matches_compare(r[i], r[j], month, day);
    }
}

/// Two birthdays compared from the date `month`/`day` on, case by case: if
/// both fall on the same side of that date (on it, after it, or before it),
/// by date; otherwise the one on the date comes first, and one after the date
/// comes before one before it.
pub open spec fn after_date_order(a: Birthday, b: Birthday, month: i32, day: i32) -> core::cmp::Ordering {
    let comp_a = date_order(a, month, day);
    let comp_b = date_order(b, month, day);
    if comp_a == comp_b {
        date_order(a, b.month, b.day)
    } else if comp_a == core::cmp::Ordering::Equal {
        core::cmp::Ordering::Less
    } else if comp_b == core::cmp::Ordering::Equal {
        core::cmp::Ordering::Greater
    } else if comp_a == core::cmp::Ordering::Greater {
        core::cmp::Ordering::Less
    } else {
        core::cmp::Ordering::Greater
    }
}

/// The date keys of two birthdays are in order exactly when `compare_bths`
/// does not put the first after the second.
pub proof fn lemma_date_key_matches_compare(a: Birthday, b: Birthday)
    ensures
        lex_le(order_key(ListOrder::Date, a), order_key(ListOrder::Date, b))
            == (date_order(a, b.month, b.day) != core::cmp::Ordering::Greater),
{
    let ka = order_key(ListOrder::Date, a);
    let kb = order_key(ListOrder::Date, b);
    assert(ka.drop_first() =~= day_key(a));
    assert(kb.drop_first() =~= day_key(b));
    assert(day_key(a).drop_first() =~= Seq::<i64>::empty());
    assert(day_key(b).drop_first() =~= Seq::<i64>::empty());
    reveal_with_fuel(lex_le, 3);
}

/// The keys from a date on are in order exactly when `after_date_order`
/// does not put the first birthday after the second.
pub proof fn lemma_after_date_key_matches_compare(a: Birthday, b: Birthday, month: i32, day: i32)
    ensures
        lex_le(order_key(ListOrder::AfterDate(month, day), a), order_key(ListOrder::AfterDate(month, day), b))
            == (after_date_order(a, b, month, day) != core::cmp::Ordering::Greater),
{
    let ka = order_key(ListOrder::AfterDate(month, day), a);
    let kb = order_key(ListOrder::AfterDate(month, day), b);
    assert(ka.drop_first() =~= order_key(ListOrder::Date, a));
    assert(kb.drop_first() =~= order_key(ListOrder::Date, b));
    lemma_date_key_matches_compare(a, b);
}

} // verus!
