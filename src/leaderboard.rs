//! Leaderboard maintainer: a ranked, capacity-bounded sequence of
//! `(rating, account)` entries, highest rating first.
use vstd::laws_eq::obeys_concrete_eq;
use vstd::prelude::*;
use vstd::std_specs::cmp::PartialEqSpec;

verus! {

/// Number of published ranks.
pub const LEADERBOARD_SIZE: u8 = 100;

/// Extra tracked ranks below the published ones, kept as eviction hysteresis.
pub const LEADERBOARD_SURPLUS_SIZE: u8 = 30;

/// Total number of entries the leaderboard holds at most.
pub const LEADERBOARD_REAL_SIZE: u8 = LEADERBOARD_SIZE + LEADERBOARD_SURPLUS_SIZE;

pub open spec fn capacity() -> nat {
    LEADERBOARD_REAL_SIZE as nat
}

/// Entries are in non-increasing rating order.
pub open spec fn is_sorted_desc<A>(s: Seq<(u16, A)>) -> bool {
    forall|i: int, j: int| 0 <= i < j < s.len() ==> s[i].0 >= s[j].0
}

/// No account has two entries.
pub open spec fn has_unique_accounts<A>(s: Seq<(u16, A)>) -> bool {
    forall|i: int, j: int| 0 <= i < s.len() && 0 <= j < s.len() && i != j ==> s[i].1 != s[j].1
}

pub open spec fn contains_account<A>(s: Seq<(u16, A)>, a: A) -> bool {
    exists|i: int| 0 <= i < s.len() && s[i].1 == a
}

/// A well-formed leaderboard: sorted, one entry per account, within capacity.
pub open spec fn leaderboard_wf<A>(s: Seq<(u16, A)>) -> bool {
    &&& is_sorted_desc(s)
    &&& has_unique_accounts(s)
    &&& s.len() <= capacity()
}

/// Index of the last entry held by account `a`, if any.
pub open spec fn last_index_of<A>(s: Seq<(u16, A)>, a: A) -> Option<int>
    decreases s.len(),
{
    if s.len() == 0 {
        None
    } else if s.last().1 == a {
        Some(s.len() - 1)
    } else {
        last_index_of(s.drop_last(), a)
    }
}

/// Position just after the last entry rated at least `ep` (0 if there is none):
/// where an entry rated `ep` goes, losing ties against the entries already there.
pub open spec fn insert_pos<A>(s: Seq<(u16, A)>, ep: u16) -> int
    decreases s.len(),
{
    if s.len() == 0 {
        0
    } else if s.last().0 >= ep {
        s.len() as int
    } else {
        insert_pos(s.drop_last(), ep)
    }
}

/// The leaderboard after account `a` reports rating `ep`.
///
/// An account already present leaves its old place and is put back with the
/// new rating at its new place; if that place is the very end of a full
/// leaderboard, it drops out instead. A new account is inserted at its place
/// and whatever is pushed past the capacity is discarded.
pub open spec fn updated_leaderboard<A>(s: Seq<(u16, A)>, ep: u16, a: A) -> Seq<(u16, A)> {
    match last_index_of(s, a) {
        Some(i) => {
            let rest = s.remove(i);
            let k = insert_pos(rest, ep);
            if k == rest.len() && s.len() >= capacity() {
                rest
            } else {
                rest.insert(k, (ep, a))
            }
        },
        None => {
            let ins = s.insert(insert_pos(s, ep), (ep, a));
            if ins.len() > capacity() {
                ins.take(capacity() as int)
            } else {
                ins
            }
        },
    }
}

proof fn lemma_last_index_of_bounds<A>(s: Seq<(u16, A)>, a: A)
    ensures
        match last_index_of(s, a) {
            Some(i) => 0 <= i < s.len() && s[i].1 == a && forall|j: int|
                i < j < s.len() ==> s[j].1 != a,
            None => forall|j: int| 0 <= j < s.len() ==> s[j].1 != a,
        },
    decreases s.len(),
{
    if s.len() > 0 {
        let d = s.drop_last();
        lemma_last_index_of_bounds(d, a);
        assert(forall|j: int| 0 <= j < d.len() ==> d[j] == s[j]);
    }
}

proof fn lemma_insert_pos_bounds<A>(s: Seq<(u16, A)>, ep: u16)
    ensures
        0 <= insert_pos(s, ep) <= s.len(),
        forall|j: int| insert_pos(s, ep) <= j < s.len() ==> s[j].0 < ep,
        insert_pos(s, ep) > 0 ==> s[insert_pos(s, ep) - 1].0 >= ep,
    decreases s.len(),
{
    if s.len() > 0 {
        let d = s.drop_last();
        lemma_insert_pos_bounds(d, ep);
        assert(forall|j: int| 0 <= j < d.len() ==> d[j] == s[j]);
    }
}

/// Index of the last entry of `lb` held by `account`.
fn find_account<A: PartialEq + Copy>(lb: &Vec<(u16, A)>, account: &A) -> (r: Option<usize>)
    requires
        obeys_concrete_eq::<A>(),
    ensures
        r == (match last_index_of(lb@, *account) {
            Some(i) => Some(i as usize),
            None => None::<usize>,
        }),
{
    proof {
        reveal(obeys_concrete_eq);
    }
    let mut found: Option<usize> = None;
    let mut i: usize = 0;
    while i < lb.len()
        invariant
            i <= lb@.len(),
            obeys_concrete_eq::<A>(),
            A::obeys_eq_spec(),
            forall|x: A, y: A| (x.eq_spec(&y) <==> x == y),
            found == (match last_index_of(lb@.take(i as int), *account) {
                Some(j) => Some(j as usize),
                None => None::<usize>,
            }),
        decreases lb@.len() - i,
    {
        assert(lb@.take(i + 1).drop_last() =~= lb@.take(i as int));
        if lb[i].1 == *account {
            found = Some(i);
        }
        i = i + 1;
    }
    assert(lb@.take(i as int) =~= lb@);
    found
}

/// Position just after the last entry of `lb` rated at least `ep`.
fn find_insert_pos<A>(lb: &Vec<(u16, A)>, ep: u16) -> (r: usize)
    ensures
        r == insert_pos(lb@, ep),
{
    let mut pos: usize = 0;
    let mut i: usize = 0;
    while i < lb.len()
        invariant
            i <= lb@.len(),
            pos == insert_pos(lb@.take(i as int), ep),
        decreases lb@.len() - i,
    {
        assert(lb@.take(i + 1).drop_last() =~= lb@.take(i as int));
        if lb[i].0 >= ep {
            pos = i + 1;
        }
        i = i + 1;
    }
    assert(lb@.take(i as int) =~= lb@);
    pos
}

/// Folds rating `ep` of `account` into the leaderboard.
///
/// The account's entry, old or new, ends up right after the last other entry
/// rated at least `ep`, so it loses ties. A ranked account that falls to the
/// very end of a full leaderboard drops out; a new account pushes the last
/// entry out of a full leaderboard, or is not taken in if it would be last.
/// A well-formed leaderboard stays well-formed.
pub fn update_leaderboard<A: PartialEq + Copy>(leaderboard: &mut Vec<(u16, A)>, ep: u16, account: &A)
    requires
        obeys_concrete_eq::<A>(),
    ensures
        final(leaderboard)@ == updated_leaderboard(old(leaderboard)@, ep, *account),
        leaderboard_wf(old(leaderboard)@) ==> leaderboard_wf(final(leaderboard)@),
{
    let ghost s = leaderboard@;
    proof {
        lemma_last_index_of_bounds(s, *account);
    }
    let cap: usize = LEADERBOARD_REAL_SIZE as usize;
    match find_account(leaderboard, account) {
        Some(i) => {
            let len = leaderboard.len();
            leaderboard.remove(i);
            let k = find_insert_pos(leaderboard, ep);
            proof {
                lemma_insert_pos_bounds(leaderboard@, ep);
            }
            if !(k == leaderboard.len() && len >= cap) {
                leaderboard.insert(k, (ep, *account));
            }
        },
        None => {
            let k = find_insert_pos(leaderboard, ep);
            proof {
                lemma_insert_pos_bounds(leaderboard@, ep);
            }
            leaderboard.insert(k, (ep, *account));
            if leaderboard.len() > cap {
                leaderboard.truncate(cap);
            }
        },
    }
    proof {
        if leaderboard_wf(s) {
            lemma_update_preserves_wf(s, ep, *account);
        }
    }
}

proof fn lemma_remove_keeps_order<A>(s: Seq<(u16, A)>, i: int)
    requires
        0 <= i < s.len(),
        has_unique_accounts(s),
    ensures
        is_sorted_desc(s) ==> is_sorted_desc(s.remove(i)),
        has_unique_accounts(s.remove(i)),
        !contains_account(s.remove(i), s[i].1),
        forall|j: int|
            0 <= j < s.remove(i).len() ==> s.remove(i)[j] == if j < i {
                s[j]
            } else {
                s[j + 1]
            },
{
    let r = s.remove(i);
    assert(forall|j: int| 0 <= j < r.len() ==> r[j] == if j < i { s[j] } else { s[j + 1] });
}

proof fn lemma_insert_at_pos_keeps_order<A>(s: Seq<(u16, A)>, ep: u16, a: A)
    requires
        has_unique_accounts(s),
        !contains_account(s, a),
    ensures
        is_sorted_desc(s) ==> is_sorted_desc(s.insert(insert_pos(s, ep), (ep, a))),
        has_unique_accounts(s.insert(insert_pos(s, ep), (ep, a))),
        forall|j: int|
            0 <= j < s.len() + 1 ==> s.insert(insert_pos(s, ep), (ep, a))[j] == if j
                < insert_pos(s, ep) {
                s[j]
            } else if j == insert_pos(s, ep) {
                (ep, a)
            } else {
                s[j - 1]
            },
{
    lemma_insert_pos_bounds(s, ep);
    let k = insert_pos(s, ep);
    let r = s.insert(k, (ep, a));
    if is_sorted_desc(s) {
        assert(forall|j: int| 0 <= j < k ==> s[j].0 >= ep) by {
            assert forall|j: int| 0 <= j < k implies s[j].0 >= ep by {
                assert(s[j].0 >= s[k - 1].0);
            }
        }
    }
    assert(forall|j: int|
        0 <= j < r.len() ==> r[j] == if j < k {
            s[j]
        } else if j == k {
            (ep, a)
        } else {
            s[j - 1]
        });
}

proof fn lemma_take_keeps_order<A>(s: Seq<(u16, A)>, n: int)
    requires
        0 <= n <= s.len(),
        has_unique_accounts(s),
    ensures
        is_sorted_desc(s) ==> is_sorted_desc(s.take(n)),
        has_unique_accounts(s.take(n)),
{
}

/// Updating a well-formed leaderboard keeps it well-formed: sorted by rating,
/// one entry per account and within capacity.
pub proof fn lemma_update_preserves_wf<A>(s: Seq<(u16, A)>, ep: u16, a: A)
    requires
        leaderboard_wf(s),
    ensures
        leaderboard_wf(updated_leaderboard(s, ep, a)),
{
    lemma_last_index_of_bounds(s, a);
    match last_index_of(s, a) {
        Some(i) => {
            let rest = s.remove(i);
            lemma_remove_keeps_order(s, i);
            assert(!contains_account(rest, a));
            lemma_insert_pos_bounds(rest, ep);
            lemma_insert_at_pos_keeps_order(rest, ep, a);
        },
        None => {
            assert(!contains_account(s, a));
            lemma_insert_pos_bounds(s, ep);
            lemma_insert_at_pos_keeps_order(s, ep, a);
            let ins = s.insert(insert_pos(s, ep), (ep, a));
            if ins.len() > capacity() {
                lemma_take_keeps_order(ins, capacity() as int);
            }
        },
    }
}

/// Updating keeps one entry per account, and the account that was updated,
/// if it is still there, carries the rating it reported.
pub proof fn lemma_update_keeps_accounts_unique<A>(s: Seq<(u16, A)>, ep: u16, a: A)
    requires
        has_unique_accounts(s),
    ensures
        has_unique_accounts(updated_leaderboard(s, ep, a)),
        forall|i: int|
            0 <= i < updated_leaderboard(s, ep, a).len() && (#[trigger] updated_leaderboard(
                s,
                ep,
                a,
            )[i]).1 == a ==> updated_leaderboard(s, ep, a)[i] == (ep, a),
{
    lemma_last_index_of_bounds(s, a);
    match last_index_of(s, a) {
        Some(i) => {
            let rest = s.remove(i);
            lemma_remove_keeps_order(s, i);
            lemma_insert_pos_bounds(rest, ep);
            lemma_insert_at_pos_keeps_order(rest, ep, a);
        },
        None => {
            assert(!contains_account(s, a));
            lemma_insert_pos_bounds(s, ep);
            lemma_insert_at_pos_keeps_order(s, ep, a);
            let ins = s.insert(insert_pos(s, ep), (ep, a));
            if ins.len() > capacity() {
                lemma_take_keeps_order(ins, capacity() as int);
            }
        },
    }
}

/// Re-reporting an account that is already ranked never makes the leaderboard
/// longer, and leaves one entry per account.
pub proof fn lemma_reinsert_existing_account<A>(s: Seq<(u16, A)>, ep: u16, a: A)
    requires
        has_unique_accounts(s),
        contains_account(s, a),
    ensures
        updated_leaderboard(s, ep, a).len() <= s.len(),
        has_unique_accounts(updated_leaderboard(s, ep, a)),
{
    lemma_last_index_of_bounds(s, a);
    lemma_update_keeps_accounts_unique(s, ep, a);
    let i = last_index_of(s, a)->0;
    lemma_insert_pos_bounds(s.remove(i), ep);
}

/// On a full leaderboard, a new account rated below every entry is not taken
/// in, and the leaderboard stays as it was.
pub proof fn lemma_full_leaderboard_ignores_lowest<A>(s: Seq<(u16, A)>, ep: u16, a: A)
    requires
        s.len() == capacity(),
        !contains_account(s, a),
        forall|i: int| 0 <= i < s.len() ==> s[i].0 > ep,
    ensures
        updated_leaderboard(s, ep, a) == s,
{
    lemma_last_index_of_bounds(s, a);
    assert(insert_pos(s, ep) == s.len());
    let ins = s.insert(s.len() as int, (ep, a));
    assert(ins.take(capacity() as int) =~= s);
}

/// The leaderboard after each of `entries` was reported in turn, starting from `s`.
pub open spec fn leaderboard_after_all<A>(s: Seq<(u16, A)>, entries: Seq<(u16, A)>) -> Seq<
    (u16, A),
>
    decreases entries.len(),
{
    if entries.len() == 0 {
        s
    } else {
        let prev = leaderboard_after_all(s, entries.drop_last());
        updated_leaderboard(prev, entries.last().0, entries.last().1)
    }
}

/// Reporting distinct accounts with strictly decreasing ratings into an empty
/// leaderboard ranks them in that order, up to the capacity: the leaderboard is
/// sorted and holds `min(N, LEADERBOARD_REAL_SIZE)` entries.
pub proof fn lemma_decreasing_reports<A>(entries: Seq<(u16, A)>)
    requires
        has_unique_accounts(entries),
        forall|i: int, j: int| 0 <= i < j < entries.len() ==> entries[i].0 > entries[j].0,
    ensures
        leaderboard_after_all(Seq::empty(), entries) == entries.take(
            vstd::math::min(entries.len() as int, capacity() as int),
        ),
        is_sorted_desc(leaderboard_after_all(Seq::empty(), entries)),
        leaderboard_after_all(Seq::empty(), entries).len() == vstd::math::min(
            entries.len() as int,
            capacity() as int,
        ),
    decreases entries.len(),
{
    let n = entries.len() as int;
    let cap = capacity() as int;
    if n == 0 {
        assert(entries.take(0) =~= Seq::<(u16, A)>::empty());
    } else {
        let d = entries.drop_last();
        assert(forall|j: int| 0 <= j < d.len() ==> d[j] == entries[j]);
        lemma_decreasing_reports(d);
        let prev = leaderboard_after_all(Seq::empty(), d);
        let m = vstd::math::min(n - 1, cap);
        assert(prev =~= entries.take(m));
        let (ep, a) = entries.last();
        assert(!contains_account(prev, a)) by {
            if contains_account(prev, a) {
                let j = choose|j: int| 0 <= j < prev.len() && prev[j].1 == a;
                assert(entries[j].1 == entries[n - 1].1);
            }
        }
        lemma_last_index_of_bounds(prev, a);
        if prev.len() > 0 {
            assert(prev.last().0 > ep);
        }
        assert(insert_pos(prev, ep) == prev.len());
        let ins = prev.insert(prev.len() as int, (ep, a));
        if m == n - 1 {
            assert(ins =~= entries.take(n));
        } else {
            assert(ins.take(cap) =~= entries.take(cap));
        }
    }
}

/// Where no entry from `k` on is rated at least `ep`, nor is any held by `b`,
/// an entry for `b` inserted at `k` ranks below every entry of `a` rated at
/// least `ep`.
proof fn lemma_inserted_below_rated<A>(r: Seq<(u16, A)>, ep: u16, a: A, b: A)
    requires
        a != b,
        !contains_account(r, b),
        forall|j: int| 0 <= j < r.len() && r[j].1 == a ==> r[j].0 >= ep,
    ensures
        forall|i: int, j: int|
            0 <= i < r.len() + 1 && 0 <= j < r.len() + 1 && r.insert(insert_pos(r, ep), (ep, b))[i].1
                == a && r.insert(insert_pos(r, ep), (ep, b))[j].1 == b ==> i < j,
{
    lemma_insert_pos_bounds(r, ep);
    let k = insert_pos(r, ep);
    let t = r.insert(k, (ep, b));
    assert(forall|j: int|
        0 <= j < t.len() ==> t[j] == if j < k {
            r[j]
        } else if j == k {
            (ep, b)
        } else {
            r[j - 1]
        });
}

/// Two accounts reported one after the other with the same rating: wherever
/// both are ranked, the one reported first ranks above the other.
pub proof fn lemma_equal_rating_keeps_report_order<A>(s: Seq<(u16, A)>, ep: u16, a: A, b: A)
    requires
        has_unique_accounts(s),
        a != b,
    ensures
        forall|i: int, j: int|
            0 <= i < updated_leaderboard(updated_leaderboard(s, ep, a), ep, b).len() && 0 <= j
                < updated_leaderboard(updated_leaderboard(s, ep, a), ep, b).len()
                && updated_leaderboard(updated_leaderboard(s, ep, a), ep, b)[i].1 == a
                && updated_leaderboard(updated_leaderboard(s, ep, a), ep, b)[j].1 == b ==> i < j,
{
    let s1 = updated_leaderboard(s, ep, a);
    lemma_update_keeps_accounts_unique(s, ep, a);
    let t = updated_leaderboard(s1, ep, b);
    lemma_last_index_of_bounds(s1, b);
    match last_index_of(s1, b) {
        Some(i1) => {
            let rest = s1.remove(i1);
            lemma_remove_keeps_order(s1, i1);
            lemma_insert_pos_bounds(rest, ep);
            lemma_inserted_below_rated(rest, ep, a, b);
        },
        None => {
            assert(!contains_account(s1, b));
            lemma_insert_pos_bounds(s1, ep);
            lemma_inserted_below_rated(s1, ep, a, b);
            let ins = s1.insert(insert_pos(s1, ep), (ep, b));
            if ins.len() > capacity() {
                assert(forall|i: int| 0 <= i < t.len() ==> t[i] == ins[i]);
            }
        },
    }
}

/// A new account reported with rating `ep` into a sorted leaderboard ranks
/// below every entry rated at least `ep` and above every entry rated lower; it
/// is taken in unless the leaderboard is full and nobody is rated lower.
pub proof fn lemma_new_account_rank<A>(s: Seq<(u16, A)>, ep: u16, a: A)
    requires
        is_sorted_desc(s),
        s.len() <= capacity(),
        !contains_account(s, a),
    ensures
        forall|i: int|
            0 <= i < updated_leaderboard(s, ep, a).len() && updated_leaderboard(s, ep, a)[i].1
                == a ==> (forall|j: int| 0 <= j < i ==> updated_leaderboard(s, ep, a)[j].0 >= ep)
                && (forall|j: int|
                i < j < updated_leaderboard(s, ep, a).len() ==> updated_leaderboard(
                    s,
                    ep,
                    a,
                )[j].0 < ep),
        (s.len() < capacity() || exists|j: int| 0 <= j < s.len() && s[j].0 < ep)
            ==> contains_account(updated_leaderboard(s, ep, a), a),
{
    lemma_last_index_of_bounds(s, a);
    lemma_insert_pos_bounds(s, ep);
    let k = insert_pos(s, ep);
    let ins = s.insert(k, (ep, a));
    let t = updated_leaderboard(s, ep, a);
    assert(forall|j: int| 0 <= j < k ==> s[j].0 >= ep) by {
        assert forall|j: int| 0 <= j < k implies s[j].0 >= ep by {
            assert(s[j].0 >= s[k - 1].0);
        }
    }
    assert(forall|j: int|
        0 <= j < ins.len() ==> ins[j] == if j < k {
            s[j]
        } else if j == k {
            (ep, a)
        } else {
            s[j - 1]
        });
    assert(forall|j: int| 0 <= j < t.len() ==> t[j] == ins[j]);
    if s.len() < capacity() || exists|j: int| 0 <= j < s.len() && s[j].0 < ep {
        if s.len() >= capacity() {
            let j = choose|j: int| 0 <= j < s.len() && s[j].0 < ep;
            assert(k <= j);
        }
        assert(k < t.len());
        assert(t[k].1 == a);
    }
}

} // verus!
