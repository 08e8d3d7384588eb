//! What holds of sets whatever their history: how membership, replay and the checked
//! operations relate.

use vstd::prelude::*;
use crate::record::SetOperation;
use crate::set::{
    added, deleted, held, is_member, kept, lemma_newest_at, lemma_newest_is_first, messages,
    newest, standing, takes_hold, with_add, with_del, Entry, Standing,
};

verus! {

/// Whether `i` and `j` are two adds of one message with no entry for that message
/// between them.
pub open spec fn adjacent_adds(es: Seq<Entry>, i: int, j: int) -> bool {
    &&& 0 <= i < j < es.len()
    &&& es[i].0 == es[j].0
    &&& es[i].1 == SetOperation::Add
    &&& es[j].1 == SetOperation::Add
    &&& forall|t: int| i < t < j ==> (#[trigger] es[t]).0 != es[i].0
}

/// Whether replay and membership agree on a log: a message that was added twice in a
/// row is a member.
pub open spec fn is_replayable(es: Seq<Entry>) -> bool {
    forall|i: int, j: int| #[trigger] adjacent_adds(es, i, j) ==> is_member(es, es[i].0)
}

/// Whether some record that a replay yields has the message `m`.
pub open spec fn yields(es: Seq<Entry>, m: Seq<char>) -> bool {
    exists|q: int| 0 <= q < kept(es).len() && es[#[trigger] kept(es)[q]].0 == m
}

/// Position of the newest entry for `m` among the `k` newest entries.
pub open spec fn last_below(es: Seq<Entry>, m: Seq<char>, k: int) -> Option<int>
    decreases k,
{
    if k <= 0 || k > es.len() {
        None
    } else if es[k - 1].0 == m {
        Some(k - 1)
    } else {
        last_below(es, m, k - 1)
    }
}

proof fn lemma_last_below(es: Seq<Entry>, m: Seq<char>, k: int)
    requires
        0 <= k <= es.len(),
    ensures
        match last_below(es, m, k) {
            Some(i) => 0 <= i < k && es[i].0 == m && forall|t: int|
                i < t < k ==> (#[trigger] es[t]).0 != m,
            None => forall|t: int| 0 <= t < k ==> (#[trigger] es[t]).0 != m,
        },
    decreases k,
{
    if k > 0 && es[k - 1].0 != m {
        lemma_last_below(es, m, k - 1);
    }
}

/// A message that none of the `k` newest entries names has nothing noted.
pub proof fn lemma_standing_untouched(es: Seq<Entry>, m: Seq<char>, k: int)
    requires
        0 <= k <= es.len(),
        forall|j: int| 0 <= j < k ==> (#[trigger] es[j]).0 != m,
    ensures
        standing(es, m, k) == Standing::Vacant,
    decreases k,
{
    if k > 0 {
        lemma_standing_untouched(es, m, k - 1);
    }
}

/// A message is held by an add of that message that took hold.
pub proof fn lemma_held_origin(es: Seq<Entry>, m: Seq<char>, k: int)
    requires
        0 <= k <= es.len(),
    ensures
        standing(es, m, k) matches Standing::Held(i) ==> 0 <= i < k && es[i].0 == m && takes_hold(
            es,
            i,
        ),
    decreases k,
{
    if k > 0 {
        lemma_held_origin(es, m, k - 1);
    }
}

/// An add that took hold holds its message for the rest of the replay.
pub proof fn lemma_hold_lasts(es: Seq<Entry>, i: int, k: int)
    requires
        takes_hold(es, i),
        i < k <= es.len(),
    ensures
        standing(es, es[i].0, k) == Standing::Held(i),
    decreases k,
{
    if k > i + 1 {
        lemma_hold_lasts(es, i, k - 1);
    }
}

/// The positions that a partial replay yields are those that took hold.
pub proof fn lemma_held_members(es: Seq<Entry>, k: int, i: int)
    requires
        0 <= k <= es.len(),
    ensures
        (exists|q: int| 0 <= q < held(es, k).len() && #[trigger] held(es, k)[q] == i) <==> (0 <= i
            < k && takes_hold(es, i)),
    decreases k,
{
    if k > 0 {
        lemma_held_members(es, k - 1, i);
        let h = held(es, k);
        let g = held(es, k - 1);
        if exists|q: int| 0 <= q < h.len() && #[trigger] h[q] == i {
            let q = choose|q: int| 0 <= q < h.len() && #[trigger] h[q] == i;
            if q < g.len() {
                assert(g[q] == i);
            }
        }
        if 0 <= i < k && takes_hold(es, i) {
            if i == k - 1 {
                assert(h[h.len() - 1] == i);
            } else {
                let q = choose|q: int| 0 <= q < g.len() && #[trigger] g[q] == i;
                assert(h[q] == i);
            }
        }
    }
}

/// A replay yields a message exactly when the message is held at its end.
pub proof fn lemma_yields_held(es: Seq<Entry>, m: Seq<char>)
    ensures
        yields(es, m) <==> standing(es, m, es.len() as int) is Held,
{
    let n = es.len() as int;
    if yields(es, m) {
        let q = choose|q: int| 0 <= q < kept(es).len() && es[#[trigger] kept(es)[q]].0 == m;
        let i = kept(es)[q];
        lemma_held_members(es, n, i);
        lemma_hold_lasts(es, i, n);
    }
    if standing(es, m, n) is Held {
        lemma_held_origin(es, m, n);
        let i = standing(es, m, n)->Held_0;
        lemma_held_members(es, n, i);
        let q = choose|q: int| 0 <= q < held(es, n).len() && #[trigger] held(es, n)[q] == i;
        assert(es[kept(es)[q]].0 == m);
    }
}

proof fn lemma_deleted_never_held(es: Seq<Entry>, m: Seq<char>, n: int, k: int)
    requires
        is_replayable(es),
        newest(es, m) == Some(n),
        0 <= n < es.len(),
        es[n].1 == SetOperation::Del,
        n < k <= es.len(),
    ensures
        match standing(es, m, k) {
            Standing::Held(_) => false,
            Standing::Tomb => true,
            Standing::Vacant => last_below(es, m, k) matches Some(i) && es[i].1
                == SetOperation::Add,
        },
    decreases k,
{
    lemma_newest_is_first(es, m);
    if k == n + 1 {
        lemma_standing_untouched(es, m, n);
    } else {
        lemma_deleted_never_held(es, m, n, k - 1);
        if es[k - 1].0 == m && es[k - 1].1 == SetOperation::Add {
            if standing(es, m, k - 1) == Standing::Vacant {
                let i = last_below(es, m, k - 1)->0;
                lemma_last_below(es, m, k - 1);
                assert(adjacent_adds(es, i, k - 1));
                assert(is_member(es, es[i].0));
            }
        }
    }
}

/// A replay of a set yields exactly its members: the messages whose newest record is
/// an add.
///
/// This holds of every log in which no message was added twice in a row and deleted
/// since. A log that only the checked operations wrote has no two adds in a row at all.
pub proof fn lemma_get_all_is_membership(es: Seq<Entry>, m: Seq<char>)
    requires
        is_replayable(es),
    ensures
        yields(es, m) <==> is_member(es, m),
{
    let n = es.len() as int;
    lemma_yields_held(es, m);
    lemma_newest_is_first(es, m);
    match newest(es, m) {
        Some(i) => {
            if es[i].1 == SetOperation::Add {
                lemma_standing_untouched(es, m, i);
                assert(takes_hold(es, i));
                lemma_hold_lasts(es, i, n);
            } else {
                lemma_deleted_never_held(es, m, i, n);
            }
        },
        None => {
            lemma_standing_untouched(es, m, n);
        },
    }
}

/// Membership right after an unchecked add: the message is a member through the new
/// record, and no other message is affected.
pub proof fn lemma_membership_after_add(es: Seq<Entry>, m: Seq<char>, x: Seq<char>)
    ensures
        newest(with_add(es, m), m) == Some(0int),
        is_member(with_add(es, m), x) == (x == m || is_member(es, x)),
{
    let after = with_add(es, m);
    lemma_newest_at(after, m, 0);
    if x != m {
        lemma_shifted(es, (m, SetOperation::Add), x);
        if newest(es, x) is Some {
            let i = newest(es, x)->0;
            lemma_newest_is_first(es, x);
            assert(after[i + 1] == es[i]);
        }
    }
}

/// Membership right after an unchecked delete: the message is no member, and no other
/// message is affected.
pub proof fn lemma_membership_after_del(es: Seq<Entry>, m: Seq<char>, x: Seq<char>)
    ensures
        newest(with_del(es, m), m) == Some(0int),
        is_member(with_del(es, m), x) == (x != m && is_member(es, x)),
{
    let after = with_del(es, m);
    lemma_newest_at(after, m, 0);
    if x != m {
        lemma_shifted(es, (m, SetOperation::Del), x);
        if newest(es, x) is Some {
            let i = newest(es, x)->0;
            lemma_newest_is_first(es, x);
            assert(after[i + 1] == es[i]);
        }
    }
}

proof fn lemma_shifted(es: Seq<Entry>, e: Entry, x: Seq<char>)
    requires
        e.0 != x,
    ensures
        newest(seq![e] + es, x) == match newest(es, x) {
            Some(i) => Some(i + 1),
            None => None,
        },
{
    let after = seq![e] + es;
    lemma_newest_is_first(es, x);
    match newest(es, x) {
        Some(i) => {
            assert(after[i + 1] == es[i]);
            assert forall|j: int| 0 <= j < i + 1 implies after[j].0 != x by {
                if j > 0 {
                    assert(after[j] == es[j - 1]);
                }
            }
            lemma_newest_at(after, x, i + 1);
        },
        None => {
            lemma_newest_is_first(after, x);
            if newest(after, x) is Some {
                let j = newest(after, x)->0;
                assert(after[j] == es[j - 1]);
            }
        },
    }
}

/// A checked add of a message that was just added changes nothing: it finds the
/// record of the first add, and the set keeps its members.
pub proof fn lemma_add_twice(es: Seq<Entry>, m: Seq<char>)
    ensures
        is_member(added(es, m), m),
        added(added(es, m), m) == added(es, m),
        !is_member(es, m) ==> newest(added(es, m), m) == Some(0int),
{
    lemma_membership_after_add(es, m, m);
}

/// Deleting a member and adding it again leaves every message's membership as it was.
///
/// Of a message that was no member this does not hold: the delete does nothing, and
/// the add then makes it one.
pub proof fn lemma_del_then_add(es: Seq<Entry>, m: Seq<char>, x: Seq<char>)
    requires
        is_member(es, m),
    ensures
        is_member(added(deleted(es, m), m), x) == is_member(es, x),
{
    lemma_membership_after_del(es, m, x);
    lemma_membership_after_del(es, m, m);
    lemma_membership_after_add(with_del(es, m), m, x);
}

/// A set that holds nothing but the delete of a message: the message is found absent,
/// with that delete as its tombstone, and a replay yields nothing.
pub proof fn lemma_lone_delete(m: Seq<char>)
    ensures
        newest(seq![(m, SetOperation::Del)], m) == Some(0int),
        !is_member(seq![(m, SetOperation::Del)], m),
        kept(seq![(m, SetOperation::Del)]) == Seq::<int>::empty(),
{
    let es = seq![(m, SetOperation::Del)];
    lemma_newest_at(es, m, 0);
    assert(held(es, 0) == Seq::<int>::empty());
    assert(!takes_hold(es, 0));
    assert(held(es, 1) == held(es, 0));
}

/// A set without records has no members, and a replay of it yields nothing.
pub proof fn lemma_empty_set(m: Seq<char>)
    ensures
        newest(Seq::<Entry>::empty(), m) is None,
        !is_member(Seq::<Entry>::empty(), m),
        kept(Seq::<Entry>::empty()) == Seq::<int>::empty(),
{
    lemma_newest_is_first(Seq::<Entry>::empty(), m);
}

/// Whether no message of a log was added twice in a row.
pub open spec fn is_tidy(es: Seq<Entry>) -> bool {
    forall|i: int, j: int| !#[trigger] adjacent_adds(es, i, j)
}

/// A tidy log is replayable.
pub proof fn lemma_tidy_is_replayable(es: Seq<Entry>)
    requires
        is_tidy(es),
    ensures
        is_replayable(es),
{
}

/// The checked operations keep a log tidy, so that a set changed through them alone
/// is always one that replay and membership agree on.
pub proof fn lemma_checked_keeps_tidy(es: Seq<Entry>, m: Seq<char>)
    requires
        is_tidy(es),
    ensures
        is_tidy(added(es, m)),
        is_tidy(deleted(es, m)),
{
    let a = with_add(es, m);
    let d = with_del(es, m);
    if !is_member(es, m) {
        assert forall|i: int, j: int| !#[trigger] adjacent_adds(a, i, j) by {
            if adjacent_adds(a, i, j) {
                assert(a[j] == es[j - 1]);
                if i > 0 {
                    assert(a[i] == es[i - 1]);
                    assert forall|t: int| i - 1 < t < j - 1 implies (#[trigger] es[t]).0 != es[i
                        - 1].0 by {
                        assert(a[t + 1] == es[t]);
                    }
                    assert(adjacent_adds(es, i - 1, j - 1));
                } else {
                    assert forall|t: int| 0 <= t < j - 1 implies (#[trigger] es[t]).0 != m by {
                        assert(a[t + 1] == es[t]);
                    }
                    lemma_newest_at(es, m, j - 1);
                }
            }
        }
    }
    if is_member(es, m) {
        assert forall|i: int, j: int| !#[trigger] adjacent_adds(d, i, j) by {
            if adjacent_adds(d, i, j) {
                assert(i > 0);
                assert(d[i] == es[i - 1]);
                assert(d[j] == es[j - 1]);
                assert forall|t: int| i - 1 < t < j - 1 implies (#[trigger] es[t]).0 != es[i
                    - 1].0 by {
                    assert(d[t + 1] == es[t]);
                }
                assert(adjacent_adds(es, i - 1, j - 1));
            }
        }
    }
}

} // verus!
