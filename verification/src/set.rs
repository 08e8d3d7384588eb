//! Sets replayed from their logs.
//!
//! A set is a collection whose records each add or delete one message. Everything here
//! works on a finished walk of such a collection, newest record first.

use vstd::prelude::*;
use vstd::hash_set::StringHashSet;
use indexmap::IndexMap;
use crate::ordered::{
    keys_of, ledger_entries, ledger_get, ledger_insert, ledger_into_values, ledger_new,
    ledger_shift_remove, values_of, Slot,
};
use crate::record::{Record, SetOperation};
use crate::text::same_text;

verus! {

/// One record of a set as replay sees it: its message and its operation.
pub type Entry = (Seq<char>, SetOperation);

/// The entries of a walk, in its order.
pub open spec fn entries_of<T: Record>(walk: Seq<(T, SetOperation)>) -> Seq<Entry> {
    Seq::new(walk.len(), |i: int| (walk[i].0.data().message, walk[i].1))
}

/// The messages of `es`, in order.
pub open spec fn messages(es: Seq<Entry>) -> Seq<Seq<char>> {
    Seq::new(es.len(), |i: int| es[i].0)
}

/// Position of the newest entry for `m`.
pub open spec fn newest(es: Seq<Entry>, m: Seq<char>) -> Option<int> {
    messages(es).index_of_first(m)
}

/// Whether `m` is in the set: its newest entry adds it.
pub open spec fn is_member(es: Seq<Entry>, m: Seq<char>) -> bool {
    match newest(es, m) {
        Some(i) => es[i].1 == SetOperation::Add,
        None => false,
    }
}

/// What a replay knows of one message after part of the walk.
pub enum Standing {
    /// Nothing is noted for the message.
    Vacant,
    /// A delete is noted, and no add that answers it has been met.
    Tomb,
    /// The add at this position holds the message in the result.
    Held(int),
}

/// The standing of `m` once the `k` newest entries have been replayed.
///
/// An add met while nothing is noted holds the message from then on. A delete met while
/// nothing is noted leaves a tombstone. An add met at a tombstone clears it, so that the
/// next older entry for the message is read as if it were the first.
pub open spec fn standing(es: Seq<Entry>, m: Seq<char>, k: int) -> Standing
    decreases k,
{
    if k <= 0 || k > es.len() {
        Standing::Vacant
    } else {
        let before = standing(es, m, k - 1);
        if es[k - 1].0 != m {
            before
        } else {
            match before {
                Standing::Held(i) => Standing::Held(i),
                Standing::Vacant => if es[k - 1].1 == SetOperation::Add {
                    Standing::Held(k - 1)
                } else {
                    Standing::Tomb
                },
                Standing::Tomb => if es[k - 1].1 == SetOperation::Add {
                    Standing::Vacant
                } else {
                    Standing::Tomb
                },
            }
        }
    }
}

/// Whether the entry at `i` is an add met while nothing is noted for its message.
pub open spec fn takes_hold(es: Seq<Entry>, i: int) -> bool {
    0 <= i < es.len() && es[i].1 == SetOperation::Add && standing(es, es[i].0, i)
        == Standing::Vacant
}

/// The positions below `k` that take hold, newest first.
pub open spec fn held(es: Seq<Entry>, k: int) -> Seq<int>
    decreases k,
{
    if k <= 0 {
        Seq::empty()
    } else if takes_hold(es, k - 1) {
        held(es, k - 1).push(k - 1)
    } else {
        held(es, k - 1)
    }
}

/// The positions of the records that a full replay yields, newest first.
pub open spec fn kept(es: Seq<Entry>) -> Seq<int> {
    held(es, es.len() as int)
}

/// Whether the entry at `i` is the newest for its message, and an add.
pub open spec fn is_current(es: Seq<Entry>, i: int) -> bool {
    0 <= i < es.len() && es[i].1 == SetOperation::Add && newest(es, es[i].0) == Some(i)
}

/// The positions below `k` that are current, newest first.
pub open spec fn current(es: Seq<Entry>, k: int) -> Seq<int>
    decreases k,
{
    if k <= 0 {
        Seq::empty()
    } else if is_current(es, k - 1) {
        current(es, k - 1).push(k - 1)
    } else {
        current(es, k - 1)
    }
}

/// The positions of the members of the set, newest first.
pub open spec fn present(es: Seq<Entry>) -> Seq<int> {
    current(es, es.len() as int)
}

/// The entries of a set after `m` was added without a check.
pub open spec fn with_add(es: Seq<Entry>, m: Seq<char>) -> Seq<Entry> {
    seq![(m, SetOperation::Add)] + es
}

/// The entries of a set after `m` was deleted without a check.
pub open spec fn with_del(es: Seq<Entry>, m: Seq<char>) -> Seq<Entry> {
    seq![(m, SetOperation::Del)] + es
}

/// The entries of a set after a checked add of `m`: a member is not added again.
pub open spec fn added(es: Seq<Entry>, m: Seq<char>) -> Seq<Entry> {
    if is_member(es, m) {
        es
    } else {
        with_add(es, m)
    }
}

/// The entries of a set after a checked delete of `m`: only a member is deleted.
pub open spec fn deleted(es: Seq<Entry>, m: Seq<char>) -> Seq<Entry> {
    if is_member(es, m) {
        with_del(es, m)
    } else {
        es
    }
}

/// The numbers of `s` as integers.
pub open spec fn ints(s: Seq<usize>) -> Seq<int> {
    Seq::new(s.len(), |i: int| s[i] as int)
}

/// The positions noted in `vals`, in order, tombstones left out.
pub open spec fn somes(vals: Seq<Option<usize>>) -> Seq<int>
    decreases vals.len(),
{
    if vals.len() == 0 {
        Seq::empty()
    } else {
        match vals.last() {
            Some(i) => somes(vals.drop_last()).push(i as int),
            None => somes(vals.drop_last()),
        }
    }
}

/// Whether a ledger records exactly the standings after `k` entries.
pub open spec fn ledger_matches(slots: Seq<Slot>, es: Seq<Entry>, k: int) -> bool {
    &&& keys_of(slots).no_duplicates()
    &&& forall|j: int|
        0 <= j < slots.len() ==> standing(es, (#[trigger] slots[j]).0, k) == match slots[j].1 {
            None => Standing::Tomb,
            Some(i) => Standing::Held(i as int),
        }
    &&& forall|m: Seq<char>| #[trigger]
        standing(es, m, k) != Standing::Vacant ==> keys_of(slots).contains(m)
    &&& somes(values_of(slots)) == held(es, k)
}

/// The positions that take hold are in range and strictly increasing.
pub proof fn lemma_held_increasing(es: Seq<Entry>, k: int)
    requires
        0 <= k <= es.len(),
    ensures
        forall|a: int| 0 <= a < held(es, k).len() ==> 0 <= #[trigger] held(es, k)[a] < k,
        forall|a: int, b: int|
            0 <= a < b < held(es, k).len() ==> held(es, k)[a] < held(es, k)[b],
    decreases k,
{
    if k > 0 {
        lemma_held_increasing(es, k - 1);
        let h = held(es, k);
        let g = held(es, k - 1);
        assert forall|a: int| 0 <= a < h.len() implies 0 <= #[trigger] h[a] < k by {
            if a < g.len() {
                assert(h[a] == g[a]);
            }
        }
        assert forall|a: int, b: int| 0 <= a < b < h.len() implies h[a] < h[b] by {
            assert(h[a] == g[a]);
            if b < g.len() {
                assert(h[b] == g[b]);
            }
        }
    }
}

/// The current positions are in range and strictly increasing.
pub proof fn lemma_current_increasing(es: Seq<Entry>, k: int)
    requires
        0 <= k <= es.len(),
    ensures
        forall|a: int| 0 <= a < current(es, k).len() ==> 0 <= #[trigger] current(es, k)[a] < k,
        forall|a: int, b: int|
            0 <= a < b < current(es, k).len() ==> current(es, k)[a] < current(es, k)[b],
    decreases k,
{
    if k > 0 {
        lemma_current_increasing(es, k - 1);
        let h = current(es, k);
        let g = current(es, k - 1);
        assert forall|a: int| 0 <= a < h.len() implies 0 <= #[trigger] h[a] < k by {
            if a < g.len() {
                assert(h[a] == g[a]);
            }
        }
        assert forall|a: int, b: int| 0 <= a < b < h.len() implies h[a] < h[b] by {
            assert(h[a] == g[a]);
            if b < g.len() {
                assert(h[b] == g[b]);
            }
        }
    }
}

proof fn lemma_somes_remove(vals: Seq<Option<usize>>, j: int)
    requires
        0 <= j < vals.len(),
        vals[j] is None,
    ensures
        somes(vals.remove(j)) == somes(vals),
    decreases vals.len(),
{
    if j == vals.len() - 1 {
        assert(vals.remove(j) =~= vals.drop_last());
    } else {
        let r = vals.remove(j);
        assert(r.last() == vals.last());
        assert(r.drop_last() =~= vals.drop_last().remove(j));
        lemma_somes_remove(vals.drop_last(), j);
    }
}

proof fn lemma_key_found(slots: Seq<Slot>, m: Seq<char>, i: int)
    requires
        keys_of(slots).no_duplicates(),
        0 <= i < slots.len(),
        slots[i].0 == m,
    ensures
        keys_of(slots).index_of_first(m) == Some(i),
{
    let ks = keys_of(slots);
    ks.index_of_first_ensures(m);
    assert(ks[i] == m);
    assert(ks.contains(m));
    let f = ks.index_of_first(m).unwrap();
    assert(ks[f] == ks[i]);
}

proof fn lemma_replay_insert(
    slots: Seq<Slot>,
    es: Seq<Entry>,
    k: int,
    v: Option<usize>,
    after: Seq<Slot>,
)
    requires
        0 <= k < es.len(),
        ledger_matches(slots, es, k),
        !keys_of(slots).contains(es[k].0),
        v == if es[k].1 == SetOperation::Add {
            Some(k as usize)
        } else {
            None::<usize>
        },
        k <= usize::MAX,
        after == slots.push((es[k].0, v)),
        keys_of(after).no_duplicates(),
    ensures
        ledger_matches(after, es, k + 1),
{
    let m0 = es[k].0;
    assert(standing(es, m0, k) == Standing::Vacant);
    assert(values_of(after) =~= values_of(slots).push(v));
    assert(values_of(after).drop_last() =~= values_of(slots));
    assert forall|j: int| 0 <= j < after.len() implies standing(es, (#[trigger] after[j]).0, k + 1)
        == match after[j].1 {
        None => Standing::Tomb,
        Some(i) => Standing::Held(i as int),
    } by {
        if j < slots.len() {
            assert(after[j] == slots[j]);
            assert(keys_of(slots)[j] == slots[j].0);
            assert(keys_of(slots).contains(slots[j].0));
        }
    }
    assert forall|m: Seq<char>| #[trigger]
        standing(es, m, k + 1) != Standing::Vacant implies keys_of(after).contains(m) by {
        if m == m0 {
            assert(keys_of(after)[slots.len() as int] == m0);
        } else {
            assert(standing(es, m, k) != Standing::Vacant);
            let j = choose|j: int| 0 <= j < keys_of(slots).len() && keys_of(slots)[j] == m;
            assert(keys_of(after)[j] == m);
        }
    }
}

proof fn lemma_replay_remove(slots: Seq<Slot>, es: Seq<Entry>, k: int, j0: int, after: Seq<Slot>)
    requires
        0 <= k < es.len(),
        ledger_matches(slots, es, k),
        es[k].1 == SetOperation::Add,
        0 <= j0 < slots.len(),
        slots[j0] == (es[k].0, None::<usize>),
        after == slots.remove(j0),
    ensures
        ledger_matches(after, es, k + 1),
{
    let m0 = es[k].0;
    assert(standing(es, m0, k) == Standing::Tomb);
    assert(values_of(after) =~= values_of(slots).remove(j0));
    lemma_somes_remove(values_of(slots), j0);
    assert forall|a: int, b: int|
        0 <= a < keys_of(after).len() && 0 <= b < keys_of(after).len() && a != b implies keys_of(
        after,
    )[a] != keys_of(after)[b] by {
        let a0 = if a < j0 {
            a
        } else {
            a + 1
        };
        let b0 = if b < j0 {
            b
        } else {
            b + 1
        };
        assert(keys_of(after)[a] == keys_of(slots)[a0]);
        assert(keys_of(after)[b] == keys_of(slots)[b0]);
    }
    assert forall|j: int| 0 <= j < after.len() implies standing(es, (#[trigger] after[j]).0, k + 1)
        == match after[j].1 {
        None => Standing::Tomb,
        Some(i) => Standing::Held(i as int),
    } by {
        let j1 = if j < j0 {
            j
        } else {
            j + 1
        };
        assert(after[j] == slots[j1]);
        assert(keys_of(slots)[j1] == slots[j1].0);
        assert(keys_of(slots)[j0] == m0);
        assert(slots[j1].0 != m0);
    }
    assert forall|m: Seq<char>| #[trigger]
        standing(es, m, k + 1) != Standing::Vacant implies keys_of(after).contains(m) by {
        assert(m != m0);
        assert(standing(es, m, k) != Standing::Vacant);
        let j = choose|j: int| 0 <= j < keys_of(slots).len() && keys_of(slots)[j] == m;
        assert(keys_of(slots)[j0] == m0);
        let j1 = if j < j0 {
            j
        } else {
            j - 1
        };
        assert(keys_of(after)[j1] == m);
    }
}

proof fn lemma_replay_skip(slots: Seq<Slot>, es: Seq<Entry>, k: int, j0: int)
    requires
        0 <= k < es.len(),
        ledger_matches(slots, es, k),
        0 <= j0 < slots.len(),
        slots[j0].0 == es[k].0,
        es[k].1 == SetOperation::Del || slots[j0].1 is Some,
    ensures
        ledger_matches(slots, es, k + 1),
{
    let m0 = es[k].0;
    assert(standing(es, m0, k) != Standing::Vacant);
    assert forall|j: int| 0 <= j < slots.len() implies standing(es, (#[trigger] slots[j]).0, k + 1)
        == match slots[j].1 {
        None => Standing::Tomb,
        Some(i) => Standing::Held(i as int),
    } by {
        if slots[j].0 == m0 {
            assert(keys_of(slots)[j] == keys_of(slots)[j0]);
            assert(j == j0);
        }
    }
    assert forall|m: Seq<char>| #[trigger]
        standing(es, m, k + 1) != Standing::Vacant implies keys_of(slots).contains(m) by {
        if m == m0 {
            assert(keys_of(slots)[j0] == m0);
        } else {
            assert(standing(es, m, k) != Standing::Vacant);
        }
    }
}

/// Takes the element at `i` out of `v`, together with everything behind it.
fn take_at<T>(v: &mut Vec<T>, i: usize) -> (r: T)
    requires
        i < old(v).len(),
    ensures
        r == old(v)@[i as int],
        final(v)@ == old(v)@.subrange(0, i as int),
{
    v.truncate(i + 1);
    let r = v.pop().unwrap();
    proof {
        assert(v@ =~= old(v)@.subrange(0, i as int));
    }
    r
}

/// The records at the positions `idx` of a walk, last position first.
fn take_descending<T: Record>(walk: Vec<(T, SetOperation)>, idx: &Vec<usize>) -> (r: Vec<T>)
    requires
        forall|a: int| 0 <= a < idx.len() ==> idx@[a] < walk.len(),
        forall|a: int, b: int| 0 <= a < b < idx.len() ==> idx@[a] < idx@[b],
    ensures
        r.len() == idx.len(),
        forall|q: int| 0 <= q < r.len() ==> r@[q] == walk@[idx@[idx.len() - 1 - q] as int].0,
{
    let mut rest = walk;
    let mut out: Vec<T> = Vec::new();
    let mut t: usize = idx.len();
    while t > 0
        invariant
            t <= idx.len(),
            out.len() == idx.len() - t,
            rest@.len() <= walk@.len(),
            rest@ == walk@.subrange(0, rest@.len() as int),
            t > 0 ==> idx@[t - 1] < rest@.len(),
            forall|a: int| 0 <= a < idx.len() ==> idx@[a] < walk.len(),
            forall|a: int, b: int| 0 <= a < b < idx.len() ==> idx@[a] < idx@[b],
            forall|q: int| 0 <= q < out.len() ==> out@[q] == walk@[idx@[idx.len() - 1 - q] as int].0,
        decreases t,
    {
        t = t - 1;
        let i = idx[t];
        let item = take_at(&mut rest, i);
        out.push(item.0);
    }
    out
}

/// The elements of `v`, last first.
fn reversed<T>(v: Vec<T>) -> (r: Vec<T>)
    ensures
        r.len() == v.len(),
        forall|q: int| 0 <= q < r.len() ==> r@[q] == v@[v.len() - 1 - q],
{
    let mut rest = v;
    let mut out: Vec<T> = Vec::new();
    while rest.len() > 0
        invariant
            rest@.len() <= v@.len(),
            rest@ == v@.subrange(0, rest@.len() as int),
            out.len() == v.len() - rest.len(),
            forall|q: int| 0 <= q < out.len() ==> out@[q] == v@[v.len() - 1 - q],
        decreases rest.len(),
    {
        let x = rest.pop().unwrap();
        out.push(x);
        proof {
            assert(rest@ =~= v@.subrange(0, rest@.len() as int));
        }
    }
    out
}

/// Looks `message` up in a walk of a set: the newest record for it decides.
///
/// `Ok` holds the add that makes the message a member; `Err(Some(_))` the delete that
/// removed it; `Err(None)` says that the set has never heard of it.
pub fn find_in<T: Record>(walk: Vec<(T, SetOperation)>, message: &str) -> (r: core::result::Result<
    T,
    Option<T>,
>)
    ensures
        match newest(entries_of(walk@), message@) {
            Some(i) => r == if walk@[i].1 == SetOperation::Add {
                Ok::<T, Option<T>>(walk@[i].0)
            } else {
                Err::<T, Option<T>>(Some(walk@[i].0))
            },
            None => r == Err::<T, Option<T>>(None),
        },
{
    let mut rest = walk;
    let ghost ms = messages(entries_of(walk@));
    let mut i: usize = 0;
    while i < rest.len()
        invariant
            i <= rest.len(),
            rest@ == walk@,
            ms == messages(entries_of(walk@)),
            forall|j: int| 0 <= j < i ==> ms[j] != message@,
        decreases rest.len() - i,
    {
        let m = rest[i].0.message();
        if same_text(m.as_str(), message) {
            proof {
                ms.index_of_first_ensures(message@);
                assert(ms[i as int] == message@);
                assert(ms.contains(message@));
            }
            let found = rest.remove(i);
            return match found.1 {
                SetOperation::Add => Ok(found.0),
                SetOperation::Del => Err(Some(found.0)),
            };
        }
        i = i + 1;
    }
    proof {
        ms.index_of_first_ensures(message@);
    }
    Err(None)
}

/// The records that a replay of the whole walk holds, oldest first.
///
/// The replay reads the walk newest first and keeps, for each message, what
/// [`standing`] describes; the records that took hold come out in the reverse of the
/// order in which they did.
pub fn get_all_in<T: Record>(walk: Vec<(T, SetOperation)>) -> (r: Vec<T>)
    ensures
        r.len() == kept(entries_of(walk@)).len(),
        forall|q: int|
            0 <= q < r.len() ==> r@[q] == walk@[kept(entries_of(walk@))[r.len() - 1 - q]].0,
{
    let ghost es = entries_of(walk@);
    let mut ledger: IndexMap<String, Option<usize>> = ledger_new();
    let mut k: usize = 0;
    proof {
        assert(values_of(ledger_entries(ledger)) =~= Seq::<Option<usize>>::empty());
    }
    while k < walk.len()
        invariant
            k <= walk.len(),
            es == entries_of(walk@),
            ledger_matches(ledger_entries(ledger), es, k as int),
        decreases walk.len() - k,
    {
        let message = walk[k].0.message();
        let ghost slots = ledger_entries(ledger);
        let noted = ledger_get(&ledger, message.as_str());
        proof {
            assert(es[k as int].0 == message@);
            assert(es[k as int].1 == walk@[k as int].1);
        }
        match walk[k].1 {
            SetOperation::Add => match noted {
                Some(None) => {
                    let ghost j0 = choose|i: int|
                        0 <= i < slots.len() && slots[i] == (message@, None::<usize>);
                    proof {
                        lemma_key_found(slots, message@, j0);
                    }
                    ledger_shift_remove(&mut ledger, message.as_str());
                    proof {
                        lemma_replay_remove(slots, es, k as int, j0, ledger_entries(ledger));
                    }
                },
                Some(Some(held_at)) => {
                    let ghost j0 = choose|i: int|
                        0 <= i < slots.len() && slots[i] == (message@, Some(held_at));
                    proof {
                        lemma_replay_skip(slots, es, k as int, j0);
                    }
                },
                None => {
                    proof {
                        keys_of(slots).index_of_first_ensures(message@);
                    }
                    ledger_insert(&mut ledger, message, Some(k));
                    proof {
                        lemma_replay_insert(
                            slots,
                            es,
                            k as int,
                            Some(k),
                            ledger_entries(ledger),
                        );
                    }
                },
            },
            SetOperation::Del => match noted {
                Some(v) => {
                    let ghost j0 = choose|i: int| 0 <= i < slots.len() && slots[i] == (message@, v);
                    proof {
                        lemma_replay_skip(slots, es, k as int, j0);
                    }
                },
                None => {
                    proof {
                        keys_of(slots).index_of_first_ensures(message@);
                    }
                    ledger_insert(&mut ledger, message, None);
                    proof {
                        lemma_replay_insert(slots, es, k as int, None, ledger_entries(ledger));
                    }
                },
            },
        }
        k = k + 1;
    }
    let vals = ledger_into_values(ledger);
    let mut idx: Vec<usize> = Vec::new();
    let mut j: usize = 0;
    while j < vals.len()
        invariant
            j <= vals.len(),
            ints(idx@) == somes(vals@.subrange(0, j as int)),
        decreases vals.len() - j,
    {
        proof {
            assert(vals@.subrange(0, j + 1).drop_last() =~= vals@.subrange(0, j as int));
        }
        match vals[j] {
            Some(i) => {
                idx.push(i);
                proof {
                    assert(ints(idx@) =~= somes(vals@.subrange(0, j + 1)));
                }
            },
            None => {},
        }
        j = j + 1;
    }
    proof {
        assert(vals@.subrange(0, j as int) =~= vals@);
        lemma_held_increasing(es, es.len() as int);
        assert(ints(idx@) == kept(es));
        assert forall|a: int| 0 <= a < idx.len() implies idx@[a] < walk.len() by {
            assert(ints(idx@)[a] == idx@[a] as int);
        }
        assert forall|a: int, b: int| 0 <= a < b < idx.len() implies idx@[a] < idx@[b] by {
            assert(ints(idx@)[a] == idx@[a] as int);
            assert(ints(idx@)[b] == idx@[b] as int);
        }
    }
    let r = take_descending(walk, &idx);
    proof {
        assert forall|q: int| 0 <= q < r.len() implies r@[q] == walk@[kept(es)[r.len() - 1 - q]].0 by {
            assert(ints(idx@)[idx.len() - 1 - q] == idx@[idx.len() - 1 - q] as int);
        }
    }
    r
}

/// The first position with a given message is the newest entry for it.
pub proof fn lemma_newest_at(es: Seq<Entry>, m: Seq<char>, i: int)
    requires
        0 <= i < es.len(),
        es[i].0 == m,
        forall|j: int| 0 <= j < i ==> es[j].0 != m,
    ensures
        newest(es, m) == Some(i),
{
    let ms = messages(es);
    ms.index_of_first_ensures(m);
    assert(ms[i] == m);
    assert(ms.contains(m));
    let f = ms.index_of_first(m).unwrap();
    if f < i {
        assert(es[f].0 != m);
        assert(ms[f] == es[f].0);
    }
}

/// What the newest entry for a message is: the first position that holds it.
pub proof fn lemma_newest_is_first(es: Seq<Entry>, m: Seq<char>)
    ensures
        match newest(es, m) {
            Some(i) => 0 <= i < es.len() && es[i].0 == m && forall|j: int|
                0 <= j < i ==> (#[trigger] es[j]).0 != m,
            None => forall|j: int| 0 <= j < es.len() ==> (#[trigger] es[j]).0 != m,
        },
{
    let ms = messages(es);
    ms.index_of_first_ensures(m);
    match newest(es, m) {
        Some(i) => {
            assert forall|j: int| 0 <= j < i implies (#[trigger] es[j]).0 != m by {
                assert(ms[j] == es[j].0);
            }
        },
        None => {
            assert forall|j: int| 0 <= j < es.len() implies (#[trigger] es[j]).0 != m by {
                assert(ms[j] == es[j].0);
            }
        },
    }
}

/// A position that a walk has read is current exactly when it is an add of a message
/// that no newer entry has.
pub proof fn lemma_current_is_first_add(es: Seq<Entry>, i: int)
    requires
        0 <= i < es.len(),
    ensures
        is_current(es, i) <==> (es[i].1 == SetOperation::Add && forall|j: int|
            0 <= j < i ==> (#[trigger] es[j]).0 != es[i].0),
{
    lemma_newest_is_first(es, es[i].0);
    if es[i].1 == SetOperation::Add && forall|j: int|
        0 <= j < i ==> (#[trigger] es[j]).0 != es[i].0 {
        lemma_newest_at(es, es[i].0, i);
    }
}

/// Positions without a current one between them add nothing to the current ones.
pub proof fn lemma_current_gap(es: Seq<Entry>, a: int, b: int)
    requires
        0 <= a <= b <= es.len(),
        forall|j: int| a <= j < b ==> !is_current(es, j),
    ensures
        current(es, b) == current(es, a),
    decreases b - a,
{
    if a < b {
        lemma_current_gap(es, a, b - 1);
    }
}

/// Walks the members of a set, newest first: it reads a walk of the set and yields the
/// record of each add whose message no newer record has. It keeps the messages that it
/// has read, so that each message is decided by its newest record alone.
pub struct SetWalkIterator<T: Record> {
    rest: Vec<(T, SetOperation)>,
    seen: StringHashSet,
    read: Ghost<Seq<(T, SetOperation)>>,
}

impl<T: Record> SetWalkIterator<T> {
    /// The walk that the iterator reads, newest first.
    pub closed spec fn all(&self) -> Seq<(T, SetOperation)> {
        self.read@ + Seq::new(
            self.rest@.len(),
            |i: int| self.rest@[self.rest@.len() - 1 - i],
        )
    }

    /// How many records of the walk the iterator has read.
    pub closed spec fn position(&self) -> int {
        self.read@.len() as int
    }

    /// The invariant of the iterator: it has seen the messages of what it has read.
    pub closed spec fn wf(&self) -> bool {
        forall|m: Seq<char>|
            self.seen@.contains(m) <==> exists|j: int|
                0 <= j < self.read@.len() && (#[trigger] self.read@[j]).0.data().message == m
    }

    /// An iterator at the start of `walk`.
    pub fn new(walk: Vec<(T, SetOperation)>) -> (it: Self)
        ensures
            it.wf(),
            it.all() == walk@,
            it.position() == 0,
    {
        let rest = reversed(walk);
        let it = SetWalkIterator { rest, seen: StringHashSet::new(), read: Ghost(Seq::empty()) };
        proof {
            assert(it.all() =~= walk@);
        }
        it
    }

    /// The next member of the set: the record at the first current position that is
    /// still to be read, or `None` when there is none left.
    pub fn next(&mut self) -> (r: Option<T>)
        requires
            old(self).wf(),
        ensures
            final(self).wf(),
            final(self).all() == old(self).all(),
            old(self).position() <= final(self).position() <= old(self).all().len(),
            forall|j: int|
                old(self).position() <= j < final(self).position() - 1 ==> !is_current(
                    entries_of(old(self).all()),
                    j,
                ),
            match r {
                Some(x) => {
                    &&& old(self).position() < final(self).position()
                    &&& is_current(entries_of(old(self).all()), final(self).position() - 1)
                    &&& x == old(self).all()[final(self).position() - 1].0
                },
                None => {
                    &&& final(self).position() == old(self).all().len()
                    &&& final(self).position() > old(self).position() ==> !is_current(
                        entries_of(old(self).all()),
                        final(self).position() - 1,
                    )
                },
            },
    {
        let ghost all = self.all();
        let ghost es = entries_of(all);
        let ghost start = self.position();
        while self.rest.len() > 0
            invariant
                self.wf(),
                self.all() == all,
                all == old(self).all(),
                start == old(self).position(),
                es == entries_of(all),
                start <= self.position() <= all.len(),
                self.position() + self.rest@.len() == all.len(),
                forall|j: int| start <= j < self.position() ==> !is_current(es, j),
            decreases self.rest.len(),
        {
            let ghost k = self.position();
            let ghost read = self.read@;
            let ghost seen = self.seen@;
            let ghost rest = self.rest@;
            let item = self.rest.pop().unwrap();
            proof {
                assert(all[k] == item) by {
                    assert(all[k] == rest[rest.len() - 1]);
                }
                self.read = Ghost(read.push(item));
                assert(self.all() =~= all);
                lemma_current_is_first_add(es, k);
                assert forall|j: int| 0 <= j < k implies es[j].0 == read[j].0.data().message by {
                    assert(all[j] == read[j]);
                }
            }
            let message = item.0.message();
            let fresh = !self.seen.contains(message.as_str());
            if fresh {
                self.seen.insert(message);
            }
            proof {
                assert forall|m: Seq<char>|
                    self.seen@.contains(m) <==> exists|j: int|
                        0 <= j < self.read@.len() && (#[trigger] self.read@[j]).0.data().message
                            == m by {
                    if seen.contains(m) {
                        let j = choose|j: int|
                            0 <= j < read.len() && (#[trigger] read[j]).0.data().message == m;
                        assert(self.read@[j] == read[j]);
                    }
                    if m == es[k].0 {
                        assert(self.read@[k] == item);
                    }
                    if exists|j: int|
                        0 <= j < self.read@.len() && (#[trigger] self.read@[j]).0.data().message
                            == m {
                        let j = choose|j: int|
                            0 <= j < self.read@.len() && (#[trigger] self.read@[j]).0.data().message
                                == m;
                        if j < k {
                            assert(read[j] == self.read@[j]);
                        }
                    }
                }
                if !fresh {
                    let j = choose|j: int|
                        0 <= j < read.len() && (#[trigger] read[j]).0.data().message == es[k].0;
                    assert(es[j].0 == es[k].0);
                }
            }
            if fresh {
                match item.1 {
                    SetOperation::Add => {
                        return Some(item.0);
                    },
                    SetOperation::Del => {},
                }
            }
        }
        None
    }
}

/// The members of a set, newest first: each message that is in the set, once, by the
/// record that added it last.
pub fn present_in<T: Record>(walk: Vec<(T, SetOperation)>) -> (r: Vec<T>)
    ensures
        r.len() == present(entries_of(walk@)).len(),
        forall|q: int| 0 <= q < r.len() ==> r@[q] == walk@[present(entries_of(walk@))[q]].0,
{
    let ghost es = entries_of(walk@);
    let mut members = SetWalkIterator::new(walk);
    let mut out: Vec<T> = Vec::new();
    let mut done = false;
    while !done
        invariant
            members.wf(),
            members.all() == walk@,
            es == entries_of(walk@),
            0 <= members.position() <= walk@.len(),
            done ==> members.position() == walk@.len(),
            out.len() == current(es, members.position()).len(),
            forall|q: int|
                0 <= q < out.len() ==> out@[q] == walk@[current(es, members.position())[q]].0,
        decreases walk@.len() - members.position() + if done { 0int } else { 1int },
    {
        let ghost from = members.position();
        let ghost before = current(es, from);
        match members.next() {
            Some(x) => {
                let ghost at = members.position() - 1;
                proof {
                    lemma_current_gap(es, from, at);
                    assert(current(es, at + 1) == before.push(at));
                }
                out.push(x);
            },
            None => {
                proof {
                    if members.position() > from {
                        lemma_current_gap(es, from, members.position() - 1);
                    }
                }
                done = true;
            },
        }
    }
    out
}

} // verus!
