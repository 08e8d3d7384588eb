//! The backend contract: a store of named collections of records, and the set
//! operations that every backend gets on top of it.

use vstd::prelude::*;
use crate::error::{Error, Result};
use crate::record::{
    contents, head_attachments, head_id, is_chain, is_set_log, overlay, Change, Record, RecordBuilder,
    RecordView, SetOperation,
};
use crate::set::{
    added, deleted, entries_of, find_in, get_all_in, is_member, kept, newest, present,
    present_in, Entry, SetWalkIterator,
};

verus! {

/// The entries of a log of a set: for each record its message and operation.
pub open spec fn set_entries(log: Seq<RecordView>) -> Seq<Entry> {
    Seq::new(
        log.len(),
        |i: int|
            (
                log[i].message,
                match log[i].op {
                    Some(op) => op,
                    None => SetOperation::Add,
                },
            ),
    )
}

/// The mathematical content of a backend.
pub struct StoreView {
    /// Whether the backend never fails for reasons of its own.
    pub reliable: bool,
    /// The author name that new records get.
    pub author: Seq<char>,
    /// The email address that new records get.
    pub email: Seq<char>,
    /// The records of each collection, newest first; empty for a collection that does
    /// not exist.
    pub logs: spec_fn(Seq<char>) -> Seq<RecordView>,
    /// The record that is found under each identifier.
    pub records: spec_fn(Seq<char>) -> Option<RecordView>,
    /// The attachment contents that the backend holds, by blob id.
    pub blobs: Map<Seq<char>, Seq<u8>>,
    /// The blob id under which the backend files a content.
    pub blob_ids: spec_fn(Seq<u8>) -> Seq<char>,
}

impl StoreView {
    /// The records of `collection`, newest first.
    pub open spec fn log(self, collection: Seq<char>) -> Seq<RecordView> {
        (self.logs)(collection)
    }

    /// The record found under `id`.
    pub open spec fn stored(self, id: Seq<char>) -> Option<RecordView> {
        (self.records)(id)
    }

    /// The blob id of `bytes`.
    pub open spec fn blob_id(self, bytes: Seq<u8>) -> Seq<char> {
        (self.blob_ids)(bytes)
    }
}

/// The attachment changes of a builder with each content replaced by its blob id.
pub open spec fn addressed(store: StoreView, changes: Seq<Change>) -> Seq<
    (Seq<char>, Option<Seq<char>>),
> {
    Seq::new(
        changes.len(),
        |i: int|
            (
                changes[i].0,
                match changes[i].1 {
                    Some(bytes) => Some(store.blob_id(bytes)),
                    None => None,
                },
            ),
    )
}

/// The blobs `base` once the contents that `changes` store are filed under their ids,
/// oldest change first.
pub open spec fn filed(store: StoreView, base: Map<Seq<char>, Seq<u8>>, changes: Seq<Change>) -> Map<
    Seq<char>,
    Seq<u8>,
>
    decreases changes.len(),
{
    if changes.len() == 0 {
        base
    } else {
        let before = filed(store, base, changes.drop_last());
        match changes.last().1 {
            Some(bytes) => before.insert(store.blob_id(bytes), bytes),
            None => before,
        }
    }
}

/// The content that `attachments` and `blobs` give for `name`.
pub open spec fn attached(
    blobs: Map<Seq<char>, Seq<u8>>,
    attachments: Map<Seq<char>, Seq<char>>,
    name: Seq<char>,
) -> Option<Seq<u8>> {
    if attachments.contains_key(name) && blobs.contains_key(attachments[name]) {
        Some(blobs[attachments[name]])
    } else {
        None
    }
}

/// Whether two states of a backend have the same configuration.
pub open spec fn same_setup(before: StoreView, after: StoreView) -> bool {
    &&& after.reliable == before.reliable
    &&& after.author == before.author
    &&& after.email == before.email
    &&& forall|bytes: Seq<u8>| #[trigger] after.blob_id(bytes) == before.blob_id(bytes)
}

/// Whether two states of a backend hold the same collections.
pub open spec fn same_logs(before: StoreView, after: StoreView) -> bool {
    forall|d: Seq<char>| #[trigger] after.log(d) == before.log(d)
}

/// Whether `after` is `before` with the record `x` placed at the head of `c`.
pub open spec fn appended(before: StoreView, after: StoreView, c: Seq<char>, x: RecordView) -> bool {
    &&& after.log(c) == seq![x] + before.log(c)
    &&& forall|d: Seq<char>| d != c ==> #[trigger] after.log(d) == before.log(d)
    &&& after.stored(x.id) == Some(x)
    &&& forall|j: Seq<char>| j != x.id ==> #[trigger] after.stored(j) == before.stored(j)
    &&& x.parent == head_id(before.log(c))
    &&& x.author == before.author
    &&& x.email == before.email
}

/// A store of collections: named, append-only logs of records.
///
/// Two kinds of backends exist. A reliable one never fails for reasons of its own, so
/// that the outcome of every operation follows from its arguments and the store. Any
/// other may fail at any call; what it stores is then as the contract of the call
/// says.
pub trait Remote: Sized {
    /// The type of the records of this backend.
    type Record: Record;

    /// The type of the record builders of this backend.
    type RecordBuilder: RecordBuilder;

    /// The invariant of the backend.
    open spec fn wf(&self) -> bool {
        true
    }

    /// What the backend holds.
    open spec fn state(&self) -> StoreView {
        arbitrary()
    }

    /// The records of a collection, newest first. They come in the order of the chain
    /// of parents: each names the next as its parent, and the last names none.
    fn walk(&self, collection: &str) -> (r: Result<Vec<Self::Record>>)
        requires
            self.wf(),
        ensures
            self.state().reliable ==> r is Ok,
            r matches Ok(v) ==> contents(v@) == self.state().log(collection@) && is_chain(
                contents(v@),
            ),
    ;

    /// A builder for a record of `collection`, with no changes asked for yet.
    fn record_builder(&self, collection: &str) -> (b: Self::RecordBuilder)
        requires
            self.wf(),
        ensures
            b.collection() == collection@,
            b.changes() == Seq::<Change>::empty(),
            b.operation() is None,
            b.is_reliable() == self.state().reliable,
    ;

    /// Commits the record that `builder` describes, with `message`, as the new head of
    /// its collection. A failed commit leaves every collection as it was.
    fn commit(&mut self, builder: Self::RecordBuilder, message: &str) -> (r: Result<
        Self::Record,
    >)
        requires
            old(self).wf(),
        ensures
            final(self).wf(),
            same_setup(old(self).state(), final(self).state()),
            old(self).state().reliable ==> r is Ok,
            match r {
                Ok(x) => {
                    &&& appended(old(self).state(), final(self).state(), builder.collection(), x.data())
                    &&& x.data().message == message@
                    &&& x.data().op == builder.operation()
                    &&& x.data().attachments == overlay(
                        head_attachments(old(self).state().log(builder.collection())),
                        addressed(old(self).state(), builder.changes()),
                    )
                    &&& final(self).state().blobs == filed(
                        old(self).state(),
                        old(self).state().blobs,
                        builder.changes(),
                    )
                },
                Err(_) => same_logs(old(self).state(), final(self).state()),
            },
    ;

    /// The record stored under `id`.
    fn get_record(&self, id: &str) -> (r: Result<Option<Self::Record>>)
        requires
            self.wf(),
        ensures
            self.state().reliable ==> r is Ok,
            r matches Ok(found) ==> match found {
                Some(x) => self.state().stored(id@) == Some(x.data()),
                None => self.state().stored(id@) is None,
            },
    ;

    /// Adds `message` to a set without looking whether it is a member.
    fn set_add_unchecked(&mut self, collection: &str, message: &str) -> (r: Result<Self::Record>)
        requires
            old(self).wf(),
        ensures
            final(self).wf(),
            same_setup(old(self).state(), final(self).state()),
            old(self).state().reliable ==> r is Ok,
            match r {
                Ok(x) => {
                    &&& appended(old(self).state(), final(self).state(), collection@, x.data())
                    &&& x.data().message == message@
                    &&& x.data().op == Some(SetOperation::Add)
                    &&& x.data().attachments == head_attachments(old(self).state().log(collection@))
                    &&& final(self).state().blobs == old(self).state().blobs
                },
                Err(_) => same_logs(old(self).state(), final(self).state()),
            },
    ;

    /// Deletes `message` from a set without looking whether it is a member.
    fn set_del_unchecked(&mut self, collection: &str, message: &str) -> (r: Result<Self::Record>)
        requires
            old(self).wf(),
        ensures
            final(self).wf(),
            same_setup(old(self).state(), final(self).state()),
            old(self).state().reliable ==> r is Ok,
            match r {
                Ok(x) => {
                    &&& appended(old(self).state(), final(self).state(), collection@, x.data())
                    &&& x.data().message == message@
                    &&& x.data().op == Some(SetOperation::Del)
                    &&& x.data().attachments == head_attachments(old(self).state().log(collection@))
                    &&& final(self).state().blobs == old(self).state().blobs
                },
                Err(_) => same_logs(old(self).state(), final(self).state()),
            },
    ;

    /// The records of a set with their operations, newest first. A collection that
    /// holds a record without an operation is no set, and walking it as one fails.
    fn walk_set(&self, collection: &str) -> (r: Result<Vec<(Self::Record, SetOperation)>>)
        requires
            self.wf(),
        ensures
            self.state().reliable ==> (r is Ok <==> is_set_log(self.state().log(collection@))),
            self.state().reliable && r is Err ==> r matches Err(Error::Malformed(_)),
            r matches Ok(v) ==> {
                &&& is_set_log(self.state().log(collection@))
                &&& v.len() == self.state().log(collection@).len()
                &&& forall|i: int|
                    0 <= i < v.len() ==> (#[trigger] v@[i]).0.data() == self.state().log(collection@)[i]
                        && self.state().log(collection@)[i].op == Some(v@[i].1)
            },
    ;

    /// The content stored under `name` as of `record`.
    fn attachment(&self, record: &Self::Record, name: &str) -> (r: Result<Option<Vec<u8>>>)
        requires
            self.wf(),
        ensures
            self.state().reliable ==> r is Ok,
            r matches Ok(found) ==> match found {
                Some(bytes) => attached(self.state().blobs, record.data().attachments, name@) == Some(
                    bytes@,
                ),
                None => attached(self.state().blobs, record.data().attachments, name@) is None,
            },
    ;

    /// The newest record of a collection, or `None` for an empty one.
    fn latest(&self, collection: &str) -> (r: Result<Option<Self::Record>>)
        requires
            self.wf(),
        ensures
            self.state().reliable ==> r is Ok,
            r matches Ok(found) ==> match found {
                Some(x) => self.state().log(collection@).len() > 0 && x.data() == self.state().log(
                    collection@,
                )[0],
                None => self.state().log(collection@).len() == 0,
            },
    {
        match self.walk(collection) {
            Ok(v) => {
                let mut v = v;
                if v.len() == 0 {
                    Ok(None)
                } else {
                    let ghost w = v@;
                    let x = v.remove(0);
                    proof {
                        assert(contents(w)[0] == x.data());
                    }
                    Ok(Some(x))
                }
            },
            Err(e) => Err(e),
        }
    }

    /// Looks `message` up in a set. `Ok(record)`: it is a member, added by `record`.
    /// `Err(Some(record))`: it is none, deleted by `record`. `Err(None)`: the set has
    /// no record of it.
    fn set_find(&self, collection: &str, message: &str) -> (r: Result<
        core::result::Result<Self::Record, Option<Self::Record>>,
    >)
        requires
            self.wf(),
        ensures
            self.state().reliable ==> (r is Ok <==> is_set_log(self.state().log(collection@))),
            self.state().reliable && r is Err ==> r matches Err(Error::Malformed(_)),
            r matches Ok(found) ==> is_set_log(self.state().log(collection@)) && found_as(
                self.state().log(collection@),
                message@,
                found,
            ),
    {
        match self.walk_set(collection) {
            Ok(v) => {
                proof {
                    lemma_walk_entries::<Self::Record>(v@, self.state().log(collection@));
                }
                let found = find_in(v, message);
                proof {
                    let es = set_entries(self.state().log(collection@));
                    crate::set::lemma_newest_is_first(es, message@);
                    if newest(es, message@) is Some {
                        let i = newest(es, message@)->0;
                        assert(v@[i].0.data() == self.state().log(collection@)[i]);
                    }
                }
                Ok(found)
            },
            Err(e) => Err(e),
        }
    }

    /// Adds `message` to a set unless it is a member. `Ok(Err(record))`: it was one,
    /// added by `record`, and nothing changed. `Ok(Ok((record, tombstone)))`: `record`
    /// adds it, and `tombstone` is the delete that had removed it, if any.
    fn set_add(&mut self, collection: &str, message: &str) -> (r: Result<
        core::result::Result<(Self::Record, Option<Self::Record>), Self::Record>,
    >)
        requires
            old(self).wf(),
        ensures
            final(self).wf(),
            same_setup(old(self).state(), final(self).state()),
            old(self).state().reliable ==> (r is Ok <==> is_set_log(old(self).state().log(collection@))),
            old(self).state().reliable && r is Err ==> r matches Err(Error::Malformed(_)),
            match r {
                Ok(Err(existing)) => {
                    &&& same_logs(old(self).state(), final(self).state())
                    &&& is_set_log(old(self).state().log(collection@))
                    &&& is_member(set_entries(old(self).state().log(collection@)), message@)
                    &&& found_as(
                        old(self).state().log(collection@),
                        message@,
                        Ok::<Self::Record, Option<Self::Record>>(existing),
                    )
                },
                Ok(Ok((x, tombstone))) => {
                    &&& is_set_log(old(self).state().log(collection@))
                    &&& !is_member(set_entries(old(self).state().log(collection@)), message@)
                    &&& found_as(
                        old(self).state().log(collection@),
                        message@,
                        Err::<Self::Record, Option<Self::Record>>(tombstone),
                    )
                    &&& appended(old(self).state(), final(self).state(), collection@, x.data())
                    &&& x.data().message == message@
                    &&& x.data().op == Some(SetOperation::Add)
                    &&& x.data().attachments == head_attachments(
                        old(self).state().log(collection@),
                    )
                    &&& final(self).state().blobs == old(self).state().blobs
                },
                Err(_) => same_logs(old(self).state(), final(self).state()),
            },
            r is Ok ==> set_entries(final(self).state().log(collection@)) == added(
                set_entries(old(self).state().log(collection@)),
                message@,
            ),
    {
        let found = match self.set_find(collection, message) {
            Ok(found) => found,
            Err(e) => {
                return Err(e);
            },
        };
        proof {
            lemma_found(self.state().log(collection@), message@, found);
        }
        match found {
            Ok(existing) => Ok(Err(existing)),
            Err(tombstone) => {
                let ghost before = *self;
                match self.set_add_unchecked(collection, message) {
                    Ok(x) => {
                        proof {
                            lemma_entries_appended(
                                before.state().log(collection@),
                                x.data(),
                                SetOperation::Add,
                            );
                        }
                        Ok(Ok((x, tombstone)))
                    },
                    Err(e) => Err(e),
                }
            },
        }
    }

    /// Deletes `message` from a set if it is a member. `Ok(Ok((record, added)))`:
    /// `record` deletes it, and `added` is the add that had made it a member.
    /// `Ok(Err(tombstone))`: it was none, and nothing changed; `tombstone` is the
    /// delete that had removed it, if any.
    fn set_del(&mut self, collection: &str, message: &str) -> (r: Result<
        core::result::Result<(Self::Record, Self::Record), Option<Self::Record>>,
    >)
        requires
            old(self).wf(),
        ensures
            final(self).wf(),
            same_setup(old(self).state(), final(self).state()),
            old(self).state().reliable ==> (r is Ok <==> is_set_log(old(self).state().log(collection@))),
            old(self).state().reliable && r is Err ==> r matches Err(Error::Malformed(_)),
            match r {
                Ok(Ok((x, existing))) => {
                    &&& is_set_log(old(self).state().log(collection@))
                    &&& is_member(set_entries(old(self).state().log(collection@)), message@)
                    &&& found_as(
                        old(self).state().log(collection@),
                        message@,
                        Ok::<Self::Record, Option<Self::Record>>(existing),
                    )
                    &&& appended(old(self).state(), final(self).state(), collection@, x.data())
                    &&& x.data().message == message@
                    &&& x.data().op == Some(SetOperation::Del)
                    &&& x.data().attachments == head_attachments(
                        old(self).state().log(collection@),
                    )
                    &&& final(self).state().blobs == old(self).state().blobs
                },
                Ok(Err(tombstone)) => {
                    &&& same_logs(old(self).state(), final(self).state())
                    &&& is_set_log(old(self).state().log(collection@))
                    &&& !is_member(set_entries(old(self).state().log(collection@)), message@)
                    &&& found_as(
                        old(self).state().log(collection@),
                        message@,
                        Err::<Self::Record, Option<Self::Record>>(tombstone),
                    )
                },
                Err(_) => same_logs(old(self).state(), final(self).state()),
            },
            r is Ok ==> set_entries(final(self).state().log(collection@)) == deleted(
                set_entries(old(self).state().log(collection@)),
                message@,
            ),
    {
        let found = match self.set_find(collection, message) {
            Ok(found) => found,
            Err(e) => {
                return Err(e);
            },
        };
        proof {
            lemma_found(self.state().log(collection@), message@, found);
        }
        match found {
            Ok(existing) => {
                let ghost before = *self;
                match self.set_del_unchecked(collection, message) {
                    Ok(x) => {
                        proof {
                            lemma_entries_appended(
                                before.state().log(collection@),
                                x.data(),
                                SetOperation::Del,
                            );
                        }
                        Ok(Ok((x, existing)))
                    },
                    Err(e) => Err(e),
                }
            },
            Err(tombstone) => Ok(Err(tombstone)),
        }
    }

    /// The records that a replay of the set holds, oldest first.
    fn set_get_all(&self, collection: &str) -> (r: Result<Vec<Self::Record>>)
        requires
            self.wf(),
        ensures
            self.state().reliable ==> (r is Ok <==> is_set_log(self.state().log(collection@))),
            self.state().reliable && r is Err ==> r matches Err(Error::Malformed(_)),
            r matches Ok(v) ==> {
                let log = self.state().log(collection@);
                let picked = kept(set_entries(log));
                &&& is_set_log(log)
                &&& v.len() == picked.len()
                &&& forall|q: int|
                    0 <= q < v.len() ==> (#[trigger] v@[q]).data() == log[picked[v.len() - 1 - q]]
            },
    {
        match self.walk_set(collection) {
            Ok(v) => {
                proof {
                    lemma_walk_entries::<Self::Record>(v@, self.state().log(collection@));
                    crate::set::lemma_held_increasing(
                        set_entries(self.state().log(collection@)),
                        v.len() as int,
                    );
                }
                let all = get_all_in(v);
                Ok(all)
            },
            Err(e) => Err(e),
        }
    }

    /// The members of the set, newest first.
    fn set_get_all_reverse(&self, collection: &str) -> (r: Result<Vec<Self::Record>>)
        requires
            self.wf(),
        ensures
            self.state().reliable ==> (r is Ok <==> is_set_log(self.state().log(collection@))),
            self.state().reliable && r is Err ==> r matches Err(Error::Malformed(_)),
            r matches Ok(v) ==> {
                let log = self.state().log(collection@);
                let picked = present(set_entries(log));
                &&& is_set_log(log)
                &&& v.len() == picked.len()
                &&& forall|q: int| 0 <= q < v.len() ==> (#[trigger] v@[q]).data() == log[picked[q]]
            },
    {
        match self.walk_set(collection) {
            Ok(v) => {
                proof {
                    lemma_walk_entries::<Self::Record>(v@, self.state().log(collection@));
                    crate::set::lemma_current_increasing(
                        set_entries(self.state().log(collection@)),
                        v.len() as int,
                    );
                }
                let members = present_in(v);
                Ok(members)
            },
            Err(e) => Err(e),
        }
    }

    /// An iterator over the members of the set, newest first: it yields the record
    /// that makes each member a member, and each message once.
    fn walk_set_present(&self, collection: &str) -> (r: Result<SetWalkIterator<Self::Record>>)
        requires
            self.wf(),
        ensures
            self.state().reliable ==> (r is Ok <==> is_set_log(self.state().log(collection@))),
            self.state().reliable && r is Err ==> r matches Err(Error::Malformed(_)),
            r matches Ok(it) ==> {
                let log = self.state().log(collection@);
                &&& is_set_log(log)
                &&& it.wf()
                &&& it.position() == 0
                &&& it.all().len() == log.len()
                &&& entries_of(it.all()) == set_entries(log)
                &&& forall|i: int| 0 <= i < log.len() ==> (#[trigger] it.all()[i]).0.data() == log[i]
            },
    {
        match self.walk_set(collection) {
            Ok(v) => {
                proof {
                    lemma_walk_entries::<Self::Record>(v@, self.state().log(collection@));
                }
                Ok(SetWalkIterator::new(v))
            },
            Err(e) => Err(e),
        }
    }
}

/// Whether `found` is what a lookup of `m` in the set `log` gives: the newest record
/// for `m`, as `Ok` where it is an add and as `Err(Some(_))` where it is a delete, or
/// `Err(None)` where no record has the message.
pub open spec fn found_as<T: Record>(
    log: Seq<RecordView>,
    m: Seq<char>,
    found: core::result::Result<T, Option<T>>,
) -> bool {
    match newest(set_entries(log), m) {
        Some(i) => if log[i].op == Some(SetOperation::Add) {
            found matches Ok(x) && x.data() == log[i]
        } else {
            found matches Err(Some(x)) && x.data() == log[i]
        },
        None => found matches Err(None),
    }
}

/// A walk of a set has the entries of its log.
pub proof fn lemma_walk_entries<T: Record>(v: Seq<(T, SetOperation)>, log: Seq<RecordView>)
    requires
        v.len() == log.len(),
        forall|i: int|
            0 <= i < v.len() ==> (#[trigger] v[i]).0.data() == log[i] && log[i].op == Some(v[i].1),
    ensures
        entries_of(v) == set_entries(log),
{
    assert(entries_of(v) =~= set_entries(log));
}

/// What a lookup found says about membership.
pub proof fn lemma_found<T: Record>(
    log: Seq<RecordView>,
    m: Seq<char>,
    found: core::result::Result<T, Option<T>>,
)
    requires
        is_set_log(log),
        found_as(log, m, found),
    ensures
        found is Ok <==> is_member(set_entries(log), m),
{
    crate::set::lemma_newest_is_first(set_entries(log), m);
}

/// The entries of a set log that got a new head.
pub proof fn lemma_entries_appended(log: Seq<RecordView>, x: RecordView, op: SetOperation)
    requires
        x.op == Some(op),
    ensures
        set_entries(seq![x] + log) == seq![(x.message, op)] + set_entries(log),
{
    assert(set_entries(seq![x] + log) =~= seq![(x.message, op)] + set_entries(log));
}

/// A record that was placed at the head of a collection is the newest of the
/// collection, is found under its identifier, and has the former head as its parent.
pub proof fn lemma_appended_record(before: StoreView, after: StoreView, c: Seq<char>, x: RecordView)
    requires
        appended(before, after, c, x),
    ensures
        after.log(c).len() == before.log(c).len() + 1,
        after.log(c)[0] == x,
        after.stored(x.id) == Some(x),
        before.log(c).len() > 0 ==> x.parent == Some(before.log(c)[0].id),
        before.log(c).len() == 0 ==> x.parent is None,
{
}

/// Two records placed at the head of one collection, one after the other, are both in
/// the collection, the second before the first and with the first as its parent.
pub proof fn lemma_appended_twice(
    s0: StoreView,
    s1: StoreView,
    s2: StoreView,
    c: Seq<char>,
    x1: RecordView,
    x2: RecordView,
)
    requires
        appended(s0, s1, c, x1),
        appended(s1, s2, c, x2),
    ensures
        s2.log(c) == seq![x2, x1] + s0.log(c),
        s2.log(c).len() == s0.log(c).len() + 2,
        x2.parent == Some(x1.id),
{
    assert(s2.log(c) =~= seq![x2, x1] + s0.log(c));
}

/// Filing new contents keeps what was filed: a blob stays as it is unless a content
/// that is filed has its id. Contents are addressed by their digest, so that in practice
/// only the same content has the id of a blob.
pub proof fn lemma_filed_keeps(
    store: StoreView,
    base: Map<Seq<char>, Seq<u8>>,
    changes: Seq<Change>,
    id: Seq<char>,
)
    requires
        base.contains_key(id),
        forall|i: int|
            0 <= i < changes.len() ==> match (#[trigger] changes[i]).1 {
                Some(bytes) => store.blob_id(bytes) == id ==> bytes == base[id],
                None => true,
            },
    ensures
        filed(store, base, changes).contains_key(id),
        filed(store, base, changes)[id] == base[id],
    decreases changes.len(),
{
    if changes.len() > 0 {
        let earlier = changes.drop_last();
        assert forall|i: int| 0 <= i < earlier.len() implies match (#[trigger] earlier[i]).1 {
            Some(bytes) => store.blob_id(bytes) == id ==> bytes == base[id],
            None => true,
        } by {
            assert(earlier[i] == changes[i]);
        }
        lemma_filed_keeps(store, base, earlier, id);
        assert(changes.last() == changes[changes.len() - 1]);
    }
}

} // verus!
