//! A backend that keeps everything in memory.
//!
//! It is reliable: none of its operations fails for reasons of its own. Records are
//! kept in the order of their creation, and each knows the position of the record
//! that was the head of its collection before it.

use vstd::prelude::*;
use vstd::hash_map::StringHashMap;
use vstd::slice::slice_to_vec;
use vstd::utf8::encode_utf8;
use crate::clock::unix_now;
use crate::digest::{content_address, sha256_hex, sha256_hex_of};
use crate::error::{Error, Result};
use crate::record::{
    contents, head_attachments, head_id, overlay, Change, Record, RecordBuilder,
    RecordView, SetOperation,
};
use crate::remote::{addressed, appended, filed, same_setup, Remote, StoreView};
use crate::text::{hexadecimal, join3, same_text, u64_to_hex};

verus! {

/// The characters of an optional text.
pub open spec fn text_of(o: Option<String>) -> Option<Seq<char>> {
    match o {
        Some(s) => Some(s@),
        None => None,
    }
}

/// The bytes of an optional content.
pub open spec fn bytes_of(o: Option<Vec<u8>>) -> Option<Seq<u8>> {
    match o {
        Some(b) => Some(b@),
        None => None,
    }
}

/// The attachment changes that a record has gone through, as names and blob ids.
pub open spec fn change_ids(s: Seq<(String, Option<String>)>) -> Seq<
    (Seq<char>, Option<Seq<char>>),
> {
    Seq::new(s.len(), |i: int| (s[i].0@, text_of(s[i].1)))
}

/// The attachment changes that a builder holds, as names and contents.
pub open spec fn change_contents(s: Seq<(String, Option<Vec<u8>>)>) -> Seq<Change> {
    Seq::new(s.len(), |i: int| (s[i].0@, bytes_of(s[i].1)))
}

/// What the backend stores for one record.
#[derive(Debug)]
pub struct MemoryRecord {
    /// Identifier of the record.
    pub id: String,
    /// Identifier of the record before it in its collection.
    pub parent: Option<String>,
    /// Name of the author.
    pub author: String,
    /// Email address of the author.
    pub email: String,
    /// The payload.
    pub message: String,
    /// Seconds since the Unix epoch.
    pub timestamp: i64,
    /// The set operation, for a record of a set.
    pub op: Option<SetOperation>,
    /// Every change to the attachments of the collection up to this record, oldest
    /// first: a name, and the blob id stored under it or `None` where it was dropped.
    pub attachments: Vec<(String, Option<String>)>,
    /// Position in the store of the record before it in its collection.
    pub prev: Option<usize>,
}

impl MemoryRecord {
    /// What the record holds.
    pub open spec fn data(&self) -> RecordView {
        RecordView {
            id: self.id@,
            parent: text_of(self.parent),
            author: self.author@,
            email: self.email@,
            message: self.message@,
            timestamp: self.timestamp,
            op: self.op,
            attachments: overlay(Map::empty(), change_ids(self.attachments@)),
        }
    }
}

impl Clone for MemoryRecord {
    fn clone(&self) -> (r: Self)
        ensures
            r.data() == self.data(),
            r.prev == self.prev,
            change_ids(r.attachments@) == change_ids(self.attachments@),
    {
        let mut attachments: Vec<(String, Option<String>)> = Vec::new();
        let mut i: usize = 0;
        while i < self.attachments.len()
            invariant
                i <= self.attachments.len(),
                attachments.len() == i,
                change_ids(attachments@) == change_ids(self.attachments@.subrange(0, i as int)),
            decreases self.attachments.len() - i,
        {
            let name = self.attachments[i].0.clone();
            let id = match &self.attachments[i].1 {
                Some(s) => Some(s.clone()),
                None => None,
            };
            let ghost prior = attachments@;
            attachments.push((name, id));
            proof {
                let goal = change_ids(self.attachments@.subrange(0, i + 1));
                let got = change_ids(attachments@);
                assert forall|j: int| 0 <= j < got.len() implies got[j] == goal[j] by {
                    if j < i {
                        assert(got[j] == change_ids(prior)[j]);
                        assert(goal[j] == change_ids(self.attachments@.subrange(0, i as int))[j]);
                    }
                }
                assert(got =~= goal);
            }
            i = i + 1;
        }
        proof {
            assert(self.attachments@.subrange(0, i as int) =~= self.attachments@);
        }
        MemoryRecord {
            id: self.id.clone(),
            parent: match &self.parent {
                Some(s) => Some(s.clone()),
                None => None,
            },
            author: self.author.clone(),
            email: self.email.clone(),
            message: self.message.clone(),
            timestamp: self.timestamp,
            op: self.op,
            attachments,
            prev: self.prev,
        }
    }
}

/// The records from position `i` back along the links to earlier records.
pub open spec fn chain_at(records: Seq<MemoryRecord>, i: int) -> Seq<RecordView>
    decreases i,
{
    if 0 <= i < records.len() {
        seq![records[i].data()] + match records[i].prev {
            Some(j) => if j < i {
                chain_at(records, j as int)
            } else {
                Seq::empty()
            },
            None => Seq::empty(),
        }
    } else {
        Seq::empty()
    }
}

/// Whether each record links to an earlier record and names it as its parent.
pub open spec fn links_ok(records: Seq<MemoryRecord>) -> bool {
    forall|i: int|
        0 <= i < records.len() ==> match (#[trigger] records[i]).prev {
            Some(j) => j < i && text_of(records[i].parent) == Some(records[j as int].id@),
            None => records[i].parent is None,
        }
}

/// The newest of the first `k` records that has the identifier `id`.
pub open spec fn lookup(records: Seq<MemoryRecord>, id: Seq<char>, k: int) -> Option<RecordView>
    decreases k,
{
    if k <= 0 || k > records.len() {
        None
    } else if records[k - 1].id@ == id {
        Some(records[k - 1].data())
    } else {
        lookup(records, id, k - 1)
    }
}

/// The text that the identifier of the `n`-th record is the digest of.
pub open spec fn record_seed(n: u64) -> Seq<char> {
    "MINIMAPINMEMORY::"@ + hexadecimal(n as nat) + "::MINIMAPINMEMORY"@
}

/// The identifier of the `n`-th record that a backend creates.
pub open spec fn record_id(n: u64) -> Seq<char> {
    sha256_hex(encode_utf8(record_seed(n)))
}

/// Appending a record leaves the chains of the earlier records as they were.
pub proof fn lemma_chain_push(records: Seq<MemoryRecord>, x: MemoryRecord, i: int)
    requires
        i < records.len(),
    ensures
        chain_at(records.push(x), i) == chain_at(records, i),
    decreases i,
{
    if 0 <= i {
        assert(records.push(x)[i] == records[i]);
        match records[i].prev {
            Some(j) => {
                if j < i {
                    lemma_chain_push(records, x, j as int);
                }
            },
            None => {},
        }
    }
}

/// In a store with sound links every chain is a chain of parents.
pub proof fn lemma_chain_linked(records: Seq<MemoryRecord>, i: int)
    requires
        links_ok(records),
        0 <= i < records.len(),
    ensures
        crate::record::is_chain(chain_at(records, i)),
        chain_at(records, i).len() > 0,
        chain_at(records, i)[0] == records[i].data(),
    decreases i,
{
    let c = chain_at(records, i);
    match records[i].prev {
        Some(j) => {
            lemma_chain_linked(records, j as int);
            let rest = chain_at(records, j as int);
            assert forall|t: int| 0 <= t < c.len() implies (#[trigger] c[t]).parent == if t + 1
                < c.len() {
                Some(c[t + 1].id)
            } else {
                None
            } by {
                if t > 0 {
                    assert(c[t] == rest[t - 1]);
                    if t + 1 < c.len() {
                        assert(c[t + 1] == rest[t]);
                    }
                } else {
                    assert(c[1] == rest[0]);
                }
            }
        },
        None => {},
    }
}

/// Applying changes in two steps is applying them in one.
pub proof fn lemma_overlay_concat(
    base: Map<Seq<char>, Seq<char>>,
    a: Seq<(Seq<char>, Option<Seq<char>>)>,
    b: Seq<(Seq<char>, Option<Seq<char>>)>,
)
    ensures
        overlay(base, a + b) == overlay(overlay(base, a), b),
    decreases b.len(),
{
    if b.len() == 0 {
        assert(a + b =~= a);
    } else {
        assert((a + b).drop_last() =~= a + b.drop_last());
        assert((a + b).last() == b.last());
        lemma_overlay_concat(base, a, b.drop_last());
    }
}

/// A name that the changes from `k` on leave alone is as the first `k` changes left it.
pub proof fn lemma_overlay_untouched(
    base: Map<Seq<char>, Seq<char>>,
    ids: Seq<(Seq<char>, Option<Seq<char>>)>,
    name: Seq<char>,
    k: int,
)
    requires
        0 <= k <= ids.len(),
        forall|j: int| k <= j < ids.len() ==> (#[trigger] ids[j]).0 != name,
    ensures
        overlay(base, ids).contains_key(name) == overlay(base, ids.subrange(0, k)).contains_key(
            name,
        ),
        overlay(base, ids).contains_key(name) ==> overlay(base, ids)[name] == overlay(
            base,
            ids.subrange(0, k),
        )[name],
    decreases ids.len(),
{
    if k == ids.len() {
        assert(ids.subrange(0, k) =~= ids);
    } else {
        assert(ids.drop_last().subrange(0, k) =~= ids.subrange(0, k));
        assert(ids[ids.len() - 1].0 != name);
        lemma_overlay_untouched(base, ids.drop_last(), name, k);
    }
}

/// A record as a backend in memory hands it out: a copy of what is stored for it.
/// Two of them are equal when they have the same identifier.
#[derive(Debug)]
pub struct MemoryRecordRef {
    record: MemoryRecord,
}

impl MemoryRecordRef {
    /// The identifier of the record before this one in its collection.
    pub fn parent(&self) -> (r: Option<String>)
        ensures
            text_of(r) == self.data().parent,
    {
        match &self.record.parent {
            Some(p) => Some(p.clone()),
            None => None,
        }
    }

    /// The set operation of the record, for a record of a set.
    pub fn op(&self) -> (r: Option<SetOperation>)
        ensures
            r == self.data().op,
    {
        self.record.op
    }
}

impl PartialEq for MemoryRecordRef {
    fn eq(&self, other: &Self) -> (r: bool) {
        self.record.id == other.record.id
    }
}

impl Eq for MemoryRecordRef {

}

impl vstd::std_specs::cmp::PartialEqSpecImpl for MemoryRecordRef {
    open spec fn obeys_eq_spec() -> bool {
        true
    }

    closed spec fn eq_spec(&self, other: &Self) -> bool {
        self.record.id@ == other.record.id@
    }
}

impl Clone for MemoryRecordRef {
    fn clone(&self) -> (r: Self)
        ensures
            r.data() == self.data(),
    {
        MemoryRecordRef { record: self.record.clone() }
    }
}

impl Record for MemoryRecordRef {
    closed spec fn data(&self) -> RecordView {
        self.record.data()
    }

    fn id(&self) -> (r: String) {
        self.record.id.clone()
    }

    fn author(&self) -> (r: String) {
        self.record.author.clone()
    }

    fn email(&self) -> (r: String) {
        self.record.email.clone()
    }

    fn message(&self) -> (r: String) {
        self.record.message.clone()
    }

    fn timestamp(&self) -> (r: i64) {
        self.record.timestamp
    }
}

/// Prepares a record for a backend in memory.
pub struct MemoryRecordBuilder {
    collection: String,
    attachments: Vec<(String, Option<Vec<u8>>)>,
    op: Option<SetOperation>,
}

impl MemoryRecordBuilder {
    /// A builder for `collection` with no changes and no set operation.
    pub fn new(collection: String) -> (b: Self)
        ensures
            b.collection() == collection@,
            b.changes() == Seq::<Change>::empty(),
            b.operation() is None,
            b.is_reliable(),
    {
        let b = MemoryRecordBuilder { collection, attachments: Vec::new(), op: None };
        proof {
            assert(b.changes() =~= Seq::<Change>::empty());
        }
        b
    }

    /// The same builder with the set operation `op`.
    pub fn op(self, op: SetOperation) -> (b: Self)
        ensures
            b.collection() == self.collection(),
            b.changes() == self.changes(),
            b.operation() == Some(op),
            b.is_reliable(),
    {
        MemoryRecordBuilder { collection: self.collection, attachments: self.attachments, op: Some(op) }
    }
}

impl RecordBuilder for MemoryRecordBuilder {
    closed spec fn collection(&self) -> Seq<char> {
        self.collection@
    }

    closed spec fn changes(&self) -> Seq<Change> {
        change_contents(self.attachments@)
    }

    closed spec fn operation(&self) -> Option<SetOperation> {
        self.op
    }

    open spec fn is_reliable(&self) -> bool {
        true
    }

    fn upsert_attachment(self, name: &str, data: &[u8]) -> (r: Result<Self>) {
        let mut b = self;
        let bytes = slice_to_vec(data);
        b.attachments.push((String::from_str(name), Some(bytes)));
        proof {
            assert(b.changes() =~= self.changes().push((name@, Some(data@))));
        }
        Ok(b)
    }

    fn remove_attachment(self, name: &str) -> (r: Result<Self>) {
        let mut b = self;
        b.attachments.push((String::from_str(name), None));
        proof {
            assert(b.changes() =~= self.changes().push((name@, None)));
        }
        Ok(b)
    }
}

/// A backend that keeps its collections in memory.
pub struct MemoryWorkspace {
    author: String,
    email: String,
    total_ids: u64,
    heads: StringHashMap<usize>,
    attachment_pool: StringHashMap<Vec<u8>>,
    records: Vec<MemoryRecord>,
}

/// Walks one collection of a backend in memory, newest record first.
pub struct MemoryIterator {
    cursor: Option<usize>,
}

impl MemoryIterator {
    /// Whether the iterator points into `workspace`.
    pub closed spec fn wf(&self, workspace: &MemoryWorkspace) -> bool {
        self.cursor matches Some(i) ==> i < workspace.records.len()
    }

    /// The records that are still to come, newest first.
    pub closed spec fn rest(&self, workspace: &MemoryWorkspace) -> Seq<RecordView> {
        match self.cursor {
            Some(i) => chain_at(workspace.records@, i as int),
            None => Seq::empty(),
        }
    }

    /// The next record, or `None` at the end of the collection.
    pub fn next(&mut self, workspace: &MemoryWorkspace) -> (r: Option<Result<MemoryRecordRef>>)
        requires
            workspace.wf(),
            old(self).wf(workspace),
        ensures
            final(self).wf(workspace),
            match r {
                Some(Ok(x)) => {
                    &&& old(self).rest(workspace).len() > 0
                    &&& x.data() == old(self).rest(workspace)[0]
                    &&& final(self).rest(workspace) == old(self).rest(workspace).skip(1)
                },
                Some(Err(_)) => false,
                None => old(self).rest(workspace).len() == 0 && final(self).rest(workspace).len()
                    == 0,
            },
    {
        match self.cursor {
            Some(i) => {
                let record = workspace.records[i].clone();
                let ghost all = workspace.records@;
                proof {
                    assert(chain_at(all, i as int).skip(1) =~= match all[i as int].prev {
                        Some(j) => chain_at(all, j as int),
                        None => Seq::empty(),
                    });
                }
                self.cursor = record.prev;
                Some(Ok(MemoryRecordRef { record }))
            },
            None => None,
        }
    }
}

/// The error text for a record without an operation that is met in the walk of a set.
pub open spec fn not_a_set_text(id: Seq<char>) -> Seq<char> {
    "record "@ + id + " is not a set operation"@
}

/// Walks one set of a backend in memory, newest record first.
pub struct MemorySetIterator {
    inner: MemoryIterator,
}

impl MemorySetIterator {
    /// Whether the iterator points into `workspace`.
    pub closed spec fn wf(&self, workspace: &MemoryWorkspace) -> bool {
        self.inner.wf(workspace)
    }

    /// The records that are still to come, newest first.
    pub closed spec fn rest(&self, workspace: &MemoryWorkspace) -> Seq<RecordView> {
        self.inner.rest(workspace)
    }

    /// The next record with its operation, or `None` at the end of the set. A record
    /// without an operation is reported as malformed, and the walk goes on behind it.
    pub fn next(&mut self, workspace: &MemoryWorkspace) -> (r: Option<
        Result<(MemoryRecordRef, SetOperation)>,
    >)
        requires
            workspace.wf(),
            old(self).wf(workspace),
        ensures
            final(self).wf(workspace),
            match r {
                Some(found) => {
                    &&& old(self).rest(workspace).len() > 0
                    &&& final(self).rest(workspace) == old(self).rest(workspace).skip(1)
                    &&& match found {
                        Ok((x, op)) => x.data() == old(self).rest(workspace)[0] && x.data().op
                            == Some(op),
                        Err(e) => old(self).rest(workspace)[0].op is None && e@
                            == crate::error::ErrorView::Malformed(
                            not_a_set_text(old(self).rest(workspace)[0].id),
                        ),
                    }
                },
                None => old(self).rest(workspace).len() == 0 && final(self).rest(workspace).len()
                    == 0,
            },
    {
        match self.inner.next(workspace) {
            Some(Ok(x)) => {
                match x.record.op {
                    Some(op) => Some(Ok((x, op))),
                    None => {
                        let what = join3("record ", x.record.id.as_str(), " is not a set operation");
                        Some(Err(Error::Malformed(what)))
                    },
                }
            },
            Some(Err(e)) => Some(Err(e)),
            None => None,
        }
    }
}

impl MemoryWorkspace {
    /// An empty backend whose records will carry `author` and `email`.
    pub fn new(author: &str, email: &str) -> (w: Self)
        ensures
            w.wf(),
            w.state().reliable,
            w.state().author == author@,
            w.state().email == email@,
            w.state().blobs == Map::<Seq<char>, Seq<u8>>::empty(),
            forall|c: Seq<char>| (#[trigger] w.state().log(c)).len() == 0,
            forall|id: Seq<char>| (#[trigger] w.state().stored(id)) is None,
            forall|bytes: Seq<u8>| #[trigger] w.state().blob_id(bytes) == sha256_hex(bytes),
            w.created() == 0,
            w.has_distinct_ids(),
    {
        let w = MemoryWorkspace {
            author: String::from_str(author),
            email: String::from_str(email),
            total_ids: 0,
            heads: StringHashMap::new(),
            attachment_pool: StringHashMap::new(),
            records: Vec::new(),
        };
        proof {
            assert(w.state().blobs =~= Map::<Seq<char>, Seq<u8>>::empty());
        }
        w
    }

    /// How many records the backend has created, counted in 64 bits.
    pub closed spec fn created(&self) -> u64 {
        self.total_ids
    }

    /// Every collection is a chain of parents: each record names the next older one as
    /// its parent, and the oldest names none.
    pub proof fn lemma_logs_are_chains(&self, collection: Seq<char>)
        requires
            self.wf(),
        ensures
            crate::record::is_chain(self.state().log(collection)),
    {
        if self.heads@.contains_key(collection) {
            lemma_chain_linked(self.records@, self.heads@[collection] as int);
        }
    }

    /// Whether no two records of the backend have the same identifier.
    pub closed spec fn has_distinct_ids(&self) -> bool {
        distinct_ids(self.records@)
    }

    /// While identifiers are distinct, every record of every collection is the record
    /// that is found under its identifier.
    pub proof fn lemma_walked_record_is_found(&self, collection: Seq<char>, t: int)
        requires
            self.wf(),
            self.has_distinct_ids(),
            0 <= t < self.state().log(collection).len(),
        ensures
            self.state().stored(self.state().log(collection)[t].id) == Some(
                self.state().log(collection)[t],
            ),
    {
        let records = self.records@;
        let i = self.heads@[collection] as int;
        lemma_chain_members(records, i, t);
        let j = choose|j: int|
            0 <= j < records.len() && chain_at(records, i)[t] == (#[trigger] records[j]).data();
        lemma_lookup_distinct(records, j, records.len() as int);
    }

    /// The next record identifier: the digest of a text made from a running number.
    fn next_id(&mut self) -> (r: String)
        ensures
            final(self).total_ids == if old(self).total_ids == u64::MAX {
                0
            } else {
                (old(self).total_ids + 1) as u64
            },
            r@ == record_id(final(self).total_ids),
            final(self).author == old(self).author,
            final(self).email == old(self).email,
            final(self).heads == old(self).heads,
            final(self).attachment_pool == old(self).attachment_pool,
            final(self).records == old(self).records,
    {
        self.total_ids = if self.total_ids == u64::MAX {
            0
        } else {
            self.total_ids + 1
        };
        let number = u64_to_hex(self.total_ids);
        let seed = join3("MINIMAPINMEMORY::", number.as_str(), "::MINIMAPINMEMORY");
        sha256_hex_of(seed.as_str().as_bytes())
    }

    /// Files `data` in the pool under its blob id, which is returned.
    fn insert_attachment(&mut self, data: Vec<u8>) -> (r: String)
        ensures
            r@ == sha256_hex(data@),
            final(self).attachment_pool@ == old(self).attachment_pool@.insert(r@, data),
            final(self).author == old(self).author,
            final(self).email == old(self).email,
            final(self).heads == old(self).heads,
            final(self).total_ids == old(self).total_ids,
            final(self).records == old(self).records,
    {
        let id = content_address(data.as_slice());
        self.attachment_pool.insert(id.clone(), data);
        id
    }

    /// An iterator over `collection`, at its newest record.
    pub fn iter(&self, collection: &str) -> (it: MemoryIterator)
        requires
            self.wf(),
        ensures
            it.wf(self),
            it.rest(self) == self.state().log(collection@),
    {
        let cursor = match self.heads.get(collection) {
            Some(i) => Some(*i),
            None => None,
        };
        MemoryIterator { cursor }
    }

    /// An iterator over the set `collection`, at its newest record.
    pub fn iter_set(&self, collection: &str) -> (it: MemorySetIterator)
        requires
            self.wf(),
        ensures
            it.wf(self),
            it.rest(self) == self.state().log(collection@),
    {
        MemorySetIterator { inner: self.iter(collection) }
    }

    /// Commits the record that `builder` describes with the given timestamp. The
    /// record's identifier is the digest that belongs to the count of records created.
    pub fn commit_at(&mut self, builder: MemoryRecordBuilder, message: &str, timestamp: i64) -> (x:
        MemoryRecordRef)
        requires
            old(self).wf(),
        ensures
            final(self).wf(),
            same_setup(old(self).state(), final(self).state()),
            appended(old(self).state(), final(self).state(), builder.collection(), x.data()),
            x.data().message == message@,
            x.data().op == builder.operation(),
            x.data().timestamp == timestamp,
            x.data().id == record_id(final(self).created()),
            old(self).has_distinct_ids() && old(self).state().stored(x.data().id) is None ==> final(self).has_distinct_ids(),
            final(self).created() == if old(self).created() == u64::MAX {
                0
            } else {
                (old(self).created() + 1) as u64
            },
            x.data().attachments == overlay(
                head_attachments(old(self).state().log(builder.collection())),
                addressed(old(self).state(), builder.changes()),
            ),
            final(self).state().blobs == filed(
                old(self).state(),
                old(self).state().blobs,
                builder.changes(),
            ),
    {
        let ghost before = *self;
        let ghost c = builder.collection@;
        let id = self.next_id();
        let prev: Option<usize> = match self.heads.get(builder.collection.as_str()) {
            Some(i) => Some(*i),
            None => None,
        };
        let mut attachments: Vec<(String, Option<String>)> = Vec::new();
        let mut parent: Option<String> = None;
        match prev {
            Some(j) => {
                let head = self.records[j].clone();
                attachments = head.attachments;
                parent = Some(head.id);
            },
            None => {},
        }
        let ghost base_ids = change_ids(attachments@);
        let ghost base = overlay(Map::empty(), base_ids);
        proof {
            assert(base == head_attachments(before.state().log(c)));
            assert(text_of(parent) == head_id(before.state().log(c)));
        }
        let changes = builder.attachments;
        let ghost asked = change_contents(changes@);
        let ghost pool0 = before.state().blobs;
        let mut i: usize = 0;
        proof {
            assert(asked.subrange(0, 0) =~= Seq::<Change>::empty());
            assert(addressed(before.state(), Seq::<Change>::empty()) =~= Seq::empty());
            assert(change_ids(attachments@) =~= base_ids + Seq::empty());
        }
        while i < changes.len()
            invariant
                i <= changes.len(),
                asked == change_contents(changes@),
                change_ids(attachments@) == base_ids + addressed(
                    before.state(),
                    asked.subrange(0, i as int),
                ),
                self.state().blobs == filed(before.state(), pool0, asked.subrange(0, i as int)),
                self.author == before.author,
                self.email == before.email,
                self.heads == before.heads,
                self.records == before.records,
                self.total_ids == if before.total_ids == u64::MAX {
                    0
                } else {
                    (before.total_ids + 1) as u64
                },
            decreases changes.len() - i,
        {
            let name = changes[i].0.clone();
            let ghost sofar = asked.subrange(0, i as int);
            let ghost more = asked.subrange(0, i + 1);
            proof {
                assert(more.drop_last() =~= sofar);
                assert(more.last() == asked[i as int]);
                assert(asked[i as int] == (changes@[i as int].0@, bytes_of(changes@[i as int].1)));
            }
            let ghost prior = attachments@;
            match &changes[i].1 {
                Some(bytes) => {
                    let ghost pool = self.state().blobs;
                    let copy = slice_to_vec(bytes.as_slice());
                    let blob = self.insert_attachment(copy);
                    proof {
                        assert(self.state().blobs =~= pool.insert(blob@, bytes@));
                    }
                    attachments.push((name, Some(blob)));
                },
                None => {
                    attachments.push((name, None));
                },
            }
            proof {
                let item = (
                    asked[i as int].0,
                    match asked[i as int].1 {
                        Some(b) => Some(before.state().blob_id(b)),
                        None => None,
                    },
                );
                assert(addressed(before.state(), more) =~= addressed(before.state(), sofar).push(
                    item,
                ));
                let got = change_ids(attachments@);
                assert(got.len() == prior.len() + 1);
                assert(got[prior.len() as int] == item);
                assert forall|j: int| 0 <= j < prior.len() implies got[j] == change_ids(prior)[j] by {}
                assert(got =~= change_ids(prior).push(item));
                assert(change_ids(attachments@) =~= base_ids + addressed(before.state(), more));
            }
            i = i + 1;
        }
        proof {
            assert(asked.subrange(0, i as int) =~= asked);
            lemma_overlay_concat(Map::empty(), base_ids, addressed(before.state(), asked));
        }
        let index = self.records.len();
        let record = MemoryRecord {
            id,
            parent,
            author: self.author.clone(),
            email: self.email.clone(),
            message: String::from_str(message),
            timestamp,
            op: builder.op,
            attachments,
            prev,
        };
        let stored = record.clone();
        let ghost old_records = self.records@;
        self.records.push(stored);
        self.heads.insert(builder.collection, index);
        proof {
            let now = self.records@;
            assert(now =~= old_records.push(stored));
            assert(links_ok(now)) by {
                assert forall|t: int| 0 <= t < now.len() implies match (#[trigger] now[t]).prev {
                    Some(j) => j < t && text_of(now[t].parent) == Some(now[j as int].id@),
                    None => now[t].parent is None,
                } by {
                    if t < old_records.len() {
                        assert(now[t] == old_records[t]);
                    }
                }
            }
            assert forall|d: Seq<char>| d != c implies #[trigger] self.state().log(d)
                == before.state().log(d) by {
                if before.heads@.contains_key(d) {
                    lemma_chain_push(old_records, stored, before.heads@[d] as int);
                }
            }
            match prev {
                Some(j) => {
                    lemma_chain_push(old_records, stored, j as int);
                },
                None => {},
            }
            assert(self.state().log(c) =~= seq![stored.data()] + before.state().log(c));
            assert forall|j: Seq<char>| j != stored.data().id implies #[trigger] self.state().stored(
                j,
            ) == before.state().stored(j) by {
                lemma_lookup_push(old_records, stored, j);
            }
            lemma_lookup_push(old_records, stored, stored.id@);
            if distinct_ids(old_records) && lookup(
                old_records,
                stored.id@,
                old_records.len() as int,
            ) is None {
                assert forall|a: int, b: int| 0 <= a < b < now.len() implies now[a].id@
                    != now[b].id@ by {
                    if b == old_records.len() {
                        lemma_lookup_miss(old_records, stored.id@, old_records.len() as int, a);
                    }
                }
            }
        }
        MemoryRecordRef { record }
    }
}

/// Whether no two records have the same identifier.
pub open spec fn distinct_ids(records: Seq<MemoryRecord>) -> bool {
    forall|i: int, j: int| 0 <= i < j < records.len() ==> records[i].id@ != records[j].id@
}

/// Where identifiers are distinct, each record is the one found under its identifier.
pub proof fn lemma_lookup_distinct(records: Seq<MemoryRecord>, i: int, k: int)
    requires
        distinct_ids(records),
        0 <= i < k <= records.len(),
    ensures
        lookup(records, records[i].id@, k) == Some(records[i].data()),
    decreases k,
{
    if k - 1 > i {
        lemma_lookup_distinct(records, i, k - 1);
    }
}

/// Every record of a chain is a record of the store.
pub proof fn lemma_chain_members(records: Seq<MemoryRecord>, i: int, t: int)
    requires
        0 <= t < chain_at(records, i).len(),
    ensures
        exists|j: int| 0 <= j < records.len() && chain_at(records, i)[t] == (#[trigger] records[j]).data(),
    decreases i,
{
    if t == 0 {
        assert(chain_at(records, i)[0] == records[i].data());
    } else {
        let j = records[i].prev->0;
        assert(chain_at(records, i)[t] == chain_at(records, j as int)[t - 1]);
        lemma_chain_members(records, j as int, t - 1);
    }
}

/// What a lookup finds after a record was appended.
pub proof fn lemma_lookup_push(records: Seq<MemoryRecord>, x: MemoryRecord, id: Seq<char>)
    ensures
        lookup(records.push(x), id, records.len() as int + 1) == if x.id@ == id {
            Some(x.data())
        } else {
            lookup(records, id, records.len() as int)
        },
{
    let now = records.push(x);
    assert(now[records.len() as int] == x);
    if x.id@ != id {
        lemma_lookup_prefix(records, x, id, records.len() as int);
    }
}

proof fn lemma_lookup_miss(records: Seq<MemoryRecord>, id: Seq<char>, k: int, a: int)
    requires
        0 <= a < k <= records.len(),
        lookup(records, id, k) is None,
    ensures
        records[a].id@ != id,
    decreases k,
{
    if a < k - 1 {
        lemma_lookup_miss(records, id, k - 1, a);
    }
}

proof fn lemma_lookup_prefix(records: Seq<MemoryRecord>, x: MemoryRecord, id: Seq<char>, k: int)
    requires
        0 <= k <= records.len(),
    ensures
        lookup(records.push(x), id, k) == lookup(records, id, k),
    decreases k,
{
    if k > 0 {
        assert(records.push(x)[k - 1] == records[k - 1]);
        lemma_lookup_prefix(records, x, id, k - 1);
    }
}

impl Remote for MemoryWorkspace {
    type Record = MemoryRecordRef;

    type RecordBuilder = MemoryRecordBuilder;


    closed spec fn wf(&self) -> bool {
        &&& links_ok(self.records@)
        &&& forall|c: Seq<char>| #[trigger]
            self.heads@.contains_key(c) ==> self.heads@[c] < self.records.len()
    }

    closed spec fn state(&self) -> StoreView {
        StoreView {
            reliable: true,
            author: self.author@,
            email: self.email@,
            logs: |c: Seq<char>|
                if self.heads@.contains_key(c) {
                    chain_at(self.records@, self.heads@[c] as int)
                } else {
                    Seq::empty()
                },
            records: |id: Seq<char>| lookup(self.records@, id, self.records@.len() as int),
            blobs: self.attachment_pool@.map_values(|v: Vec<u8>| v@),
            blob_ids: |bytes: Seq<u8>| sha256_hex(bytes),
        }
    }

    fn walk(&self, collection: &str) -> (r: Result<Vec<MemoryRecordRef>>) {
        let mut it = self.iter(collection);
        let mut out: Vec<MemoryRecordRef> = Vec::new();
        let mut done = false;
        proof {
            assert(contents(out@) + it.rest(self) =~= self.state().log(collection@));
        }
        while !done
            invariant
                self.wf(),
                it.wf(self),
                contents(out@) + it.rest(self) == self.state().log(collection@),
                done ==> it.rest(self).len() == 0,
            decreases it.rest(self).len() + if done { 0int } else { 1int },
        {
            let ghost before = contents(out@);
            let ghost rest = it.rest(self);
            match it.next(self) {
                Some(Ok(x)) => {
                    out.push(x);
                    proof {
                        assert(contents(out@) =~= before.push(rest[0]));
                        assert(contents(out@) + it.rest(self) =~= before + rest);
                    }
                },
                Some(Err(e)) => {
                    return Err(e);
                },
                None => {
                    done = true;
                },
            }
        }
        proof {
            assert(contents(out@) =~= self.state().log(collection@));
            self.lemma_logs_are_chains(collection@);
        }
        Ok(out)
    }

    fn record_builder(&self, collection: &str) -> (b: MemoryRecordBuilder) {
        MemoryRecordBuilder::new(String::from_str(collection))
    }

    /// Commits with the time of the clock. The identifier of the record is the digest
    /// that belongs to the count of records created.
    fn commit(&mut self, builder: MemoryRecordBuilder, message: &str) -> (r: Result<
        MemoryRecordRef,
    >)
        ensures
            r matches Ok(x) ==> {
                &&& x.data().id == record_id(final(self).created())
                &&& x.data().timestamp >= 0
                &&& old(self).has_distinct_ids() && old(self).state().stored(x.data().id) is None
                    ==> final(self).has_distinct_ids()
            },
            final(self).created() == if old(self).created() == u64::MAX {
                0
            } else {
                (old(self).created() + 1) as u64
            },
    {
        let timestamp = unix_now();
        Ok(self.commit_at(builder, message, timestamp))
    }

    fn get_record(&self, id: &str) -> (r: Result<Option<MemoryRecordRef>>) {
        let mut k: usize = self.records.len();
        while k > 0
            invariant
                k <= self.records.len(),
                lookup(self.records@, id@, self.records@.len() as int) == lookup(
                    self.records@,
                    id@,
                    k as int,
                ),
            decreases k,
        {
            if same_text(self.records[k - 1].id.as_str(), id) {
                let record = self.records[k - 1].clone();
                return Ok(Some(MemoryRecordRef { record }));
            }
            k = k - 1;
        }
        Ok(None)
    }

    fn set_add_unchecked(&mut self, collection: &str, message: &str) -> (r: Result<
        MemoryRecordRef,
    >)
        ensures
            r matches Ok(x) ==> {
                &&& x.data().id == record_id(final(self).created())
                &&& old(self).has_distinct_ids() && old(self).state().stored(x.data().id) is None
                    ==> final(self).has_distinct_ids()
            },
    {
        let builder = self.record_builder(collection).op(SetOperation::Add);
        proof {
            lemma_no_changes(self.state(), self.state().log(collection@));
        }
        self.commit(builder, message)
    }

    fn set_del_unchecked(&mut self, collection: &str, message: &str) -> (r: Result<
        MemoryRecordRef,
    >)
        ensures
            r matches Ok(x) ==> {
                &&& x.data().id == record_id(final(self).created())
                &&& old(self).has_distinct_ids() && old(self).state().stored(x.data().id) is None
                    ==> final(self).has_distinct_ids()
            },
    {
        let builder = self.record_builder(collection).op(SetOperation::Del);
        proof {
            lemma_no_changes(self.state(), self.state().log(collection@));
        }
        self.commit(builder, message)
    }

    fn walk_set(&self, collection: &str) -> (r: Result<Vec<(MemoryRecordRef, SetOperation)>>) {
        let mut it = self.iter_set(collection);
        let mut out: Vec<(MemoryRecordRef, SetOperation)> = Vec::new();
        let mut done = false;
        let ghost log = self.state().log(collection@);
        while !done
            invariant
                self.wf(),
                it.wf(self),
                log == self.state().log(collection@),
                out.len() + it.rest(self).len() == log.len(),
                it.rest(self) == log.subrange(out.len() as int, log.len() as int),
                forall|i: int|
                    0 <= i < out.len() ==> (#[trigger] out@[i]).0.data() == log[i] && log[i].op
                        == Some(out@[i].1),
                done ==> it.rest(self).len() == 0,
            decreases it.rest(self).len() + if done { 0int } else { 1int },
        {
            let ghost rest = it.rest(self);
            match it.next(self) {
                Some(Ok(pair)) => {
                    proof {
                        assert(rest[0] == log[out.len() as int]);
                        assert(rest.skip(1) =~= log.subrange(out.len() + 1, log.len() as int));
                    }
                    out.push(pair);
                },
                Some(Err(e)) => {
                    proof {
                        assert(rest[0] == log[out.len() as int]);
                        assert(log[out.len() as int].op is None);
                    }
                    return Err(e);
                },
                None => {
                    done = true;
                },
            }
        }
        proof {
            assert forall|i: int| 0 <= i < log.len() implies (#[trigger] log[i]).op is Some by {
                assert(out@[i].0.data() == log[i]);
            }
        }
        Ok(out)
    }

    fn attachment(&self, record: &MemoryRecordRef, name: &str) -> (r: Result<Option<Vec<u8>>>) {
        let list = &record.record.attachments;
        let ghost ids = change_ids(list@);
        let mut k: usize = list.len();
        while k > 0
            invariant
                k <= list.len(),
                list@ == record.record.attachments@,
                ids == change_ids(list@),
                forall|j: int| k <= j < ids.len() ==> (#[trigger] ids[j]).0 != name@,
            decreases k,
        {
            if same_text(list[k - 1].0.as_str(), name) {
                proof {
                    lemma_overlay_untouched(Map::empty(), ids, name@, k as int);
                    let sub = ids.subrange(0, k as int);
                    assert(sub.drop_last() =~= ids.subrange(0, k - 1));
                    assert(sub.last() == ids[k - 1]);
                    assert(ids[k - 1] == (list@[k - 1].0@, text_of(list@[k - 1].1)));
                    let m = overlay(Map::empty(), sub);
                    assert(record.data().attachments == overlay(Map::empty(), ids));
                    match list@[k - 1].1 {
                        Some(blob) => {
                            assert(m.contains_key(name@) && m[name@] == blob@);
                        },
                        None => {
                            assert(!m.contains_key(name@));
                        },
                    }
                }
                return match &list[k - 1].1 {
                    Some(blob) => match self.attachment_pool.get(blob.as_str()) {
                        Some(bytes) => Ok(Some(slice_to_vec(bytes.as_slice()))),
                        None => Ok(None),
                    },
                    None => Ok(None),
                };
            }
            k = k - 1;
        }
        proof {
            lemma_overlay_untouched(Map::empty(), ids, name@, 0);
            assert(ids.subrange(0, 0) =~= Seq::empty());
        }
        Ok(None)
    }
}

/// A builder without changes leaves attachments and blobs as they are.
pub proof fn lemma_no_changes(store: StoreView, log: Seq<RecordView>)
    ensures
        overlay(head_attachments(log), addressed(store, Seq::<Change>::empty()))
            == head_attachments(log),
        filed(store, store.blobs, Seq::<Change>::empty()) == store.blobs,
{
    assert(addressed(store, Seq::<Change>::empty()) =~= Seq::empty());
}

} // verus!
