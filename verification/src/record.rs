//! Records: what one entry of a collection holds, and how a new one is prepared.

use vstd::prelude::*;
use crate::error::Result;

verus! {

/// The operation that a record of a set stands for.
#[derive(Debug, Clone, Copy, PartialEq, Eq, Structural)]
pub enum SetOperation {
    /// The item joins the set.
    Add,
    /// The item leaves the set.
    Del,
}

/// One pending change to the attachments of a collection: a name, and the bytes to
/// store under it or `None` to drop the name.
pub type Change = (Seq<char>, Option<Seq<u8>>);

/// The mathematical content of a record.
pub struct RecordView {
    /// Identifier, unique within the backend.
    pub id: Seq<char>,
    /// Identifier of the record that was the head of the collection before this one.
    pub parent: Option<Seq<char>>,
    /// Name of the author.
    pub author: Seq<char>,
    /// Email address of the author.
    pub email: Seq<char>,
    /// The payload, character for character as it was committed.
    pub message: Seq<char>,
    /// Seconds since the Unix epoch.
    pub timestamp: i64,
    /// The set operation, for a record of a set.
    pub op: Option<SetOperation>,
    /// The attachments visible at this record: name to blob id.
    pub attachments: Map<Seq<char>, Seq<char>>,
}

/// A single record of a collection.
pub trait Record: Sized {
    /// What the record holds.
    open spec fn data(&self) -> RecordView {
        arbitrary()
    }

    /// The identifier of the record.
    fn id(&self) -> (r: String)
        ensures
            r@ == self.data().id,
    ;

    /// The name of the author.
    fn author(&self) -> (r: String)
        ensures
            r@ == self.data().author,
    ;

    /// The email address of the author.
    fn email(&self) -> (r: String)
        ensures
            r@ == self.data().email,
    ;

    /// The message, character for character as it was committed.
    fn message(&self) -> (r: String)
        ensures
            r@ == self.data().message,
    ;

    /// The Unix timestamp of the record.
    fn timestamp(&self) -> (r: i64)
        ensures
            r == self.data().timestamp,
    ;
}

/// Prepares a record, with changes to attachments, for one collection.
pub trait RecordBuilder: Sized {
    /// The collection that the record is meant for.
    open spec fn collection(&self) -> Seq<char> {
        arbitrary()
    }

    /// The attachment changes asked for so far, oldest first.
    open spec fn changes(&self) -> Seq<Change> {
        arbitrary()
    }

    /// The set operation the record will carry.
    open spec fn operation(&self) -> Option<SetOperation> {
        arbitrary()
    }

    /// Whether every call on this builder succeeds.
    open spec fn is_reliable(&self) -> bool {
        false
    }

    /// Stores `data` under `name` from this record on.
    fn upsert_attachment(self, name: &str, data: &[u8]) -> (r: Result<Self>)
        ensures
            self.is_reliable() ==> r is Ok,
            r matches Ok(b) ==> {
                &&& b.collection() == self.collection()
                &&& b.operation() == self.operation()
                &&& b.is_reliable() == self.is_reliable()
                &&& b.changes() == self.changes().push((name@, Some(data@)))
            },
    ;

    /// Drops `name` from this record on.
    fn remove_attachment(self, name: &str) -> (r: Result<Self>)
        ensures
            self.is_reliable() ==> r is Ok,
            r matches Ok(b) ==> {
                &&& b.collection() == self.collection()
                &&& b.operation() == self.operation()
                &&& b.is_reliable() == self.is_reliable()
                &&& b.changes() == self.changes().push((name@, None))
            },
    ;
}

/// The contents of each record of `v`, in order.
pub open spec fn contents<T: Record>(v: Seq<T>) -> Seq<RecordView> {
    Seq::new(v.len(), |i: int| v[i].data())
}

/// The identifier of the newest record of a log, which a new record takes as parent.
pub open spec fn head_id(log: Seq<RecordView>) -> Option<Seq<char>> {
    if log.len() > 0 {
        Some(log[0].id)
    } else {
        None
    }
}

/// The attachments visible at the newest record of a log.
pub open spec fn head_attachments(log: Seq<RecordView>) -> Map<Seq<char>, Seq<char>> {
    if log.len() > 0 {
        log[0].attachments
    } else {
        Map::empty()
    }
}

/// Whether each record names the next older one as its parent, and the oldest none.
pub open spec fn is_chain(log: Seq<RecordView>) -> bool {
    forall|i: int|
        0 <= i < log.len() ==> (#[trigger] log[i]).parent == if i + 1 < log.len() {
            Some(log[i + 1].id)
        } else {
            None
        }
}

/// Whether every record of a log carries a set operation.
pub open spec fn is_set_log(log: Seq<RecordView>) -> bool {
    forall|i: int| 0 <= i < log.len() ==> (#[trigger] log[i]).op is Some
}

/// `base` after the changes `ids`, applied oldest first: a name with an id is set to
/// it, a name with `None` is dropped.
pub open spec fn overlay(
    base: Map<Seq<char>, Seq<char>>,
    ids: Seq<(Seq<char>, Option<Seq<char>>)>,
) -> Map<Seq<char>, Seq<char>>
    decreases ids.len(),
{
    if ids.len() == 0 {
        base
    } else {
        let before = overlay(base, ids.drop_last());
        match ids.last().1 {
            Some(id) => before.insert(ids.last().0, id),
            None => before.remove(ids.last().0),
        }
    }
}

} // verus!
