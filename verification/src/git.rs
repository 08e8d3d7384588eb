//! What a backend on a Git repository decides.
//!
//! Such a backend keeps each collection on a branch and marks the records of sets by a
//! second parent: one of two empty commits, tagged `meta/+` and `meta/-`. Reading and
//! writing the repository is the backend's own work. Here stand the rules that it
//! follows: the names of refs, the parents of a new commit, what a commit of a set
//! stands for, and what a push amounted to.

use vstd::prelude::*;
use vstd::utf8::encode_utf8;
use crate::digest::{sha256_hex, sha256_hex_of};
use crate::error::{Error, ErrorView, Result};
use crate::record::SetOperation;
use crate::text::{decimal, join2, join3, same_text, u64_to_string};

verus! {

/// The name of the tag that marks the records that add to a set.
pub open spec fn add_tag() -> Seq<char> {
    "meta/+"@
}

/// The name of the tag that marks the records that delete from a set.
pub open spec fn del_tag() -> Seq<char> {
    "meta/-"@
}

/// The name of the tag that marks the records of `op`. The commit that it points at has
/// this name as its message.
pub fn sentinel_tag(op: SetOperation) -> (r: &'static str)
    ensures
        r@ == match op {
            SetOperation::Add => add_tag(),
            SetOperation::Del => del_tag(),
        },
{
    match op {
        SetOperation::Add => "meta/+",
        SetOperation::Del => "meta/-",
    }
}

/// The ref of the branch that holds `collection`: the collection's name, as it is,
/// under `refs/heads/`.
pub fn branch_ref(collection: &str) -> (r: String)
    ensures
        r@ == "refs/heads/"@ + collection@,
{
    join2("refs/heads/", collection)
}

/// The ref of the tag `name`.
pub fn tag_ref(name: &str) -> (r: String)
    ensures
        r@ == "refs/tags/"@ + name@,
{
    join2("refs/tags/", name)
}

/// The refspec that pushes the commit `commit` to the ref `target`.
pub fn push_refspec(commit: &str, target: &str) -> (r: String)
    ensures
        r@ == commit@ + ":"@ + target@,
{
    join3(commit, ":", target)
}

/// The reflog message for moving a branch to `commit`.
pub fn reflog_message(commit: &str) -> (r: String)
    ensures
        r@ == "commit: "@ + commit@,
{
    join2("commit: ", commit)
}

/// The name of the directory that holds the local clone of `remote`: the digest of its
/// address.
pub fn clone_dir_name(remote: &str) -> (r: String)
    ensures
        r@ == sha256_hex(encode_utf8(remote@)),
{
    sha256_hex_of(remote.as_bytes())
}

/// Whether the sentinel tags have to be pushed after a backend was opened: when one of
/// them had to be created.
pub fn needs_push(add_created: bool, del_created: bool) -> (r: bool)
    ensures
        r == (add_created || del_created),
{
    add_created || del_created
}

/// The parents of a new commit: the head of the collection, if it has one, then the
/// sentinel of its set operation, if it has one.
pub open spec fn parents_spec(
    head: Option<Seq<char>>,
    op: Option<SetOperation>,
    add_id: Seq<char>,
    del_id: Seq<char>,
) -> Seq<Seq<char>> {
    let first = match head {
        Some(h) => seq![h],
        None => Seq::empty(),
    };
    let second = match op {
        Some(SetOperation::Add) => seq![add_id],
        Some(SetOperation::Del) => seq![del_id],
        None => Seq::empty(),
    };
    first + second
}

/// The identifiers in `v`, in order.
pub open spec fn texts(v: Seq<String>) -> Seq<Seq<char>> {
    Seq::new(v.len(), |i: int| v[i]@)
}

/// The parents of a new commit.
pub fn commit_parents(head: Option<String>, op: Option<SetOperation>, add_id: &str, del_id: &str) -> (r:
    Vec<String>)
    ensures
        texts(r@) == parents_spec(
            match head {
                Some(h) => Some(h@),
                None => None,
            },
            op,
            add_id@,
            del_id@,
        ),
{
    let mut parents: Vec<String> = Vec::new();
    match head {
        Some(h) => {
            parents.push(h);
        },
        None => {},
    }
    match op {
        Some(SetOperation::Add) => {
            parents.push(String::from_str(add_id));
        },
        Some(SetOperation::Del) => {
            parents.push(String::from_str(del_id));
        },
        None => {},
    }
    proof {
        assert(texts(parents@) =~= parents_spec(
            match head {
                Some(h) => Some(h@),
                None => None,
            },
            op,
            add_id@,
            del_id@,
        ));
    }
    parents
}

/// What a commit means to the walk of a set.
#[derive(Debug, Clone, Copy, PartialEq, Eq, Structural)]
pub enum SetCommit {
    /// One of the two sentinels: no record, the walk passes over it.
    Sentinel,
    /// A record with its operation.
    Entry(SetOperation),
}

/// The operation that the first sentinel among `parents`, from position `from` on,
/// stands for.
pub open spec fn first_operator(
    parents: Seq<Seq<char>>,
    add_id: Seq<char>,
    del_id: Seq<char>,
    from: int,
) -> Option<SetOperation>
    decreases parents.len() - from,
{
    if from < 0 || from >= parents.len() {
        None
    } else if parents[from] == add_id {
        Some(SetOperation::Add)
    } else if parents[from] == del_id {
        Some(SetOperation::Del)
    } else {
        first_operator(parents, add_id, del_id, from + 1)
    }
}

/// The error text for a commit of a set with a wrong number of parents.
pub open spec fn wrong_parents_text(id: Seq<char>, count: nat) -> Seq<char> {
    "commit "@ + id + " has "@ + decimal(count) + " parents, expected 2"@
}

/// The error text for a commit of a set without a sentinel among its parents.
pub open spec fn no_operator_text(id: Seq<char>) -> Seq<char> {
    "commit "@ + id + " is missing an operator tag parent"@
}

/// What the commit `id` with the parents `parents` means to the walk of a set.
///
/// The sentinels themselves are passed over. Any other commit has one or two parents,
/// and the first of them that is a sentinel tells the operation; a commit of another
/// shape is malformed.
pub open spec fn classify(
    id: Seq<char>,
    parents: Seq<Seq<char>>,
    add_id: Seq<char>,
    del_id: Seq<char>,
) -> core::result::Result<SetCommit, ErrorView> {
    if id == add_id || id == del_id {
        Ok(SetCommit::Sentinel)
    } else if parents.len() != 1 && parents.len() != 2 {
        Err(ErrorView::Malformed(wrong_parents_text(id, parents.len())))
    } else {
        match first_operator(parents, add_id, del_id, 0) {
            Some(op) => Ok(SetCommit::Entry(op)),
            None => Err(ErrorView::Malformed(no_operator_text(id))),
        }
    }
}

/// Says what a commit means to the walk of a set.
pub fn classify_commit(id: &str, parents: &Vec<String>, add_id: &str, del_id: &str) -> (r: Result<
    SetCommit,
>)
    ensures
        match r {
            Ok(c) => classify(id@, texts(parents@), add_id@, del_id@) == Ok::<SetCommit, ErrorView>(
                c,
            ),
            Err(e) => classify(id@, texts(parents@), add_id@, del_id@) == Err::<
                SetCommit,
                ErrorView,
            >(e@),
        },
{
    if same_text(id, add_id) || same_text(id, del_id) {
        return Ok(SetCommit::Sentinel);
    }
    let count = parents.len();
    if count != 1 && count != 2 {
        let number = u64_to_string(count as u64);
        let mut what = join3("commit ", id, " has ");
        what.append(number.as_str());
        what.append(" parents, expected 2");
        return Err(Error::Malformed(what));
    }
    let ghost ps = texts(parents@);
    let mut i: usize = 0;
    while i < count
        invariant
            i <= count,
            count == parents.len(),
            count == 1 || count == 2,
            id@ != add_id@,
            id@ != del_id@,
            ps == texts(parents@),
            first_operator(ps, add_id@, del_id@, 0) == first_operator(ps, add_id@, del_id@, i as int),
        decreases count - i,
    {
        proof {
            assert(ps[i as int] == parents@[i as int]@);
        }
        if same_text(parents[i].as_str(), add_id) {
            return Ok(SetCommit::Entry(SetOperation::Add));
        }
        if same_text(parents[i].as_str(), del_id) {
            return Ok(SetCommit::Entry(SetOperation::Del));
        }
        i = i + 1;
    }
    Err(Error::Malformed(join3("commit ", id, " is missing an operator tag parent")))
}

/// What is known of a pushed ref: nothing yet, or what the remote last said of it,
/// where `None` means that it took the ref and a text is its reason for refusing it.
pub type PushReport = Option<Option<String>>;

/// Takes note of what the remote said of the ref `refname` while `target` was pushed:
/// a word on `target` replaces what was known, a word on another ref changes nothing.
pub fn note_push_update(seen: PushReport, refname: &str, target: &str, status: Option<&str>) -> (r:
    PushReport)
    ensures
        refname@ != target@ ==> r == seen,
        refname@ == target@ ==> match status {
            Some(why) => r matches Some(Some(s)) && s@ == why@,
            None => r == Some(None::<String>),
        },
{
    if same_text(refname, target) {
        match status {
            Some(why) => Some(Some(String::from_str(why))),
            None => Some(None),
        }
    } else {
        seen
    }
}

/// What a push of the branch `branch` amounted to. The local ref may be moved only
/// where this is `Ok`: the remote has said that it took the ref.
pub fn push_outcome(branch: &str, seen: PushReport) -> (r: Result<()>)
    ensures
        match seen {
            None => r matches Err(e) && e@ == ErrorView::NotPushed(branch@),
            Some(Some(why)) => r matches Err(e) && e@ == ErrorView::PushFailed(branch@, why@),
            Some(None) => r is Ok,
        },
{
    match seen {
        None => Err(Error::NotPushed(String::from_str(branch))),
        Some(Some(why)) => Err(Error::PushFailed(String::from_str(branch), why)),
        Some(None) => Ok(()),
    }
}

/// A commit as the walk of a set reads it: its identifier and those of its parents.
pub struct CommitInfo {
    /// The identifier of the commit.
    pub id: String,
    /// The identifiers of its parents, in their order.
    pub parents: Vec<String>,
}

/// The records among the first `k` commits of a walk, by position, with their
/// operations; or the error of the first malformed commit among them.
pub open spec fn set_records(
    commits: Seq<CommitInfo>,
    add_id: Seq<char>,
    del_id: Seq<char>,
    k: int,
) -> core::result::Result<Seq<(int, SetOperation)>, ErrorView>
    decreases k,
{
    if k <= 0 || k > commits.len() {
        Ok(Seq::empty())
    } else {
        match set_records(commits, add_id, del_id, k - 1) {
            Err(e) => Err(e),
            Ok(found) => match classify(
                commits[k - 1].id@,
                texts(commits[k - 1].parents@),
                add_id,
                del_id,
            ) {
                Ok(SetCommit::Sentinel) => Ok(found),
                Ok(SetCommit::Entry(op)) => Ok(found.push((k - 1, op))),
                Err(e) => Err(e),
            },
        }
    }
}

/// The positions and operations in `v`, in order.
pub open spec fn positions(v: Seq<(usize, SetOperation)>) -> Seq<(int, SetOperation)> {
    Seq::new(v.len(), |i: int| (v[i].0 as int, v[i].1))
}

/// Reads the commits of the branch of a set, newest first: one entry for each record,
/// with its position among the commits and its operation. The sentinels are passed
/// over, and the first malformed commit ends the walk with its error.
pub fn walk_set_commits(commits: &Vec<CommitInfo>, add_id: &str, del_id: &str) -> (r: Result<
    Vec<(usize, SetOperation)>,
>)
    ensures
        match r {
            Ok(v) => set_records(commits@, add_id@, del_id@, commits.len() as int) == Ok::<
                Seq<(int, SetOperation)>,
                ErrorView,
            >(positions(v@)),
            Err(e) => set_records(commits@, add_id@, del_id@, commits.len() as int) == Err::<
                Seq<(int, SetOperation)>,
                ErrorView,
            >(e@),
        },
{
    let mut out: Vec<(usize, SetOperation)> = Vec::new();
    let mut k: usize = 0;
    proof {
        assert(positions(out@) =~= Seq::<(int, SetOperation)>::empty());
    }
    while k < commits.len()
        invariant
            k <= commits.len(),
            set_records(commits@, add_id@, del_id@, k as int) == Ok::<
                Seq<(int, SetOperation)>,
                ErrorView,
            >(positions(out@)),
        decreases commits.len() - k,
    {
        let ghost before = positions(out@);
        match classify_commit(commits[k].id.as_str(), &commits[k].parents, add_id, del_id) {
            Ok(SetCommit::Sentinel) => {},
            Ok(SetCommit::Entry(op)) => {
                out.push((k, op));
                proof {
                    assert(positions(out@) =~= before.push((k as int, op)));
                }
            },
            Err(e) => {
                proof {
                    lemma_set_records_fail(commits@, add_id@, del_id@, k + 1, commits.len() as int);
                }
                return Err(e);
            },
        }
        k = k + 1;
    }
    Ok(out)
}

/// A walk that has failed among its first `k` commits fails with the same error
/// however far it goes.
pub proof fn lemma_set_records_fail(
    commits: Seq<CommitInfo>,
    add_id: Seq<char>,
    del_id: Seq<char>,
    k: int,
    n: int,
)
    requires
        0 <= k <= n <= commits.len(),
        set_records(commits, add_id, del_id, k) is Err,
    ensures
        set_records(commits, add_id, del_id, n) == set_records(commits, add_id, del_id, k),
    decreases n - k,
{
    if k < n {
        lemma_set_records_fail(commits, add_id, del_id, k, n - 1);
    }
}

/// What is known of one sentinel tag while a backend is opened.
pub enum TagState {
    /// The tag has not been looked up yet.
    Unknown,
    /// The repository has no such tag.
    Missing,
    /// The tag points at the commit with this identifier; the flag says whether tag
    /// and commit were created just now.
    Known(String, bool),
}

/// How far the sentinels have come while a backend is opened.
pub struct Bootstrap {
    /// The tag of the records that add.
    pub add: TagState,
    /// The tag of the records that delete.
    pub del: TagState,
    /// Whether the tags have been pushed since.
    pub pushed: bool,
}

/// The next thing to do with the sentinels.
pub enum BootstrapAction {
    /// Look the tag up by its ref.
    Lookup(SetOperation, String),
    /// Create a commit with an empty tree, no parents and the name as its message, and
    /// tag it with the name, lightweight.
    Create(SetOperation, &'static str),
    /// Push the two tag refs to `origin`.
    Push(String, String),
    /// Both sentinels are there: the identifiers of the one that adds and the one that
    /// deletes.
    Ready(String, String),
}

impl Bootstrap {
    /// The state in which nothing is known.
    pub fn new() -> (b: Bootstrap)
        ensures
            b.add is Unknown,
            b.del is Unknown,
            !b.pushed,
    {
        Bootstrap { add: TagState::Unknown, del: TagState::Unknown, pushed: false }
    }

    /// The next thing to do. Each tag is looked up, and created where it is missing,
    /// first the one that adds; the tags are pushed when one of them was created, and
    /// only then.
    pub fn next(&self) -> (r: BootstrapAction)
        ensures
            match (self.add, self.del) {
                (TagState::Unknown, _) => r matches BootstrapAction::Lookup(op, name) && op
                    == SetOperation::Add && name@ == "refs/tags/"@ + add_tag(),
                (TagState::Missing, _) => r matches BootstrapAction::Create(op, name) && op
                    == SetOperation::Add && name@ == add_tag(),
                (TagState::Known(_, _), TagState::Unknown) => r matches BootstrapAction::Lookup(
                    op,
                    name,
                ) && op == SetOperation::Del && name@ == "refs/tags/"@ + del_tag(),
                (TagState::Known(_, _), TagState::Missing) => r matches BootstrapAction::Create(
                    op,
                    name,
                ) && op == SetOperation::Del && name@ == del_tag(),
                (TagState::Known(a, a_new), TagState::Known(d, d_new)) => if (a_new || d_new)
                    && !self.pushed {
                    r matches BootstrapAction::Push(x, y) && x@ == "refs/tags/"@ + add_tag() && y@
                        == "refs/tags/"@ + del_tag()
                } else {
                    r matches BootstrapAction::Ready(x, y) && x@ == a@ && y@ == d@
                },
            },
    {
        match &self.add {
            TagState::Unknown => BootstrapAction::Lookup(
                SetOperation::Add,
                tag_ref(sentinel_tag(SetOperation::Add)),
            ),
            TagState::Missing => BootstrapAction::Create(
                SetOperation::Add,
                sentinel_tag(SetOperation::Add),
            ),
            TagState::Known(a, a_new) => match &self.del {
                TagState::Unknown => BootstrapAction::Lookup(
                    SetOperation::Del,
                    tag_ref(sentinel_tag(SetOperation::Del)),
                ),
                TagState::Missing => BootstrapAction::Create(
                    SetOperation::Del,
                    sentinel_tag(SetOperation::Del),
                ),
                TagState::Known(d, d_new) => {
                    if needs_push(*a_new, *d_new) && !self.pushed {
                        BootstrapAction::Push(
                            tag_ref(sentinel_tag(SetOperation::Add)),
                            tag_ref(sentinel_tag(SetOperation::Del)),
                        )
                    } else {
                        BootstrapAction::Ready(a.clone(), d.clone())
                    }
                },
            },
        }
    }
}

/// How far a commit to a branch has come.
pub struct CommitProgress {
    /// The collection, which is the name of the branch.
    pub branch: String,
    /// The set operation of the record.
    pub op: Option<SetOperation>,
    /// The identifier of the sentinel of the records that add.
    pub add_id: String,
    /// The identifier of the sentinel of the records that delete.
    pub del_id: String,
    /// The head of the branch once it was resolved: `Some(None)` for a branch that
    /// does not exist yet.
    pub head: Option<Option<String>>,
    /// The identifier of the tree of the new commit, once it was built.
    pub tree: Option<String>,
    /// The identifier of the new commit, once it was created.
    pub commit: Option<String>,
    /// Whether the push has come back without an error.
    pub pushed: bool,
    /// What the remote said of the branch during the push.
    pub report: PushReport,
    /// Whether the local branch was moved to the new commit.
    pub moved: bool,
}

/// The next thing to do for a commit.
pub enum CommitAction {
    /// Resolve this ref to the head of the branch.
    ResolveHead(String),
    /// Build the tree: that of this commit, or an empty one for `None`, overlaid with
    /// the attachment changes.
    BuildTree(Option<String>),
    /// Create the commit with this tree and these parents.
    CreateCommit(String, Vec<String>),
    /// Push with this refspec, noting what the remote says of this ref.
    Push(String, String),
    /// Move this ref of the local clone to this commit, with this reflog message.
    MoveBranch(String, String, String),
    /// The commit with this identifier is the new head, here and at the remote.
    Finish(String),
}

/// The characters of an optional text.
pub open spec fn opt_text(o: Option<String>) -> Option<Seq<char>> {
    match o {
        Some(s) => Some(s@),
        None => None,
    }
}

impl CommitProgress {
    /// The state before anything was done.
    pub fn new(branch: &str, op: Option<SetOperation>, add_id: &str, del_id: &str) -> (p: Self)
        ensures
            p.branch@ == branch@,
            p.op == op,
            p.add_id@ == add_id@,
            p.del_id@ == del_id@,
            p.head is None,
            p.tree is None,
            p.commit is None,
            !p.pushed,
            p.report is None,
            !p.moved,
    {
        CommitProgress {
            branch: String::from_str(branch),
            op,
            add_id: String::from_str(add_id),
            del_id: String::from_str(del_id),
            head: None,
            tree: None,
            commit: None,
            pushed: false,
            report: None,
            moved: false,
        }
    }

    /// The next thing to do, or the error that ends the commit.
    ///
    /// The head is resolved, the tree built, the commit created with the head as its
    /// first parent and the sentinel of its operation as its second, and pushed. The
    /// local branch is moved only after the remote has said that it took the ref; a
    /// push of which the remote said nothing, or which it refused, ends the commit
    /// with the local branch where it was.
    pub fn next(&self) -> (r: Result<CommitAction>)
        ensures
            r matches Ok(CommitAction::MoveBranch(_, _, _)) ==> self.pushed && self.report == Some(
                None::<String>,
            ) && !self.moved,
            match (self.head, self.tree, self.commit) {
                (None, _, _) => r matches Ok(CommitAction::ResolveHead(target)) && target@
                    == "refs/heads/"@ + self.branch@,
                (Some(head), None, _) => r matches Ok(CommitAction::BuildTree(base)) && opt_text(
                    base,
                ) == opt_text(head),
                (Some(head), Some(tree), None) => r matches Ok(
                    CommitAction::CreateCommit(t, parents),
                ) && t@ == tree@ && texts(parents@) == parents_spec(
                    opt_text(head),
                    self.op,
                    self.add_id@,
                    self.del_id@,
                ),
                (Some(_), Some(_), Some(commit)) => if !self.pushed {
                    r matches Ok(CommitAction::Push(refspec, target)) && target@ == "refs/heads/"@
                        + self.branch@ && refspec@ == commit@ + ":"@ + target@
                } else if self.moved {
                    r matches Ok(CommitAction::Finish(c)) && c@ == commit@
                } else {
                    match self.report {
                        None => r matches Err(e) && e@ == ErrorView::NotPushed(self.branch@),
                        Some(Some(why)) => r matches Err(e) && e@ == ErrorView::PushFailed(
                            self.branch@,
                            why@,
                        ),
                        Some(None) => r matches Ok(CommitAction::MoveBranch(target, c, message))
                            && target@ == "refs/heads/"@ + self.branch@ && c@ == commit@
                            && message@ == "commit: "@ + commit@,
                    }
                },
            },
    {
        let head = match &self.head {
            None => {
                return Ok(CommitAction::ResolveHead(branch_ref(self.branch.as_str())));
            },
            Some(head) => head,
        };
        let tree = match &self.tree {
            None => {
                return Ok(
                    CommitAction::BuildTree(
                        match head {
                            Some(h) => Some(h.clone()),
                            None => None,
                        },
                    ),
                );
            },
            Some(tree) => tree,
        };
        let commit = match &self.commit {
            None => {
                let first = match head {
                    Some(h) => Some(h.clone()),
                    None => None,
                };
                let parents = commit_parents(
                    first,
                    self.op,
                    self.add_id.as_str(),
                    self.del_id.as_str(),
                );
                return Ok(CommitAction::CreateCommit(tree.clone(), parents));
            },
            Some(commit) => commit,
        };
        let target = branch_ref(self.branch.as_str());
        if !self.pushed {
            let refspec = push_refspec(commit.as_str(), target.as_str());
            return Ok(CommitAction::Push(refspec, target));
        }
        if self.moved {
            return Ok(CommitAction::Finish(commit.clone()));
        }
        let report = match &self.report {
            None => None,
            Some(None) => Some(None),
            Some(Some(why)) => Some(Some(why.clone())),
        };
        match push_outcome(self.branch.as_str(), report) {
            Ok(_) => Ok(CommitAction::MoveBranch(target, commit.clone(), reflog_message(commit.as_str()))),
            Err(e) => Err(e),
        }
    }
}

} // verus!
