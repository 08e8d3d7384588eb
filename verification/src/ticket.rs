//! Tickets: numbered items of a project, with title, comments, attachments, state and
//! dependencies.

use vstd::prelude::*;
use crate::deps::{DependencyResolver, DependencyStatus};
use crate::error::{Error, ErrorView, Result};
use crate::project::path_of;
use crate::record::{
    contents, head_attachments, is_set_log, Change, Record, RecordBuilder, RecordView,
    SetOperation,
};
use crate::remote::{
    appended, attached, found_as, same_logs, same_setup, set_entries, Remote, StoreView,
};
use crate::set::{entries_of, is_current, is_member, kept, Entry, SetWalkIterator};
use crate::text::{
    contains_char, decimal, join2, join3, same_text, split_first, split_once, u64_to_string,
};
use crate::deps::status_of;
use crate::workspace::{
    append_to, has_ticket, is_latest, plainly_appended, slug_parts, Workspace,
};

verus! {

/// Whether a ticket is open or closed.
#[derive(Debug, Clone, Copy, PartialEq, Eq, Structural)]
pub enum TicketState {
    /// Work on the ticket is not finished.
    Open,
    /// Work on the ticket is finished.
    Closed,
}

/// The text that stands for a state in the state collection of a ticket.
pub open spec fn state_text(state: TicketState) -> Seq<char> {
    match state {
        TicketState::Open => "open"@,
        TicketState::Closed => "closed"@,
    }
}

/// The state that a text stands for.
pub open spec fn parse_state(text: Seq<char>) -> Option<TicketState> {
    if text == "open"@ {
        Some(TicketState::Open)
    } else if text == "closed"@ {
        Some(TicketState::Closed)
    } else {
        None
    }
}

/// The state that a state collection gives: open where nothing was ever recorded, else
/// what the newest record says, or `None` where it says neither.
pub open spec fn state_of(log: Seq<RecordView>) -> Option<TicketState> {
    if log.len() == 0 {
        Some(TicketState::Open)
    } else {
        parse_state(log[0].message)
    }
}

/// The two state texts differ, and each is read back as its state.
pub proof fn lemma_state_text(state: TicketState)
    ensures
        parse_state(state_text(state)) == Some(state),
{
    reveal_strlit("open");
    reveal_strlit("closed");
    assert("open"@.len() != "closed"@.len());
}

impl TicketState {
    /// Reads a state from its text. Any text but `open` and `closed` is malformed.
    pub fn try_from(value: &str) -> (r: Result<TicketState>)
        ensures
            match r {
                Ok(s) => parse_state(value@) == Some(s),
                Err(e) => parse_state(value@) is None && e@ == ErrorView::Malformed(value@),
            },
    {
        if same_text(value, "open") {
            Ok(TicketState::Open)
        } else if same_text(value, "closed") {
            Ok(TicketState::Closed)
        } else {
            Err(Error::Malformed(String::from_str(value)))
        }
    }

    /// The text that stands for the state.
    pub fn as_str(&self) -> (r: &'static str)
        ensures
            r@ == state_text(*self),
    {
        match self {
            TicketState::Open => "open",
            TicketState::Closed => "closed",
        }
    }
}

/// What identifies a ticket: its project and its number.
pub struct TicketView {
    /// The slug of the project.
    pub project: Seq<char>,
    /// The number of the ticket within the project.
    pub id: u64,
}

/// The slug of the ticket `id` of the project `project`.
pub open spec fn ticket_slug(project: Seq<char>, id: u64) -> Seq<char> {
    project + "-"@ + decimal(id as nat)
}

/// Where the collections of the ticket `id` of the project `project` begin.
pub open spec fn ticket_path(project: Seq<char>, id: u64) -> Seq<char> {
    path_of(project) + "/ticket/"@ + decimal(id as nat)
}

/// The collection that holds the title of a ticket.
pub open spec fn title_path(t: TicketView) -> Seq<char> {
    ticket_path(t.project, t.id) + "/title"@
}

/// The collection that holds the comments of a ticket.
pub open spec fn comment_path(t: TicketView) -> Seq<char> {
    ticket_path(t.project, t.id) + "/comment"@
}

/// The collection that carries the attachments of a ticket.
pub open spec fn attachment_path(t: TicketView) -> Seq<char> {
    ticket_path(t.project, t.id) + "/attachment"@
}

/// The collection that holds the state of a ticket.
pub open spec fn state_path(t: TicketView) -> Seq<char> {
    ticket_path(t.project, t.id) + "/state"@
}

/// The set of the dependencies of a ticket.
pub open spec fn dependencies_path(t: TicketView) -> Seq<char> {
    ticket_path(t.project, t.id) + "/dependencies"@
}

/// The message that stands for a dependency in the set of dependencies.
pub open spec fn dependency_text(origin: Seq<char>, endpoint: Seq<char>) -> Seq<char> {
    origin + "@"@ + endpoint
}

/// Whether `origin` can be the origin of a dependency: it holds no `@`.
pub open spec fn valid_origin(origin: Seq<char>) -> bool {
    !origin.contains('@')
}

/// The message of a dependency with a valid origin is read back as that dependency.
pub proof fn lemma_dependency_text(origin: Seq<char>, endpoint: Seq<char>)
    requires
        valid_origin(origin),
    ensures
        split_first(dependency_text(origin, endpoint), '@') == Some((origin, endpoint)),
{
    reveal_strlit("@");
    let m = dependency_text(origin, endpoint);
    let n = origin.len() as int;
    assert(m[n] == '@');
    assert(m.contains('@'));
    m.index_of_first_ensures('@');
    let i = m.index_of_first('@')->0;
    if i < n {
        assert(m[i] == origin[i]);
        assert(origin.contains('@'));
    }
    assert(m.subrange(0, n) =~= origin);
    assert(m.subrange(n + 1, m.len() as int) =~= endpoint);
}

/// Checks that `origin` can be the origin of a dependency.
pub fn validate_origin(origin: &str) -> (r: Result<()>)
    ensures
        match r {
            Ok(_) => valid_origin(origin@),
            Err(e) => !valid_origin(origin@) && e@ == ErrorView::MalformedOrigin(origin@),
        },
{
    if contains_char(origin, '@') {
        return Err(Error::MalformedOrigin(String::from_str(origin)));
    }
    Ok(())
}

/// A handle on one ticket of a workspace.
pub struct Ticket {
    project: String,
    slug: String,
    id: u64,
    path: String,
}

impl View for Ticket {
    type V = TicketView;

    closed spec fn view(&self) -> TicketView {
        TicketView { project: self.project@, id: self.id }
    }
}

/// The handle on the ticket `id` of the project `project`.
pub(crate) fn ticket_handle(project: &str, id: u64) -> (t: Ticket)
    ensures
        t.wf(),
        t@ == (TicketView { project: project@, id }),
{
    let number = u64_to_string(id);
    let base = join2("project/", project);
    Ticket {
        project: String::from_str(project),
        slug: join3(project, "-", number.as_str()),
        id,
        path: join3(base.as_str(), "/ticket/", number.as_str()),
    }
}

impl Ticket {
    /// The invariant of the handle: slug and path are those of its project and number.
    pub closed spec fn wf(&self) -> bool {
        &&& self.slug@ == ticket_slug(self.project@, self.id)
        &&& self.path@ == ticket_path(self.project@, self.id)
    }

    /// The slug of the ticket: the slug of its project, `-`, and its number.
    pub fn slug(&self) -> (r: &str)
        requires
            self.wf(),
        ensures
            r@ == ticket_slug(self@.project, self@.id),
    {
        self.slug.as_str()
    }

    /// The number of the ticket within its project.
    pub fn id(&self) -> (r: u64)
        ensures
            r == self@.id,
    {
        self.id
    }

    /// The record that holds the title of the ticket.
    pub fn title<R: Remote>(&self, workspace: &Workspace<R>) -> (r: Result<Option<R::Record>>)
        requires
            self.wf(),
            workspace.wf(),
        ensures
            workspace.state().reliable ==> r is Ok,
            r matches Ok(found) ==> is_latest(workspace.state().log(title_path(self@)), found),
    {
        let path = join2(self.path.as_str(), "/title");
        workspace.remote.latest(path.as_str())
    }

    /// Gives the ticket a title.
    pub fn set_title<R: Remote>(&self, workspace: &mut Workspace<R>, name: &str) -> (r: Result<
        R::Record,
    >)
        requires
            self.wf(),
            old(workspace).wf(),
        ensures
            final(workspace).wf(),
            same_setup(old(workspace).state(), final(workspace).state()),
            old(workspace).state().reliable ==> r is Ok,
            match r {
                Ok(x) => plainly_appended(
                    old(workspace).state(),
                    final(workspace).state(),
                    title_path(self@),
                    x.data(),
                    name@,
                ),
                Err(_) => same_logs(old(workspace).state(), final(workspace).state()),
            },
    {
        let path = join2(self.path.as_str(), "/title");
        append_to(&mut workspace.remote, path.as_str(), name)
    }

    /// The comments on the ticket, newest first.
    pub fn comments<R: Remote>(&self, workspace: &Workspace<R>) -> (r: Result<Vec<R::Record>>)
        requires
            self.wf(),
            workspace.wf(),
        ensures
            workspace.state().reliable ==> r is Ok,
            r matches Ok(v) ==> contents(v@) == workspace.state().log(comment_path(self@))
                && crate::record::is_chain(contents(v@)),
    {
        let path = join2(self.path.as_str(), "/comment");
        workspace.remote.walk(path.as_str())
    }

    /// Adds a comment to the ticket.
    pub fn add_comment<R: Remote>(&self, workspace: &mut Workspace<R>, comment: &str) -> (r: Result<
        R::Record,
    >)
        requires
            self.wf(),
            old(workspace).wf(),
        ensures
            final(workspace).wf(),
            same_setup(old(workspace).state(), final(workspace).state()),
            old(workspace).state().reliable ==> r is Ok,
            match r {
                Ok(x) => plainly_appended(
                    old(workspace).state(),
                    final(workspace).state(),
                    comment_path(self@),
                    x.data(),
                    comment@,
                ),
                Err(_) => same_logs(old(workspace).state(), final(workspace).state()),
            },
    {
        let path = join2(self.path.as_str(), "/comment");
        append_to(&mut workspace.remote, path.as_str(), comment)
    }

    /// Stores `data` under `name` among the attachments of the ticket. The record that
    /// says so has the message `+` and the name.
    pub fn upsert_attachment<R: Remote>(
        &self,
        workspace: &mut Workspace<R>,
        name: &str,
        data: &[u8],
    ) -> (r: Result<R::Record>)
        requires
            self.wf(),
            old(workspace).wf(),
        ensures
            final(workspace).wf(),
            same_setup(old(workspace).state(), final(workspace).state()),
            old(workspace).state().reliable ==> r is Ok,
            match r {
                Ok(x) => {
                    let before = old(workspace).state();
                    let after = final(workspace).state();
                    &&& appended(before, after, attachment_path(self@), x.data())
                    &&& x.data().message == "+"@ + name@
                    &&& x.data().op is None
                    &&& x.data().attachments == head_attachments(
                        before.log(attachment_path(self@)),
                    ).insert(name@, before.blob_id(data@))
                    &&& after.blobs == before.blobs.insert(before.blob_id(data@), data@)
                    &&& attached(after.blobs, x.data().attachments, name@) == Some(data@)
                },
                Err(_) => same_logs(old(workspace).state(), final(workspace).state()),
            },
    {
        let path = join2(self.path.as_str(), "/attachment");
        let builder = workspace.remote.record_builder(path.as_str());
        let builder = match builder.upsert_attachment(name, data) {
            Ok(builder) => builder,
            Err(e) => {
                return Err(e);
            },
        };
        let message = join2("+", name);
        proof {
            let store = workspace.state();
            let base = head_attachments(store.log(path@));
            let changes = builder.changes();
            assert(changes =~= seq![(name@, Some(data@))]);
            assert(changes.drop_last() =~= Seq::<Change>::empty());
            assert(changes.last() == (name@, Some(data@)));
            let ids = crate::remote::addressed(store, changes);
            assert(ids.drop_last() =~= Seq::empty());
            assert(ids.last() == (name@, Some(store.blob_id(data@))));
            assert(crate::record::overlay(base, ids.drop_last()) == base);
            assert(crate::record::overlay(base, ids) == base.insert(name@, store.blob_id(data@)));
            assert(crate::remote::filed(store, store.blobs, changes.drop_last()) == store.blobs);
            assert(crate::remote::filed(store, store.blobs, changes) == store.blobs.insert(
                store.blob_id(data@),
                data@,
            ));
        }
        workspace.remote.commit(builder, message.as_str())
    }

    /// Drops `name` from the attachments of the ticket. The record that says so has
    /// the message `-` and the name. Earlier records keep the attachment.
    pub fn remote_attachment<R: Remote>(&self, workspace: &mut Workspace<R>, name: &str) -> (r:
        Result<R::Record>)
        requires
            self.wf(),
            old(workspace).wf(),
        ensures
            final(workspace).wf(),
            same_setup(old(workspace).state(), final(workspace).state()),
            old(workspace).state().reliable ==> r is Ok,
            match r {
                Ok(x) => {
                    let before = old(workspace).state();
                    let after = final(workspace).state();
                    &&& appended(before, after, attachment_path(self@), x.data())
                    &&& x.data().message == "-"@ + name@
                    &&& x.data().op is None
                    &&& x.data().attachments == head_attachments(
                        before.log(attachment_path(self@)),
                    ).remove(name@)
                    &&& after.blobs == before.blobs
                    &&& attached(after.blobs, x.data().attachments, name@) is None
                },
                Err(_) => same_logs(old(workspace).state(), final(workspace).state()),
            },
    {
        let path = join2(self.path.as_str(), "/attachment");
        let builder = workspace.remote.record_builder(path.as_str());
        let builder = match builder.remove_attachment(name) {
            Ok(builder) => builder,
            Err(e) => {
                return Err(e);
            },
        };
        let message = join2("-", name);
        proof {
            let store = workspace.state();
            let base = head_attachments(store.log(path@));
            let changes = builder.changes();
            assert(changes =~= seq![(name@, None::<Seq<u8>>)]);
            assert(changes.drop_last() =~= Seq::<Change>::empty());
            assert(changes.last() == (name@, None::<Seq<u8>>));
            let ids = crate::remote::addressed(store, changes);
            assert(ids.drop_last() =~= Seq::empty());
            assert(ids.last() == (name@, None::<Seq<char>>));
            assert(crate::record::overlay(base, ids.drop_last()) == base);
            assert(crate::record::overlay(base, ids) == base.remove(name@));
            assert(crate::remote::filed(store, store.blobs, changes.drop_last()) == store.blobs);
            assert(crate::remote::filed(store, store.blobs, changes) == store.blobs);
        }
        workspace.remote.commit(builder, message.as_str())
    }

    /// The content stored under `name` as of the newest attachment record.
    pub fn attachment<R: Remote>(&self, workspace: &Workspace<R>, name: &str) -> (r: Result<
        Option<Vec<u8>>,
    >)
        requires
            self.wf(),
            workspace.wf(),
        ensures
            workspace.state().reliable ==> r is Ok,
            r matches Ok(found) ==> {
                let log = workspace.state().log(attachment_path(self@));
                let expected = if log.len() > 0 {
                    attached(workspace.state().blobs, log[0].attachments, name@)
                } else {
                    None
                };
                match found {
                    Some(bytes) => expected == Some(bytes@),
                    None => expected is None,
                }
            },
    {
        let path = join2(self.path.as_str(), "/attachment");
        let latest = match workspace.remote.latest(path.as_str()) {
            Ok(latest) => latest,
            Err(e) => {
                return Err(e);
            },
        };
        match latest {
            Some(record) => workspace.remote.attachment(&record, name),
            None => Ok(None),
        }
    }

    /// The state of the ticket, with the record that set it. A ticket whose state was
    /// never set is open, and no record comes with that.
    pub fn state<R: Remote>(&self, workspace: &Workspace<R>) -> (r: Result<
        (TicketState, Option<R::Record>),
    >)
        requires
            self.wf(),
            workspace.wf(),
        ensures
            workspace.state().reliable ==> (r is Ok <==> state_of(
                workspace.state().log(state_path(self@)),
            ) is Some),
            match r {
                Ok((state, record)) => {
                    &&& is_latest(workspace.state().log(state_path(self@)), record)
                    &&& state_of(workspace.state().log(state_path(self@))) == Some(state)
                },
                Err(e) => workspace.state().reliable ==> e@ == ErrorView::Malformed(
                    state_path(self@),
                ),
            },
    {
        let path = join2(self.path.as_str(), "/state");
        let latest = match workspace.remote.latest(path.as_str()) {
            Ok(latest) => latest,
            Err(e) => {
                return Err(e);
            },
        };
        match latest {
            None => Ok((TicketState::Open, None)),
            Some(record) => {
                let message = record.message();
                match TicketState::try_from(message.as_str()) {
                    Ok(state) => Ok((state, Some(record))),
                    Err(_) => Err(Error::Malformed(path)),
                }
            },
        }
    }

    /// Sets the state of the ticket.
    pub fn set_state<R: Remote>(&self, workspace: &mut Workspace<R>, state: TicketState) -> (r:
        Result<R::Record>)
        requires
            self.wf(),
            old(workspace).wf(),
        ensures
            final(workspace).wf(),
            same_setup(old(workspace).state(), final(workspace).state()),
            old(workspace).state().reliable ==> r is Ok,
            match r {
                Ok(x) => {
                    &&& plainly_appended(
                        old(workspace).state(),
                        final(workspace).state(),
                        state_path(self@),
                        x.data(),
                        state_text(state),
                    )
                    &&& state_of(final(workspace).state().log(state_path(self@))) == Some(state)
                },
                Err(_) => same_logs(old(workspace).state(), final(workspace).state()),
            },
    {
        let path = join2(self.path.as_str(), "/state");
        proof {
            lemma_state_text(state);
        }
        append_to(&mut workspace.remote, path.as_str(), state.as_str())
    }

    /// Whether the ticket is open.
    pub fn is_open<R: Remote>(&self, workspace: &Workspace<R>) -> (r: Result<bool>)
        requires
            self.wf(),
            workspace.wf(),
        ensures
            workspace.state().reliable ==> (r is Ok <==> state_of(
                workspace.state().log(state_path(self@)),
            ) is Some),
            match r {
                Ok(b) => state_of(workspace.state().log(state_path(self@))) == Some(
                    if b {
                        TicketState::Open
                    } else {
                        TicketState::Closed
                    },
                ),
                Err(e) => workspace.state().reliable ==> e@ == ErrorView::Malformed(
                    state_path(self@),
                ),
            },
    {
        match self.state(workspace) {
            Ok((state, _)) => Ok(
                match state {
                    TicketState::Open => true,
                    TicketState::Closed => false,
                },
            ),
            Err(e) => Err(e),
        }
    }

    /// Whether the ticket is closed.
    pub fn is_closed<R: Remote>(&self, workspace: &Workspace<R>) -> (r: Result<bool>)
        requires
            self.wf(),
            workspace.wf(),
        ensures
            workspace.state().reliable ==> (r is Ok <==> state_of(
                workspace.state().log(state_path(self@)),
            ) is Some),
            match r {
                Ok(b) => state_of(workspace.state().log(state_path(self@))) == Some(
                    if b {
                        TicketState::Closed
                    } else {
                        TicketState::Open
                    },
                ),
                Err(e) => workspace.state().reliable ==> e@ == ErrorView::Malformed(
                    state_path(self@),
                ),
            },
    {
        match self.state(workspace) {
            Ok((state, _)) => Ok(
                match state {
                    TicketState::Open => false,
                    TicketState::Closed => true,
                },
            ),
            Err(e) => Err(e),
        }
    }

    /// Makes the ticket depend on `endpoint` of `origin`. The record that comes back
    /// is the one that adds the dependency: a new one, or the one that is there where
    /// the ticket has the dependency already.
    pub fn add_dependency<R: Remote>(
        &self,
        workspace: &mut Workspace<R>,
        origin: &str,
        endpoint: &str,
    ) -> (r: Result<R::Record>)
        requires
            self.wf(),
            old(workspace).wf(),
        ensures
            final(workspace).wf(),
            same_setup(old(workspace).state(), final(workspace).state()),
            !valid_origin(origin@) ==> (r matches Err(e) && e@ == ErrorView::MalformedOrigin(
                origin@,
            )),
            old(workspace).state().reliable && valid_origin(origin@) ==> (r is Ok <==> is_set_log(
                old(workspace).state().log(dependencies_path(self@)),
            )),
            match r {
                Ok(x) => {
                    let before = old(workspace).state();
                    let after = final(workspace).state();
                    let path = dependencies_path(self@);
                    let text = dependency_text(origin@, endpoint@);
                    &&& valid_origin(origin@)
                    &&& is_set_log(before.log(path))
                    &&& if is_member(set_entries(before.log(path)), text) {
                        &&& same_logs(before, after)
                        &&& found_as(before.log(path), text, Ok::<R::Record, Option<R::Record>>(x))
                    } else {
                        &&& appended(before, after, path, x.data())
                        &&& x.data().message == text
                        &&& x.data().op == Some(SetOperation::Add)
                    }
                },
                Err(_) => same_logs(old(workspace).state(), final(workspace).state()),
            },
    {
        match validate_origin(origin) {
            Ok(_) => {},
            Err(e) => {
                return Err(e);
            },
        }
        let path = join2(self.path.as_str(), "/dependencies");
        let text = join3(origin, "@", endpoint);
        match workspace.remote.set_add(path.as_str(), text.as_str()) {
            Ok(Ok((record, _))) => Ok(record),
            Ok(Err(existing)) => Ok(existing),
            Err(e) => Err(e),
        }
    }

    /// Ends the dependency of the ticket on `endpoint` of `origin`. The record that
    /// comes back is the one that deletes it, or `None` where the ticket had no such
    /// dependency.
    pub fn remove_dependency<R: Remote>(
        &self,
        workspace: &mut Workspace<R>,
        origin: &str,
        endpoint: &str,
    ) -> (r: Result<Option<R::Record>>)
        requires
            self.wf(),
            old(workspace).wf(),
        ensures
            final(workspace).wf(),
            same_setup(old(workspace).state(), final(workspace).state()),
            !valid_origin(origin@) ==> (r matches Err(e) && e@ == ErrorView::MalformedOrigin(
                origin@,
            )),
            old(workspace).state().reliable && valid_origin(origin@) ==> (r is Ok <==> is_set_log(
                old(workspace).state().log(dependencies_path(self@)),
            )),
            match r {
                Ok(found) => {
                    let before = old(workspace).state();
                    let after = final(workspace).state();
                    let path = dependencies_path(self@);
                    let text = dependency_text(origin@, endpoint@);
                    &&& valid_origin(origin@)
                    &&& is_set_log(before.log(path))
                    &&& match found {
                        Some(x) => {
                            &&& is_member(set_entries(before.log(path)), text)
                            &&& appended(before, after, path, x.data())
                            &&& x.data().message == text
                            &&& x.data().op == Some(SetOperation::Del)
                        },
                        None => {
                            &&& !is_member(set_entries(before.log(path)), text)
                            &&& same_logs(before, after)
                        },
                    }
                },
                Err(_) => same_logs(old(workspace).state(), final(workspace).state()),
            },
    {
        match validate_origin(origin) {
            Ok(_) => {},
            Err(e) => {
                return Err(e);
            },
        }
        let path = join2(self.path.as_str(), "/dependencies");
        let text = join3(origin, "@", endpoint);
        match workspace.remote.set_del(path.as_str(), text.as_str()) {
            Ok(Ok((record, _))) => Ok(Some(record)),
            Ok(Err(_)) => Ok(None),
            Err(e) => Err(e),
        }
    }

    /// The dependencies of the ticket as pairs of origin and endpoint, oldest first:
    /// what a replay of the set of dependencies holds, each message split at its first
    /// `@`. A message without `@` is malformed data.
    pub fn dependencies<R: Remote>(&self, workspace: &Workspace<R>) -> (r: Result<
        Vec<(String, String)>,
    >)
        requires
            self.wf(),
            workspace.wf(),
        ensures
            match r {
                Ok(v) => {
                    let log = workspace.state().log(dependencies_path(self@));
                    let picked = kept(set_entries(log));
                    &&& is_set_log(log)
                    &&& v.len() == picked.len()
                    &&& forall|q: int|
                        0 <= q < v.len() ==> split_first(
                            log[picked[v.len() - 1 - q]].message,
                            '@',
                        ) == Some(((#[trigger] v@[q]).0@, v@[q].1@))
                },
                Err(e) => workspace.state().reliable ==> {
                    let log = workspace.state().log(dependencies_path(self@));
                    let picked = kept(set_entries(log));
                    if is_set_log(log) {
                        &&& e@ == ErrorView::Malformed(dependencies_path(self@))
                        &&& exists|q: int|
                            0 <= q < picked.len() && split_first(
                                log[#[trigger] picked[q]].message,
                                '@',
                            ) is None
                    } else {
                        e@ is Malformed
                    }
                },
            },
    {
        let path = join2(self.path.as_str(), "/dependencies");
        let records = match workspace.remote.set_get_all(path.as_str()) {
            Ok(records) => records,
            Err(e) => {
                return Err(e);
            },
        };
        let ghost log = workspace.state().log(dependencies_path(self@));
        let ghost picked = kept(set_entries(log));
        let mut out: Vec<(String, String)> = Vec::new();
        let mut i: usize = 0;
        proof {
            crate::set::lemma_held_increasing(set_entries(log), log.len() as int);
        }
        while i < records.len()
            invariant
                i <= records.len(),
                out.len() == i,
                records.len() == picked.len(),
                is_set_log(log),
                log == workspace.state().log(dependencies_path(self@)),
                picked == kept(set_entries(log)),
                forall|a: int| 0 <= a < picked.len() ==> 0 <= #[trigger] picked[a] < log.len(),
                path@ == dependencies_path(self@),
                forall|q: int|
                    0 <= q < records.len() ==> (#[trigger] records@[q]).data() == log[picked[
                        records.len() - 1 - q]],
                forall|q: int|
                    0 <= q < i ==> split_first(log[picked[records.len() - 1 - q]].message, '@')
                        == Some(((#[trigger] out@[q]).0@, out@[q].1@)),
            decreases records.len() - i,
        {
            let message = records[i].message();
            proof {
                assert(records@[i as int].data() == log[picked[records.len() - 1 - i]]);
            }
            match split_once(message.as_str(), '@') {
                Some(pair) => {
                    out.push(pair);
                },
                None => {
                    proof {
                        assert(split_first(log[picked[records.len() - 1 - i]].message, '@') is None);
                    }
                    return Err(Error::Malformed(path));
                },
            }
            i = i + 1;
        }
        Ok(out)
    }
}

/// The status of the ticket `endpoint` of the workspace itself: pending while it is
/// open, complete once it is closed, and `None` where the workspace has no such
/// ticket or its state cannot be read.
pub open spec fn local_status(store: StoreView, endpoint: Seq<char>) -> Option<DependencyStatus> {
    match slug_parts(endpoint) {
        Some((project, id)) => if has_ticket(store, project, id) {
            match state_of(store.log(state_path(TicketView { project, id }))) {
                Some(state) => Some(status_of(state)),
                None => None,
            }
        } else {
            None
        },
        None => None,
    }
}

/// Whether `item` is what resolving the dependency with the message `message` gives.
///
/// A message without `@` is malformed data of the collection `path`. A dependency on
/// the origin `_` has the status of the ticket that its endpoint names in `store`. For
/// any other origin the resolver decides; the item names origin and endpoint.
pub open spec fn resolved_as(
    store: StoreView,
    path: Seq<char>,
    message: Seq<char>,
    item: Result<(String, String, DependencyStatus)>,
) -> bool {
    match split_first(message, '@') {
        None => item matches Err(e) && e@ == ErrorView::Malformed(path),
        Some((origin, endpoint)) => match item {
            Ok((a, b, status)) => {
                &&& a@ == origin
                &&& b@ == endpoint
                &&& origin == "_"@ ==> local_status(store, endpoint) == Some(status)
            },
            Err(_) => origin == "_"@ && store.reliable ==> local_status(store, endpoint) is None,
        },
    }
}

/// The status of the ticket `endpoint` of `workspace`, as a dependency.
pub fn resolve_local<R: Remote>(workspace: &Workspace<R>, endpoint: &str) -> (r: Result<
    DependencyStatus,
>)
    requires
        workspace.wf(),
    ensures
        match r {
            Ok(status) => local_status(workspace.state(), endpoint@) == Some(status),
            Err(_) => workspace.state().reliable ==> local_status(workspace.state(), endpoint@)
                is None,
        },
{
    let ticket = match workspace.ticket(endpoint) {
        Ok(ticket) => ticket,
        Err(e) => {
            return Err(e);
        },
    };
    match ticket.state(workspace) {
        Ok((state, _)) => Ok(DependencyStatus::from(state)),
        Err(e) => Err(e),
    }
}

/// What a resolver answered for a dependency, as an item of the iteration.
pub fn resolved_item(origin: String, endpoint: String, answer: Result<DependencyStatus>) -> (r:
    Result<(String, String, DependencyStatus)>)
    ensures
        match answer {
            Ok(status) => r == Ok::<(String, String, DependencyStatus), Error>(
                (origin, endpoint, status),
            ),
            Err(e) => r == Err::<(String, String, DependencyStatus), Error>(e),
        },
{
    match answer {
        Ok(status) => Ok((origin, endpoint, status)),
        Err(e) => Err(e),
    }
}

/// Walks the dependencies of a ticket, newest first, and resolves each.
pub struct TicketDependencyIterator<R: Remote> {
    path: String,
    inner: SetWalkIterator<R::Record>,
}

impl<R: Remote> TicketDependencyIterator<R> {
    /// The collection that the dependencies come from.
    pub closed spec fn path(&self) -> Seq<char> {
        self.path@
    }

    /// The invariant of the iterator.
    pub closed spec fn wf(&self) -> bool {
        self.inner.wf()
    }

    /// The records of the set of dependencies as the iterator walks them, newest first.
    pub closed spec fn records(&self) -> Seq<RecordView> {
        Seq::new(self.inner.all().len(), |i: int| self.inner.all()[i].0.data())
    }

    /// The entries of the set of dependencies as the iterator walks them.
    pub closed spec fn entries(&self) -> Seq<Entry> {
        entries_of(self.inner.all())
    }

    /// How many records the iterator has read.
    pub closed spec fn position(&self) -> int {
        self.inner.position()
    }

    /// Resolves the next dependency that the ticket has now: the one at the first
    /// current position that is still to be read. Returns `None` when none is left. A
    /// dependency that cannot be resolved is an item of its own, and the iteration
    /// goes on behind it.
    pub fn next<D: DependencyResolver>(&mut self, workspace: &Workspace<R>, resolver: &D) -> (r:
        Option<Result<(String, String, DependencyStatus)>>)
        requires
            old(self).wf(),
            workspace.wf(),
        ensures
            final(self).wf(),
            final(self).path() == old(self).path(),
            final(self).records() == old(self).records(),
            final(self).entries() == old(self).entries(),
            old(self).position() <= final(self).position() <= old(self).records().len(),
            forall|j: int|
                old(self).position() <= j < final(self).position() - 1 ==> !is_current(
                    old(self).entries(),
                    j,
                ),
            match r {
                None => {
                    &&& final(self).position() == old(self).records().len()
                    &&& final(self).position() > old(self).position() ==> !is_current(
                        old(self).entries(),
                        final(self).position() - 1,
                    )
                },
                Some(item) => {
                    &&& old(self).position() < final(self).position()
                    &&& is_current(old(self).entries(), final(self).position() - 1)
                    &&& resolved_as(
                        workspace.state(),
                        old(self).path(),
                        old(self).records()[final(self).position() - 1].message,
                        item,
                    )
                },
            },
    {
        let record = match self.inner.next() {
            Some(record) => record,
            None => {
                return None;
            },
        };
        let message = record.message();
        let (origin, endpoint) = match split_once(message.as_str(), '@') {
            Some(parts) => parts,
            None => {
                return Some(Err(Error::Malformed(self.path.clone())));
            },
        };
        if same_text(origin.as_str(), "_") {
            match resolve_local(workspace, endpoint.as_str()) {
                Ok(status) => Some(Ok((origin, endpoint, status))),
                Err(e) => Some(Err(e)),
            }
        } else {
            let answer = resolver.status(origin.as_str(), endpoint.as_str());
            Some(resolved_item(origin, endpoint, answer))
        }
    }
}

impl Ticket {
    /// An iterator over the dependencies that the ticket has now, newest first, that
    /// resolves the status of each.
    pub fn resolve_dependencies<R: Remote>(&self, workspace: &Workspace<R>) -> (r: Result<
        TicketDependencyIterator<R>,
    >)
        requires
            self.wf(),
            workspace.wf(),
        ensures
            workspace.state().reliable ==> (r is Ok <==> is_set_log(
                workspace.state().log(dependencies_path(self@)),
            )),
            workspace.state().reliable && r is Err ==> r matches Err(Error::Malformed(_)),
            r matches Ok(it) ==> {
                let log = workspace.state().log(dependencies_path(self@));
                &&& is_set_log(log)
                &&& it.wf()
                &&& it.path() == dependencies_path(self@)
                &&& it.position() == 0
                &&& it.records() == log
                &&& it.entries() == set_entries(log)
            },
    {
        let path = join2(self.path.as_str(), "/dependencies");
        let inner = match workspace.remote.walk_set_present(path.as_str()) {
            Ok(inner) => inner,
            Err(e) => {
                return Err(e);
            },
        };
        let it = TicketDependencyIterator { path, inner };
        proof {
            assert(it.records() =~= workspace.state().log(dependencies_path(self@)));
        }
        Ok(it)
    }
}

} // verus!
