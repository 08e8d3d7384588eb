//! Projects: named parts of a workspace that own tickets.

use vstd::prelude::*;
use crate::error::{Error, ErrorView, Result};
use crate::record::{is_set_log, Record, RecordView, SetOperation};
use crate::remote::{found_as, same_logs, same_setup, set_entries, Remote};
use crate::set::{is_member, with_add};
use crate::text::{decimal, join2, parse_u64, parse_u64_spec, u64_to_string};
use crate::ticket::{ticket_handle, Ticket, TicketView};
use crate::workspace::{
    append_to, is_latest, plainly_appended, projects_path, valid_project_slug, Workspace,
};

verus! {

/// Where the collections that describe the project `slug` begin.
pub open spec fn meta_path_of(slug: Seq<char>) -> Seq<char> {
    "meta/project/"@ + slug
}

/// Where the collections that the project `slug` owns begin.
pub open spec fn path_of(slug: Seq<char>) -> Seq<char> {
    "project/"@ + slug
}

/// The collection that holds the name of the project `slug`.
pub open spec fn project_name_path(slug: Seq<char>) -> Seq<char> {
    meta_path_of(slug) + "/name"@
}

/// The collection that holds the description of the project `slug`.
pub open spec fn project_description_path(slug: Seq<char>) -> Seq<char> {
    meta_path_of(slug) + "/description"@
}

/// The collection that holds the ticket counter of the project `slug`.
pub open spec fn counter_path(slug: Seq<char>) -> Seq<char> {
    meta_path_of(slug) + "/ticket_counter"@
}

/// The collection that holds the parent of the project `slug`.
pub open spec fn parent_path(slug: Seq<char>) -> Seq<char> {
    meta_path_of(slug) + "/parent"@
}

/// The set of the ticket ids of the project `slug`, in decimal.
pub open spec fn tickets_path(slug: Seq<char>) -> Seq<char> {
    path_of(slug) + "/tickets"@
}

/// The number that a ticket counter stands at: 0 for an empty log, else the number that
/// the newest record writes, or `None` where it writes none.
pub open spec fn counter_value(log: Seq<RecordView>) -> Option<u64> {
    if log.len() == 0 {
        Some(0)
    } else {
        parse_u64_spec(log[0].message)
    }
}

/// Whether `after` is the counter log `before` advanced to `id`.
pub open spec fn counter_advanced(before: Seq<RecordView>, after: Seq<RecordView>, id: u64) -> bool {
    &&& after.len() == before.len() + 1
    &&& after.skip(1) == before
    &&& after[0].message == decimal(id as nat)
    &&& after[0].op is None
}

/// Whether `after` is the set log `before` with one record that adds `m` at its head.
pub open spec fn member_added(before: Seq<RecordView>, after: Seq<RecordView>, m: Seq<char>) -> bool {
    &&& after.len() == before.len() + 1
    &&& after.skip(1) == before
    &&& after[0].message == m
    &&& after[0].op == Some(SetOperation::Add)
    &&& set_entries(after) == with_add(set_entries(before), m)
}

/// A counter that was advanced to a number stands at that number.
pub proof fn lemma_counter_advanced(before: Seq<RecordView>, after: Seq<RecordView>, id: u64)
    requires
        counter_advanced(before, after, id),
    ensures
        counter_value(after) == Some(id),
{
    crate::text::lemma_parse_decimal(id);
}

/// Ticket numbers only grow: whether creating a ticket succeeded or failed, the counter
/// stands no lower than before, and strictly higher after a success. The first number
/// that a project gives out is 1, the number after the 0 of an empty counter.
pub proof fn lemma_ticket_numbers_grow(before: Seq<RecordView>, after: Seq<RecordView>, n: u64)
    requires
        counter_value(before) == Some(n),
        n < u64::MAX,
        after == before || counter_advanced(before, after, (n + 1) as u64),
    ensures
        counter_value(after) matches Some(m) && n <= m <= n + 1,
        counter_advanced(before, after, (n + 1) as u64) ==> counter_value(after) == Some(
            (n + 1) as u64,
        ),
        counter_value(Seq::<RecordView>::empty()) == Some(0u64),
{
    if counter_advanced(before, after, (n + 1) as u64) {
        lemma_counter_advanced(before, after, (n + 1) as u64);
    }
}

/// Whether `logs` are the states of one ticket counter over a run of attempts to create
/// a ticket, and `ids` the numbers that the attempts gave out: `Some` for a ticket that
/// was created, `None` for an attempt that failed. A created ticket has the number after
/// the one the counter stood at and leaves the counter there; a failed attempt leaves
/// the counter as it was or spends the next number.
pub open spec fn is_ticket_run(logs: Seq<Seq<RecordView>>, ids: Seq<Option<u64>>) -> bool {
    &&& logs.len() == ids.len() + 1
    &&& forall|i: int|
        0 <= i < ids.len() ==> match #[trigger] ids[i] {
            Some(id) => counter_value(logs[i]) matches Some(n) && n < u64::MAX && id == n + 1
                && counter_advanced(logs[i], logs[i + 1], id),
            None => logs[i + 1] == logs[i] || (counter_value(logs[i]) matches Some(n) && n
                < u64::MAX && counter_advanced(logs[i], logs[i + 1], (n + 1) as u64)),
        }
}

proof fn lemma_run_counter(logs: Seq<Seq<RecordView>>, ids: Seq<Option<u64>>, i: int, k: int)
    requires
        is_ticket_run(logs, ids),
        counter_value(logs[0]) is Some,
        0 <= i <= k <= ids.len(),
    ensures
        counter_value(logs[i]) is Some,
        counter_value(logs[k]) is Some,
        counter_value(logs[i])->0 <= counter_value(logs[k])->0,
        counter_value(logs[k])->0 <= counter_value(logs[0])->0 + k,
    decreases k,
{
    if k > 0 {
        if i < k {
            lemma_run_counter(logs, ids, i, k - 1);
        } else {
            lemma_run_counter(logs, ids, 0, k - 1);
        }
        lemma_run_counter(logs, ids, 0, k - 1);
        let n = counter_value(logs[k - 1])->0;
        match ids[k - 1] {
            Some(id) => {
                lemma_counter_advanced(logs[k - 1], logs[k], id);
            },
            None => {
                if logs[k] != logs[k - 1] {
                    lemma_counter_advanced(logs[k - 1], logs[k], (n + 1) as u64);
                }
            },
        }
    }
}

/// The tickets of one project get strictly increasing numbers, whatever attempts fail
/// between them. A project whose counter is empty gives out numbers from 1 up to the
/// number of attempts at most, and 1 to the first ticket if the first attempt creates
/// it.
pub proof fn lemma_ticket_numbers_increase(
    logs: Seq<Seq<RecordView>>,
    ids: Seq<Option<u64>>,
    i: int,
    j: int,
)
    requires
        is_ticket_run(logs, ids),
        counter_value(logs[0]) is Some,
        0 <= i < j < ids.len(),
        ids[i] is Some,
        ids[j] is Some,
    ensures
        ids[i]->0 < ids[j]->0,
        counter_value(logs[0])->0 < ids[i]->0,
        ids[j]->0 <= counter_value(logs[0])->0 + ids.len(),
        ids[j]->0 <= counter_value(logs[ids.len() as int])->0,
        logs[0].len() == 0 && i == 0 ==> ids[i]->0 == 1,
{
    lemma_run_counter(logs, ids, 0, i);
    lemma_run_counter(logs, ids, i + 1, j);
    lemma_run_counter(logs, ids, j + 1, ids.len() as int);
    lemma_run_counter(logs, ids, 0, j);
    lemma_counter_advanced(logs[i], logs[i + 1], ids[i]->0);
    lemma_counter_advanced(logs[j], logs[j + 1], ids[j]->0);
}

/// The collections of a project differ from one another and from the set of projects.
pub proof fn lemma_project_paths_differ(slug: Seq<char>)
    ensures
        counter_path(slug) != tickets_path(slug),
        parent_path(slug) != projects_path(),
        meta_path_of(slug)[0] == 'm',
        path_of(slug)[0] == 'p',
{
    reveal_strlit("meta/project/");
    reveal_strlit("project/");
    reveal_strlit("meta/projects");
    assert(counter_path(slug)[0] == 'm');
    assert(tickets_path(slug)[0] == 'p');
    assert(parent_path(slug)[12] == '/');
    assert(projects_path()[12] == 's');
}

/// A handle on one project of a workspace.
pub struct Project {
    slug: String,
    meta_path: String,
    path: String,
}

impl View for Project {
    type V = Seq<char>;

    closed spec fn view(&self) -> Seq<char> {
        self.slug@
    }
}

/// The handle on the project `slug`.
pub(crate) fn project_handle(slug: &str) -> (p: Project)
    ensures
        p.wf(),
        p@ == slug@,
{
    Project {
        slug: String::from_str(slug),
        meta_path: join2("meta/project/", slug),
        path: join2("project/", slug),
    }
}

impl Project {
    /// The invariant of the handle: its paths are those of its slug.
    pub closed spec fn wf(&self) -> bool {
        &&& self.meta_path@ == meta_path_of(self.slug@)
        &&& self.path@ == path_of(self.slug@)
    }

    /// The slug of the project.
    pub fn slug(&self) -> (r: &str)
        ensures
            r@ == self@,
    {
        self.slug.as_str()
    }

    /// The record that holds the name of the project.
    pub fn name<R: Remote>(&self, workspace: &Workspace<R>) -> (r: Result<Option<R::Record>>)
        requires
            self.wf(),
            workspace.wf(),
        ensures
            workspace.state().reliable ==> r is Ok,
            r matches Ok(found) ==> is_latest(workspace.state().log(project_name_path(self@)), found),
    {
        let path = join2(self.meta_path.as_str(), "/name");
        workspace.remote.latest(path.as_str())
    }

    /// Names the project.
    pub fn set_name<R: Remote>(&self, workspace: &mut Workspace<R>, name: &str) -> (r: Result<
        R::Record,
    >)
        requires
            self.wf(),
            old(workspace).wf(),
        ensures
            final(workspace).wf(),
            same_setup(old(workspace).state(), final(workspace).state()),
            old(workspace).state().reliable ==> r is Ok,
            match r {
                Ok(x) => plainly_appended(
                    old(workspace).state(),
                    final(workspace).state(),
                    project_name_path(self@),
                    x.data(),
                    name@,
                ),
                Err(_) => same_logs(old(workspace).state(), final(workspace).state()),
            },
    {
        let path = join2(self.meta_path.as_str(), "/name");
        append_to(&mut workspace.remote, path.as_str(), name)
    }

    /// The record that holds the description of the project.
    pub fn description<R: Remote>(&self, workspace: &Workspace<R>) -> (r: Result<
        Option<R::Record>,
    >)
        requires
            self.wf(),
            workspace.wf(),
        ensures
            workspace.state().reliable ==> r is Ok,
            r matches Ok(found) ==> is_latest(
                workspace.state().log(project_description_path(self@)),
                found,
            ),
    {
        let path = join2(self.meta_path.as_str(), "/description");
        workspace.remote.latest(path.as_str())
    }

    /// Describes the project.
    pub fn set_description<R: Remote>(&self, workspace: &mut Workspace<R>, description: &str) -> (r:
        Result<R::Record>)
        requires
            self.wf(),
            old(workspace).wf(),
        ensures
            final(workspace).wf(),
            same_setup(old(workspace).state(), final(workspace).state()),
            old(workspace).state().reliable ==> r is Ok,
            match r {
                Ok(x) => plainly_appended(
                    old(workspace).state(),
                    final(workspace).state(),
                    project_description_path(self@),
                    x.data(),
                    description@,
                ),
                Err(_) => same_logs(old(workspace).state(), final(workspace).state()),
            },
    {
        let path = join2(self.meta_path.as_str(), "/description");
        append_to(&mut workspace.remote, path.as_str(), description)
    }

    /// Creates a ticket: advances the counter of the project by one, then adds the new
    /// number to the set of its tickets.
    ///
    /// The counter is advanced first. Where the second step fails the number is spent:
    /// the counter stays advanced, no ticket has the number, and the next call takes
    /// the number after it. A number that is already in the set of tickets shows that
    /// the counter went backwards at some time, and is reported as malformed data.
    pub fn create_ticket<R: Remote>(&self, workspace: &mut Workspace<R>) -> (r: Result<Ticket>)
        requires
            self.wf(),
            old(workspace).wf(),
        ensures
            final(workspace).wf(),
            same_setup(old(workspace).state(), final(workspace).state()),
            r is Ok ==> final(workspace).state().blobs == old(workspace).state().blobs,
            forall|d: Seq<char>|
                d != counter_path(self@) && d != tickets_path(self@) ==> #[trigger] final(workspace).state().log(d) == old(workspace).state().log(d),
            match counter_value(old(workspace).state().log(counter_path(self@))) {
                Some(n) => {
                    let before = old(workspace).state();
                    let after = final(workspace).state();
                    let counter = counter_path(self@);
                    let tickets = tickets_path(self@);
                    match r {
                        Ok(t) => {
                            &&& n < u64::MAX
                            &&& t.wf()
                            &&& t@ == (TicketView { project: self@, id: (n + 1) as u64 })
                            &&& counter_advanced(before.log(counter), after.log(counter), (n + 1) as u64)
                            &&& is_set_log(before.log(tickets))
                            &&& !is_member(set_entries(before.log(tickets)), decimal((n + 1) as nat))
                            &&& member_added(
                                before.log(tickets),
                                after.log(tickets),
                                decimal((n + 1) as nat),
                            )
                        },
                        Err(e) => {
                            &&& after.log(tickets) == before.log(tickets)
                            &&& if n == u64::MAX {
                                same_logs(before, after) && (before.reliable ==> e@
                                    == ErrorView::Malformed(counter))
                            } else {
                                &&& after.log(counter) == before.log(counter) || counter_advanced(
                                    before.log(counter),
                                    after.log(counter),
                                    (n + 1) as u64,
                                )
                                &&& before.reliable ==> {
                                    &&& counter_advanced(
                                        before.log(counter),
                                        after.log(counter),
                                        (n + 1) as u64,
                                    )
                                    &&& if is_set_log(before.log(tickets)) {
                                        &&& is_member(
                                            set_entries(before.log(tickets)),
                                            decimal((n + 1) as nat),
                                        )
                                        &&& e@ == ErrorView::Malformed(tickets)
                                    } else {
                                        e@ is Malformed
                                    }
                                }
                            }
                        },
                    }
                },
                None => {
                    &&& same_logs(old(workspace).state(), final(workspace).state())
                    &&& (r matches Err(e) && (old(workspace).state().reliable ==> e@
                        == ErrorView::Malformed(counter_path(self@))))
                },
            },
    {
        let ghost before = workspace.state();
        proof {
            lemma_project_paths_differ(self@);
        }
        let counter = join2(self.meta_path.as_str(), "/ticket_counter");
        let latest = match workspace.remote.latest(counter.as_str()) {
            Ok(latest) => latest,
            Err(e) => {
                return Err(e);
            },
        };
        let count: u64 = match latest {
            Some(record) => {
                let message = record.message();
                match parse_u64(message.as_str()) {
                    Some(n) => n,
                    None => {
                        return Err(Error::Malformed(counter));
                    },
                }
            },
            None => 0,
        };
        if count == u64::MAX {
            return Err(Error::Malformed(counter));
        }
        let ticket_id: u64 = count + 1;
        let number = u64_to_string(ticket_id);
        match append_to(&mut workspace.remote, counter.as_str(), number.as_str()) {
            Ok(_) => {},
            Err(e) => {
                return Err(e);
            },
        }
        let ghost middle = workspace.state();
        let tickets = join2(self.path.as_str(), "/tickets");
        proof {
            assert(counter@ == counter_path(self@));
            assert(tickets@ == tickets_path(self@));
            assert(middle.log(counter@).skip(1) =~= before.log(counter@));
            assert(middle.log(tickets@) == before.log(tickets@));
        }
        let outcome = workspace.remote.set_add(tickets.as_str(), number.as_str());
        proof {
            let after = workspace.state();
            assert(after.log(counter@) == middle.log(counter@));
            assert forall|d: Seq<char>|
                d != counter_path(self@) && d != tickets_path(self@) implies #[trigger] after.log(d)
                == before.log(d) by {
                assert(after.log(d) == middle.log(d));
                assert(middle.log(d) == before.log(d));
            }
        }
        match outcome {
            Ok(Ok(_)) => {
                proof {
                    let after = workspace.state();
                    assert(after.log(tickets@).skip(1) =~= before.log(tickets@));
                }
                Ok(ticket_handle(self.slug.as_str(), ticket_id))
            },
            Ok(Err(_)) => Err(Error::Malformed(tickets)),
            Err(e) => Err(e),
        }
    }

    /// The ticket with the number `id`, if it is in the set of tickets of the project.
    pub fn ticket<R: Remote>(&self, workspace: &Workspace<R>, id: u64) -> (r: Result<Ticket>)
        requires
            self.wf(),
            workspace.wf(),
        ensures
            match r {
                Ok(t) => {
                    &&& t.wf()
                    &&& t@ == (TicketView { project: self@, id })
                    &&& is_set_log(workspace.state().log(tickets_path(self@)))
                    &&& is_member(
                        set_entries(workspace.state().log(tickets_path(self@))),
                        decimal(id as nat),
                    )
                },
                Err(e) => workspace.state().reliable ==> {
                    if is_set_log(workspace.state().log(tickets_path(self@))) {
                        &&& !is_member(
                            set_entries(workspace.state().log(tickets_path(self@))),
                            decimal(id as nat),
                        )
                        &&& e@ == ErrorView::NotFound(tickets_path(self@), decimal(id as nat))
                    } else {
                        e@ is Malformed
                    }
                },
            },
    {
        let tickets_path = join2(self.path.as_str(), "/tickets");
        let number = u64_to_string(id);
        let found = match workspace.remote.set_find(tickets_path.as_str(), number.as_str()) {
            Ok(found) => found,
            Err(e) => {
                return Err(e);
            },
        };
        proof {
            crate::remote::lemma_found(workspace.state().log(tickets_path@), number@, found);
        }
        match found {
            Ok(_) => Ok(ticket_handle(self.slug.as_str(), id)),
            Err(_) => Err(Error::NotFound(tickets_path, number)),
        }
    }

    /// Creates the project `slug` as a child of this one: it joins the set of projects
    /// of the workspace, then a record that names this project is committed as its
    /// parent. `Ok(Err(record))`: the project exists, added by `record`, and nothing
    /// changed.
    pub fn create_project<R: Remote>(&self, workspace: &mut Workspace<R>, slug: &str) -> (r: Result<
        core::result::Result<Project, R::Record>,
    >)
        requires
            self.wf(),
            old(workspace).wf(),
        ensures
            final(workspace).wf(),
            same_setup(old(workspace).state(), final(workspace).state()),
            forall|d: Seq<char>|
                d != projects_path() && d != parent_path(slug@) ==> #[trigger] final(workspace).state().log(d) == old(workspace).state().log(d),
            !valid_project_slug(slug@) ==> same_logs(
                old(workspace).state(),
                final(workspace).state(),
            ) && (r matches Err(e) && e@ == ErrorView::MalformedProjectSlug(slug@)),
            old(workspace).state().reliable && valid_project_slug(slug@) ==> (r is Ok <==> is_set_log(
                old(workspace).state().log(projects_path()),
            )),
            match r {
                Ok(Ok(p)) => {
                    let before = old(workspace).state();
                    let after = final(workspace).state();
                    &&& valid_project_slug(slug@)
                    &&& p.wf()
                    &&& p@ == slug@
                    &&& is_set_log(before.log(projects_path()))
                    &&& !is_member(set_entries(before.log(projects_path())), slug@)
                    &&& member_added(before.log(projects_path()), after.log(projects_path()), slug@)
                    &&& after.log(parent_path(slug@)).len() == before.log(parent_path(slug@)).len() + 1
                    &&& after.log(parent_path(slug@)).skip(1) == before.log(parent_path(slug@))
                    &&& after.log(parent_path(slug@))[0].message == self@
                },
                Ok(Err(existing)) => {
                    &&& valid_project_slug(slug@)
                    &&& same_logs(old(workspace).state(), final(workspace).state())
                    &&& is_member(set_entries(old(workspace).state().log(projects_path())), slug@)
                    &&& found_as(
                        old(workspace).state().log(projects_path()),
                        slug@,
                        Ok::<R::Record, Option<R::Record>>(existing),
                    )
                },
                Err(_) => {
                    let before = old(workspace).state();
                    let after = final(workspace).state();
                    &&& after.log(parent_path(slug@)) == before.log(parent_path(slug@))
                    &&& after.log(projects_path()) == before.log(projects_path()) || member_added(
                        before.log(projects_path()),
                        after.log(projects_path()),
                        slug@,
                    )
                },
            },
    {
        let ghost before = workspace.state();
        proof {
            lemma_project_paths_differ(slug@);
        }
        let project = match workspace.create_project(slug) {
            Ok(Ok(project)) => project,
            Ok(Err(record)) => {
                return Ok(Err(record));
            },
            Err(e) => {
                return Err(e);
            },
        };
        let ghost middle = workspace.state();
        let path = join2(project.meta_path.as_str(), "/parent");
        match append_to(&mut workspace.remote, path.as_str(), self.slug.as_str()) {
            Ok(_) => {
                proof {
                    let after = workspace.state();
                    assert(after.log(path@).skip(1) =~= before.log(path@));
                }
                Ok(Ok(project))
            },
            Err(e) => Err(e),
        }
    }

    /// The parent of the project: the project that the newest parent record names, or
    /// `None` where there is no such record.
    pub fn parent<R: Remote>(&self, workspace: &Workspace<R>) -> (r: Result<Option<Project>>)
        requires
            self.wf(),
            workspace.wf(),
        ensures
            match r {
                Ok(None) => workspace.state().log(parent_path(self@)).len() == 0,
                Ok(Some(p)) => {
                    let log = workspace.state().log(parent_path(self@));
                    &&& log.len() > 0
                    &&& p.wf()
                    &&& p@ == log[0].message
                    &&& is_member(set_entries(workspace.state().log(projects_path())), p@)
                },
                Err(e) => workspace.state().reliable ==> {
                    let log = workspace.state().log(parent_path(self@));
                    &&& log.len() > 0
                    &&& if is_set_log(workspace.state().log(projects_path())) {
                        &&& !is_member(
                            set_entries(workspace.state().log(projects_path())),
                            log[0].message,
                        )
                        &&& e@ == ErrorView::NotFound(projects_path(), log[0].message)
                    } else {
                        e@ is Malformed
                    }
                },
            },
    {
        let path = join2(self.meta_path.as_str(), "/parent");
        let latest = match workspace.remote.latest(path.as_str()) {
            Ok(latest) => latest,
            Err(e) => {
                return Err(e);
            },
        };
        match latest {
            None => Ok(None),
            Some(record) => {
                let slug = record.message();
                match workspace.project(slug.as_str()) {
                    Ok(p) => Ok(Some(p)),
                    Err(e) => Err(e),
                }
            },
        }
    }
}

} // verus!
