//! The workspace: the root entity, bound to one backend.

use vstd::prelude::*;
use crate::error::{Error, ErrorView, Result};
use crate::project::{project_handle, tickets_path, Project};
use crate::record::{head_attachments, is_set_log, Record, RecordView, SetOperation};
use crate::remote::{
    appended, found_as, same_logs, same_setup, set_entries, Remote, StoreView,
};
use crate::set::{is_member, with_add, with_del};
use crate::text::{
    contains_char, contains_whitespace, decimal, has_whitespace, parse_u64, parse_u64_spec,
    rsplit_once, same_text, split_last,
};
use crate::ticket::Ticket;

verus! {

/// The collection that holds the name of the workspace.
pub open spec fn workspace_name_path() -> Seq<char> {
    "meta/workspace/name"@
}

/// The collection that holds the description of the workspace.
pub open spec fn workspace_description_path() -> Seq<char> {
    "meta/workspace/description"@
}

/// The set of the slugs of the projects of the workspace.
pub open spec fn projects_path() -> Seq<char> {
    "meta/projects"@
}

/// Whether `slug` can name a project: it holds neither `/` nor white space.
pub open spec fn valid_project_slug(slug: Seq<char>) -> bool {
    !slug.contains('/') && !has_whitespace(slug)
}

/// The project slug and the ticket number that a ticket slug names: what stands before
/// its last `-`, and the number that what stands behind it writes.
pub open spec fn slug_parts(slug: Seq<char>) -> Option<(Seq<char>, u64)> {
    match split_last(slug, '-') {
        Some((project, number)) => match parse_u64_spec(number) {
            Some(id) => Some((project, id)),
            None => None,
        },
        None => None,
    }
}

/// Whether `store` has the ticket `id` in the project `project`: the project is in the
/// set of projects, and the number in the set of its tickets.
pub open spec fn has_ticket(store: StoreView, project: Seq<char>, id: u64) -> bool {
    &&& is_set_log(store.log(projects_path()))
    &&& is_member(set_entries(store.log(projects_path())), project)
    &&& is_set_log(store.log(tickets_path(project)))
    &&& is_member(set_entries(store.log(tickets_path(project))), decimal(id as nat))
}

/// Whether `found` is the newest record of `log`, or `None` for an empty log.
pub open spec fn is_latest<T: Record>(log: Seq<RecordView>, found: Option<T>) -> bool {
    match found {
        Some(x) => log.len() > 0 && x.data() == log[0],
        None => log.len() == 0,
    }
}

/// Whether `after` is `before` with the plain record `x`, carrying `message`, placed at
/// the head of `c`: no set operation, attachments and blobs as before.
pub open spec fn plainly_appended(
    before: StoreView,
    after: StoreView,
    c: Seq<char>,
    x: RecordView,
    message: Seq<char>,
) -> bool {
    &&& appended(before, after, c, x)
    &&& x.message == message
    &&& x.op is None
    &&& x.attachments == head_attachments(before.log(c))
    &&& after.blobs == before.blobs
}

/// Whether `after` is `before` with one record that adds `m` placed at the head of the
/// set `c`, and nothing else changed.
pub open spec fn set_grown(before: StoreView, after: StoreView, c: Seq<char>, m: Seq<char>) -> bool {
    &&& after.log(c).len() == before.log(c).len() + 1
    &&& after.log(c).skip(1) == before.log(c)
    &&& after.log(c)[0].message == m
    &&& after.log(c)[0].op == Some(SetOperation::Add)
    &&& set_entries(after.log(c)) == with_add(set_entries(before.log(c)), m)
    &&& forall|d: Seq<char>| d != c ==> #[trigger] after.log(d) == before.log(d)
    &&& after.blobs == before.blobs
}

/// Commits a plain record with `message` to the collection `path`.
pub fn append_to<R: Remote>(remote: &mut R, path: &str, message: &str) -> (r: Result<R::Record>)
    requires
        old(remote).wf(),
    ensures
        final(remote).wf(),
        same_setup(old(remote).state(), final(remote).state()),
        old(remote).state().reliable ==> r is Ok,
        match r {
            Ok(x) => plainly_appended(
                old(remote).state(),
                final(remote).state(),
                path@,
                x.data(),
                message@,
            ),
            Err(_) => same_logs(old(remote).state(), final(remote).state()),
        },
{
    let builder = remote.record_builder(path);
    proof {
        crate::memory::lemma_no_changes(remote.state(), remote.state().log(path@));
    }
    remote.commit(builder, message)
}

/// Checks that `slug` can name a project.
pub fn validate_project_slug(slug: &str) -> (r: Result<()>)
    ensures
        match r {
            Ok(_) => valid_project_slug(slug@),
            Err(e) => !valid_project_slug(slug@) && e@ == ErrorView::MalformedProjectSlug(slug@),
        },
{
    if contains_char(slug, '/') || contains_whitespace(slug) {
        return Err(Error::MalformedProjectSlug(String::from_str(slug)));
    }
    Ok(())
}

/// A workspace: everything that one backend holds, read as projects and tickets.
pub struct Workspace<R: Remote> {
    /// The backend of the workspace.
    pub remote: R,
}

impl<R: Remote> Workspace<R> {
    /// The invariant of the workspace: that of its backend.
    pub open spec fn wf(&self) -> bool {
        self.remote.wf()
    }

    /// What the backend holds.
    pub open spec fn state(&self) -> StoreView {
        self.remote.state()
    }

    /// Opens a workspace on `remote`.
    pub fn open(remote: R) -> (w: Self)
        ensures
            w.remote == remote,
    {
        Workspace { remote }
    }

    /// The backend of the workspace.
    pub fn remote(&self) -> (r: &R)
        ensures
            *r == self.remote,
    {
        &self.remote
    }

    /// The record that holds the name of the workspace.
    pub fn name(&self) -> (r: Result<Option<R::Record>>)
        requires
            self.wf(),
        ensures
            self.state().reliable ==> r is Ok,
            r matches Ok(found) ==> is_latest(self.state().log(workspace_name_path()), found),
    {
        self.remote.latest("meta/workspace/name")
    }

    /// Names the workspace. A record is committed even where the name is the one the
    /// workspace has.
    pub fn set_name(&mut self, name: &str) -> (r: Result<R::Record>)
        requires
            old(self).wf(),
        ensures
            final(self).wf(),
            same_setup(old(self).state(), final(self).state()),
            old(self).state().reliable ==> r is Ok,
            match r {
                Ok(x) => plainly_appended(
                    old(self).state(),
                    final(self).state(),
                    workspace_name_path(),
                    x.data(),
                    name@,
                ),
                Err(_) => same_logs(old(self).state(), final(self).state()),
            },
    {
        append_to(&mut self.remote, "meta/workspace/name", name)
    }

    /// Names the workspace unless it has the name already: where the newest name record
    /// says `name`, that record is returned and nothing is committed.
    pub fn set_name_unless_same(&mut self, name: &str) -> (r: Result<R::Record>)
        requires
            old(self).wf(),
        ensures
            final(self).wf(),
            same_setup(old(self).state(), final(self).state()),
            old(self).state().reliable ==> r is Ok,
            match r {
                Ok(x) => {
                    let log = old(self).state().log(workspace_name_path());
                    if log.len() > 0 && log[0].message == name@ {
                        x.data() == log[0] && same_logs(old(self).state(), final(self).state())
                    } else {
                        plainly_appended(
                            old(self).state(),
                            final(self).state(),
                            workspace_name_path(),
                            x.data(),
                            name@,
                        )
                    }
                },
                Err(_) => same_logs(old(self).state(), final(self).state()),
            },
    {
        let latest = match self.name() {
            Ok(latest) => latest,
            Err(e) => {
                return Err(e);
            },
        };
        match latest {
            Some(record) => {
                let message = record.message();
                if same_text(message.as_str(), name) {
                    return Ok(record);
                }
            },
            None => {},
        }
        self.set_name(name)
    }

    /// The record that holds the description of the workspace.
    pub fn description(&self) -> (r: Result<Option<R::Record>>)
        requires
            self.wf(),
        ensures
            self.state().reliable ==> r is Ok,
            r matches Ok(found) ==> is_latest(
                self.state().log(workspace_description_path()),
                found,
            ),
    {
        self.remote.latest("meta/workspace/description")
    }

    /// Describes the workspace. A record is committed even where the description is
    /// the one the workspace has.
    pub fn set_description(&mut self, description: &str) -> (r: Result<R::Record>)
        requires
            old(self).wf(),
        ensures
            final(self).wf(),
            same_setup(old(self).state(), final(self).state()),
            old(self).state().reliable ==> r is Ok,
            match r {
                Ok(x) => plainly_appended(
                    old(self).state(),
                    final(self).state(),
                    workspace_description_path(),
                    x.data(),
                    description@,
                ),
                Err(_) => same_logs(old(self).state(), final(self).state()),
            },
    {
        append_to(&mut self.remote, "meta/workspace/description", description)
    }

    /// The project `slug`, if it is in the set of projects.
    pub fn project(&self, slug: &str) -> (r: Result<Project>)
        requires
            self.wf(),
        ensures
            match r {
                Ok(p) => {
                    &&& p.wf()
                    &&& p@ == slug@
                    &&& is_set_log(self.state().log(projects_path()))
                    &&& is_member(set_entries(self.state().log(projects_path())), slug@)
                },
                Err(e) => self.state().reliable ==> {
                    if is_set_log(self.state().log(projects_path())) {
                        &&& !is_member(set_entries(self.state().log(projects_path())), slug@)
                        &&& e@ == ErrorView::NotFound(projects_path(), slug@)
                    } else {
                        e@ is Malformed
                    }
                },
            },
    {
        let found = match self.remote.set_find("meta/projects", slug) {
            Ok(found) => found,
            Err(e) => {
                return Err(e);
            },
        };
        proof {
            crate::remote::lemma_found(self.state().log(projects_path()), slug@, found);
        }
        match found {
            Ok(_) => Ok(project_handle(slug)),
            Err(_) => Err(
                Error::NotFound(String::from_str("meta/projects"), String::from_str(slug)),
            ),
        }
    }

    /// Creates the project `slug`. `Ok(Err(record))`: the project exists, added by
    /// `record`, and nothing changed.
    pub fn create_project(&mut self, slug: &str) -> (r: Result<
        core::result::Result<Project, R::Record>,
    >)
        requires
            old(self).wf(),
        ensures
            final(self).wf(),
            same_setup(old(self).state(), final(self).state()),
            !valid_project_slug(slug@) ==> (r matches Err(e) && e@
                == ErrorView::MalformedProjectSlug(slug@)),
            old(self).state().reliable && valid_project_slug(slug@) ==> (r is Ok <==> is_set_log(
                old(self).state().log(projects_path()),
            )),
            match r {
                Ok(Ok(p)) => {
                    &&& valid_project_slug(slug@)
                    &&& p.wf()
                    &&& p@ == slug@
                    &&& is_set_log(old(self).state().log(projects_path()))
                    &&& !is_member(set_entries(old(self).state().log(projects_path())), slug@)
                    &&& set_grown(old(self).state(), final(self).state(), projects_path(), slug@)
                },
                Ok(Err(existing)) => {
                    &&& valid_project_slug(slug@)
                    &&& same_logs(old(self).state(), final(self).state())
                    &&& is_set_log(old(self).state().log(projects_path()))
                    &&& is_member(set_entries(old(self).state().log(projects_path())), slug@)
                    &&& found_as(
                        old(self).state().log(projects_path()),
                        slug@,
                        Ok::<R::Record, Option<R::Record>>(existing),
                    )
                },
                Err(_) => same_logs(old(self).state(), final(self).state()),
            },
    {
        match validate_project_slug(slug) {
            Ok(_) => {},
            Err(e) => {
                return Err(e);
            },
        }
        let ghost before = self.state();
        match self.remote.set_add("meta/projects", slug) {
            Ok(Ok(_)) => {
                proof {
                    let after = self.state();
                    assert(after.log(projects_path()).skip(1) =~= before.log(projects_path()));
                }
                Ok(Ok(project_handle(slug)))
            },
            Ok(Err(record)) => Ok(Err(record)),
            Err(e) => Err(e),
        }
    }

    /// Deletes the project `slug` from the set of projects; its tickets stay, and come
    /// back when the project is created again. `Ok(Ok(record))`: `record` deletes it.
    /// `Ok(Err(tombstone))`: it was no project, and nothing changed; `tombstone` is the
    /// record that had deleted it, if any.
    pub fn delete_project(&mut self, slug: &str) -> (r: Result<
        core::result::Result<R::Record, Option<R::Record>>,
    >)
        requires
            old(self).wf(),
        ensures
            final(self).wf(),
            same_setup(old(self).state(), final(self).state()),
            old(self).state().reliable ==> (r is Ok <==> is_set_log(
                old(self).state().log(projects_path()),
            )),
            match r {
                Ok(Ok(x)) => {
                    &&& is_set_log(old(self).state().log(projects_path()))
                    &&& is_member(set_entries(old(self).state().log(projects_path())), slug@)
                    &&& appended(old(self).state(), final(self).state(), projects_path(), x.data())
                    &&& x.data().message == slug@
                    &&& x.data().op == Some(SetOperation::Del)
                    &&& set_entries(final(self).state().log(projects_path())) == with_del(
                        set_entries(old(self).state().log(projects_path())),
                        slug@,
                    )
                },
                Ok(Err(tombstone)) => {
                    &&& same_logs(old(self).state(), final(self).state())
                    &&& is_set_log(old(self).state().log(projects_path()))
                    &&& !is_member(set_entries(old(self).state().log(projects_path())), slug@)
                    &&& found_as(
                        old(self).state().log(projects_path()),
                        slug@,
                        Err::<R::Record, Option<R::Record>>(tombstone),
                    )
                },
                Err(_) => same_logs(old(self).state(), final(self).state()),
            },
    {
        match self.remote.set_del("meta/projects", slug) {
            Ok(Ok((removed, _))) => Ok(Ok(removed)),
            Ok(Err(record)) => Ok(Err(record)),
            Err(e) => Err(e),
        }
    }
    /// The ticket with the slug `slug`: the slug of a project, `-`, and a number. The
    /// slug is split at its last `-`; the project is looked up first, then the number
    /// is read, then the ticket is looked up in the project.
    pub fn ticket(&self, slug: &str) -> (r: Result<Ticket>)
        requires
            self.wf(),
        ensures
            match r {
                Ok(t) => {
                    &&& t.wf()
                    &&& slug_parts(slug@) == Some((t@.project, t@.id))
                    &&& has_ticket(self.state(), t@.project, t@.id)
                },
                Err(e) => match split_last(slug@, '-') {
                    None => e@ == ErrorView::Malformed(slug@),
                    Some((project, number)) => self.state().reliable ==> {
                        let store = self.state();
                        if !is_set_log(store.log(projects_path())) {
                            e@ is Malformed
                        } else if !is_member(set_entries(store.log(projects_path())), project) {
                            e@ == ErrorView::NotFound(projects_path(), project)
                        } else {
                            match parse_u64_spec(number) {
                                None => e@ == ErrorView::Malformed(slug@),
                                Some(id) => if is_set_log(store.log(tickets_path(project))) {
                                    &&& !is_member(
                                        set_entries(store.log(tickets_path(project))),
                                        decimal(id as nat),
                                    )
                                    &&& e@ == ErrorView::NotFound(
                                        tickets_path(project),
                                        decimal(id as nat),
                                    )
                                } else {
                                    e@ is Malformed
                                },
                            }
                        }
                    },
                },
            },
    {
        let (project_slug, number) = match rsplit_once(slug, '-') {
            Some(parts) => parts,
            None => {
                return Err(Error::Malformed(String::from_str(slug)));
            },
        };
        let project = match self.project(project_slug.as_str()) {
            Ok(project) => project,
            Err(e) => {
                return Err(e);
            },
        };
        let id = match parse_u64(number.as_str()) {
            Some(id) => id,
            None => {
                return Err(Error::Malformed(String::from_str(slug)));
            },
        };
        project.ticket(self, id)
    }
}

} // verus!
