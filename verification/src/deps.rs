//! Dependencies on things outside a ticket, and the origins that know their status.
//!
//! A dependency is a pair of an origin slug and an endpoint. The origin says where the
//! thing lives, the endpoint names it there. The origin `_` is the workspace of the
//! ticket itself; its endpoints are ticket slugs.

use vstd::prelude::*;
use vstd::hash_map::StringHashMap;
use crate::error::{Error, ErrorView, Result};
use crate::remote::Remote;
use crate::text::{contains_char, same_text, split_first, split_once};
use crate::ticket::{local_status, resolve_local, TicketState};
use crate::workspace::Workspace;

verus! {

/// Whether what a ticket depends on is done.
#[derive(Debug, Clone, Copy, PartialEq, Eq, Structural)]
pub enum DependencyStatus {
    /// It is not done yet.
    Pending,
    /// It is done.
    Complete,
}

/// The status that a ticket in a given state has as a dependency.
pub open spec fn status_of(state: TicketState) -> DependencyStatus {
    match state {
        TicketState::Open => DependencyStatus::Pending,
        TicketState::Closed => DependencyStatus::Complete,
    }
}

impl From<TicketState> for DependencyStatus {
    fn from(state: TicketState) -> (r: DependencyStatus) {
        match state {
            TicketState::Open => DependencyStatus::Pending,
            TicketState::Closed => DependencyStatus::Complete,
        }
    }
}

impl vstd::std_specs::convert::FromSpecImpl<TicketState> for DependencyStatus {
    open spec fn obeys_from_spec() -> bool {
        true
    }

    open spec fn from_spec(state: TicketState) -> DependencyStatus {
        status_of(state)
    }
}

/// Resolves the status of a dependency from its origin slug and endpoint.
pub trait DependencyResolver {
    /// The status of `endpoint` at the origin `slug`.
    fn status(&self, slug: &str, endpoint: &str) -> (r: Result<DependencyStatus>);
}

/// A source of dependency statuses. The handle of a dependency at its origin is its
/// endpoint: a text that names it there.
pub trait DependencyOrigin {
    /// The slug of the origin.
    open spec fn name(&self) -> Seq<char> {
        arbitrary()
    }

    /// The slug of the origin. It is not `_` and holds no `@`.
    fn slug(&self) -> (r: &str)
        ensures
            r@ == self.name(),
    ;

    /// Asks the origin for the status of `endpoint`. An origin that fails says why.
    fn status(&self, endpoint: &str) -> (r: core::result::Result<DependencyStatus, String>);
}

/// Whether an origin can be registered under `slug`: the slug is neither `_`, which
/// stands for the workspace itself, nor `minimap`, which is the built-in origin, and it
/// holds no `@`.
pub open spec fn valid_origin_slug(slug: Seq<char>) -> bool {
    slug != "_"@ && slug != "minimap"@ && !slug.contains('@')
}

/// Checks that an origin can be registered under `slug`.
pub fn validate_origin_slug(slug: &str) -> (r: Result<()>)
    ensures
        match r {
            Ok(_) => valid_origin_slug(slug@),
            Err(e) => !valid_origin_slug(slug@) && e@ == ErrorView::MalformedOrigin(slug@),
        },
{
    if same_text(slug, "_") || same_text(slug, "minimap") || contains_char(slug, '@') {
        return Err(Error::MalformedOrigin(String::from_str(slug)));
    }
    Ok(())
}

/// What the registry returns for what an origin answered: its status, or its failure
/// as an origin error.
pub fn origin_answer(answer: core::result::Result<DependencyStatus, String>) -> (r: Result<
    DependencyStatus,
>)
    ensures
        match answer {
            Ok(status) => r == Ok::<DependencyStatus, Error>(status),
            Err(why) => r matches Err(e) && e@ == ErrorView::Origin(why@),
        },
{
    match answer {
        Ok(status) => Ok(status),
        Err(why) => Err(Error::Origin(why)),
    }
}

/// The origins that dependencies can be resolved at, by slug.
#[verifier::reject_recursive_types(O)]
pub struct DependencyRegistry<O: DependencyOrigin> {
    origins: StringHashMap<O>,
}

impl<O: DependencyOrigin> DependencyRegistry<O> {
    /// The registered origins, by slug.
    pub closed spec fn origins(&self) -> Map<Seq<char>, O> {
        self.origins@
    }

    /// A registry that holds the built-in origin for other workspaces, `minimap`, under
    /// the slug `minimap`.
    pub fn new(minimap: O) -> (r: Self)
        ensures
            r.origins() == Map::<Seq<char>, O>::empty().insert("minimap"@, minimap),
    {
        let mut origins = StringHashMap::<O>::new();
        origins.insert(String::from_str("minimap"), minimap);
        DependencyRegistry { origins }
    }

    /// Registers `origin` under its slug, in place of what was registered under it.
    pub fn register(&mut self, origin: O) -> (r: Result<()>)
        ensures
            match r {
                Ok(_) => {
                    &&& valid_origin_slug(origin.name())
                    &&& final(self).origins() == old(self).origins().insert(origin.name(), origin)
                },
                Err(e) => {
                    &&& !valid_origin_slug(origin.name())
                    &&& e@ == ErrorView::MalformedOrigin(origin.name())
                    &&& final(self).origins() == old(self).origins()
                },
            },
    {
        let slug = String::from_str(origin.slug());
        match validate_origin_slug(slug.as_str()) {
            Ok(_) => {},
            Err(e) => {
                return Err(e);
            },
        }
        self.origins.insert(slug, origin);
        Ok(())
    }
}

impl<O: DependencyOrigin> DependencyResolver for DependencyRegistry<O> {
    /// The status of `endpoint` at the origin registered under `slug`. The slug `_` is
    /// never looked up here: a ticket resolves it in its own workspace.
    fn status(&self, slug: &str, endpoint: &str) -> (r: Result<DependencyStatus>)
        ensures
            slug@ == "_"@ ==> (r matches Err(e) && e@ == ErrorView::MalformedOrigin(slug@)),
            slug@ != "_"@ && !self.origins().contains_key(slug@) ==> (r matches Err(e) && e@
                == ErrorView::UnknownOrigin(slug@)),
            slug@ != "_"@ && self.origins().contains_key(slug@) ==> (r matches Err(e) ==> e@
                is Origin),
    {
        if same_text(slug, "_") {
            return Err(Error::MalformedOrigin(String::from_str(slug)));
        }
        match self.origins.get(slug) {
            Some(origin) => origin_answer(origin.status(endpoint)),
            None => Err(Error::UnknownOrigin(String::from_str(slug))),
        }
    }
}

/// The built-in origin `minimap`: tickets of other workspaces.
///
/// Its endpoints are the address of a remote, `@`, and a ticket slug. Resolving one
/// takes a workspace opened on that remote; what is decided here is how the endpoint
/// is read and what the ticket found there means.
pub struct MinimapDependencyOrigin;

impl MinimapDependencyOrigin {
    /// The slug of the origin.
    pub fn slug(&self) -> (r: &'static str)
        ensures
            r@ == "minimap"@,
    {
        "minimap"
    }

    /// Splits an endpoint at its first `@` into the address of the remote and the slug
    /// of the ticket. An endpoint without `@` is malformed.
    pub fn parse_endpoint(&self, endpoint: &str) -> (r: Result<(String, String)>)
        ensures
            match r {
                Ok(parts) => split_first(endpoint@, '@') == Some((parts.0@, parts.1@)),
                Err(e) => split_first(endpoint@, '@') is None && e@
                    == ErrorView::MalformedEndpoint(endpoint@),
            },
    {
        match split_once(endpoint, '@') {
            Some(parts) => Ok(parts),
            None => Err(Error::MalformedEndpoint(String::from_str(endpoint))),
        }
    }

    /// The status of the ticket `ticket_slug` of `workspace`, the workspace opened on
    /// the remote of an endpoint.
    pub fn status_in<R: Remote>(&self, workspace: &Workspace<R>, ticket_slug: &str) -> (r: Result<
        DependencyStatus,
    >)
        requires
            workspace.wf(),
        ensures
            match r {
                Ok(status) => local_status(workspace.state(), ticket_slug@) == Some(status),
                Err(_) => workspace.state().reliable ==> local_status(
                    workspace.state(),
                    ticket_slug@,
                ) is None,
            },
    {
        resolve_local(workspace, ticket_slug)
    }
}

} // verus!
