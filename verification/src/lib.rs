//! Issue-tracking data model kept as named, append-only logs of immutable records.
//!
//! Projects, tickets, comments, attachments, states and dependencies are all read from
//! and written to collections of a backend. The entry point is [`Workspace`], bound to
//! one backend that implements [`Remote`].

pub mod clock;
pub mod deps;
pub mod digest;
pub mod error;
pub mod git;
pub mod memory;
pub mod ordered;
pub mod project;
pub mod record;
pub mod remote;
pub mod set;
pub mod set_laws;
pub mod text;
pub mod ticket;
pub mod workspace;

pub use deps::{
    validate_origin_slug, DependencyOrigin, DependencyRegistry, DependencyResolver,
    DependencyStatus, MinimapDependencyOrigin,
};
pub use error::{Error, Result};
pub use memory::{
    MemoryIterator, MemoryRecord, MemoryRecordBuilder, MemoryRecordRef, MemorySetIterator,
    MemoryWorkspace,
};
pub use project::Project;
pub use record::{Record, RecordBuilder, RecordView, SetOperation};
pub use remote::Remote;
pub use set::SetWalkIterator;
pub use ticket::{validate_origin, Ticket, TicketDependencyIterator, TicketState};
pub use workspace::{validate_project_slug, Workspace};
