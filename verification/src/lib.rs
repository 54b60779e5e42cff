//! Core of a multi-tenant wiki backend.
//!
//! Every tenant ("wiki") owns a set of named pages whose full edit history is
//! kept in a content-addressed revision store, next to a relational catalog of
//! pages, revisions, tag changes, users, passwords and login sessions. The
//! catalog and the store are modelled here as verified in-memory state; the
//! contracts state how every operation changes that state and which errors it
//! returns, and the invariants (slug uniqueness among live pages, well-formed
//! commit identifiers, sorted disjoint tag changes, and the rest) are proved
//! to hold after every operation.

pub mod difftext;
pub mod error;
pub mod githash;
pub mod laws;
pub mod page;
pub mod password;
pub mod server;
pub mod session;
pub mod slug;
pub mod store;
pub mod tags;
pub mod text;
pub mod user;
pub mod wiki;

pub use error::Error;
pub use githash::GitHash;
pub use page::{ChangeType, Page, PageCommit, PageService, Revision, RevisionRef, TagChange};
pub use password::{Password, PasswordManager};
pub use server::Server;
pub use session::{IpNet, Session, SessionManager};
pub use store::{BlameLine, CommitInfo, RevisionStore};
pub use user::{User, UserManager};
pub use wiki::{Wiki, WikiService};
