//! The closed error taxonomy surfaced to clients.

use vstd::prelude::*;

verus! {

/// Error codes returned by the core.
///
/// Authentication failures are always collapsed into the single
/// `AuthenticationFailed` variant so that callers learn nothing about which
/// condition failed.
#[derive(Debug, Clone, PartialEq, Eq)]
pub enum Error {
    /// A live page with the requested slug already exists.
    PageExists,
    /// No live page with the requested slug (or id) exists.
    PageNotFound,
    /// A wiki with the requested slug or domain already exists.
    WikiExists,
    /// No wiki with the requested id or slug exists.
    WikiNotFound,
    /// No user with the requested id or name exists.
    UserNotFound,
    /// No revision with the requested id exists.
    RevisionNotFound,
    /// A password or token check failed; no further detail is disclosed.
    AuthenticationFailed,
    /// A new password was rejected at set time, with the reason.
    NewPasswordInvalid(String),
    /// A new user was rejected at creation, with the reason: the username
    /// must match `[A-Za-z0-9_-]{3,24}` and name and email must be unused.
    UserInvalid(String),
    /// A slug crossing the revision-store boundary is not in normal form.
    SlugNotNormal,
}

impl Error {
    /// A short stable description of the error, for display by callers.
    pub fn description(&self) -> (r: &'static str)
        ensures
            r@ =~= self.spec_description(),
    {
        match self {
            Error::PageExists => "page already exists",
            Error::PageNotFound => "page not found",
            Error::WikiExists => "wiki already exists",
            Error::WikiNotFound => "wiki not found",
            Error::UserNotFound => "user not found",
            Error::RevisionNotFound => "revision not found",
            Error::AuthenticationFailed => "authentication failed",
            Error::NewPasswordInvalid(_) => "new password invalid",
            Error::UserInvalid(_) => "new user invalid",
            Error::SlugNotNormal => "slug not in normal form",
        }
    }

    /// What `description` returns for each variant.
    pub open spec fn spec_description(&self) -> Seq<char> {
        match self {
            Error::PageExists => "page already exists"@,
            Error::PageNotFound => "page not found"@,
            Error::WikiExists => "wiki already exists"@,
            Error::WikiNotFound => "wiki not found"@,
            Error::UserNotFound => "user not found"@,
            Error::RevisionNotFound => "revision not found"@,
            Error::AuthenticationFailed => "authentication failed"@,
            Error::NewPasswordInvalid(_) => "new password invalid"@,
            Error::UserInvalid(_) => "new user invalid"@,
            Error::SlugNotNormal => "slug not in normal form"@,
        }
    }
}

} // verus!
