//! Core account data model: identifiers, session tokens, roles and the
//! per-operation error taxonomies.
use vstd::prelude::*;

verus! {

/// Opaque unique account identifier (128-bit).
#[derive(Clone, Copy, Debug, PartialEq, Eq, Structural)]
pub struct AccountId(pub u128);

impl AccountId {
    pub fn new(id: u128) -> (r: Self)
        ensures
            r.0 == id,
    {
        AccountId(id)
    }
}

/// Opaque 256-bit session token, issued by a successful login.
#[derive(Clone, Copy, Debug, PartialEq, Eq)]
pub struct SessionToken(pub [u8; 32]);

impl View for SessionToken {
    type V = Seq<u8>;

    open spec fn view(&self) -> Seq<u8> {
        self.0@
    }
}

impl SessionToken {
    pub fn new(bytes: [u8; 32]) -> (r: Self)
        ensures
            r@ == bytes@,
    {
        SessionToken(bytes)
    }
}

/// Privilege level of an account. A strict two-level hierarchy: site
/// admins own admins, admins own users, and nothing else.
#[derive(Clone, Copy, Debug, PartialEq, Eq, Hash, Structural)]
pub enum AccountRole {
    User,
    Admin,
    SiteAdmin,
}

/// The authoritative ownership table: exactly the two pairs
/// (SiteAdmin, Admin) and (Admin, User) are allowed.
pub open spec fn spec_can_own(owner: AccountRole, property: AccountRole) -> bool {
    ||| (owner == AccountRole::SiteAdmin && property == AccountRole::Admin)
    ||| (owner == AccountRole::Admin && property == AccountRole::User)
}

impl AccountRole {
    /// Returns whether it is valid for self to own an account of property role.
    ///
    /// A SiteAdmin can own an Admin, an Admin can own a user, and a user can own none.
    pub fn can_own(self, property: AccountRole) -> (r: bool)
        ensures
            r == spec_can_own(self, property),
    {
        match (self, property) {
            (AccountRole::SiteAdmin, AccountRole::Admin) => true,
            (AccountRole::Admin, AccountRole::User) => true,
            _ => false,
        }
    }
}

/// Why a `create_account` call failed.
#[derive(Debug)]
pub enum AccountCreationError {
    /// The owner/subject role pair is not in the ownership table.
    InvalidOwnerRole,
    /// The account named as the owner does not exist.
    OwnerNotFound,
    /// Opaque infrastructure failure (store rejection or entropy failure).
    Other(String),
}

/// Why a `reset_password` or `delete_account` call failed. A missing target
/// and a target owned by someone else are deliberately indistinguishable.
#[derive(Debug)]
pub enum AccountOwnerManageError {
    UserNotFound,
    Other(String),
}

/// Why a `change_password` call failed.
#[derive(Debug)]
pub enum AccountChangePasswordError {
    UserNotFound,
    IncorrectPassword,
    Other(String),
}

/// Why a `login` call failed. A missing username and a wrong password are
/// deliberately kept distinguishable at this boundary.
#[derive(Debug)]
pub enum AccountLoginError {
    UserNotFound,
    IncorrectPassword,
    Other(String),
}

/// The purpose for which a session token is presented.
#[derive(Clone, Copy, Debug, PartialEq, Eq, Structural)]
pub enum SessionRetrievalPurpose {
    /// The action for which a session token is necessary is changing a password
    ChangePassword,
    /// The action for which a session token is necessary is not changing a password
    Other,
}

impl SessionRetrievalPurpose {
    /// Whether a token whose account has the given reset-required state is
    /// good for this purpose: a pending reset gates out every purpose but
    /// changing the password.
    pub fn allowed_when(self, reset_required: bool) -> (r: bool)
        ensures
            r == !(reset_required && self == SessionRetrievalPurpose::Other),
    {
        match self {
            SessionRetrievalPurpose::ChangePassword => true,
            SessionRetrievalPurpose::Other => !reset_required,
        }
    }
}

/// Why a `retrieve_account` call failed.
#[derive(Debug)]
pub enum SessionRetrievalError {
    /// The account must change its password first; the token is only good
    /// for that purpose.
    InvalidPurpose,
    /// The token does not name a live session.
    InvalidToken,
    Other(String),
}

} // verus!
