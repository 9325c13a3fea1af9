//! The account authority: an in-process store of accounts and live
//! sessions, with every operation guarded by an atomic existence-plus-
//! authorization check. The ghost model is a sequence of account records
//! keyed by unique identifiers and a sequence of live sessions keyed by
//! unique tokens.
use vstd::prelude::*;
use crate::account::{
    AccountChangePasswordError, AccountCreationError, AccountId, AccountLoginError,
    AccountOwnerManageError, AccountRole, SessionRetrievalError, SessionRetrievalPurpose,
    SessionToken, spec_can_own,
};
use crate::credential::{
    bytes_eq, hash_password, hashed, kdf_accepts, password_alphabet, random_password,
    random_salt, random_session,
};

verus! {

/// Mathematical model of one stored account.
#[verifier::ext_equal]
pub ghost struct AccountModel {
    pub id: u128,
    pub username: Seq<char>,
    pub role: AccountRole,
    pub owner: Option<u128>,
    pub hash: Seq<u8>,
    pub salt: Seq<u8>,
    pub reset_required: bool,
}

/// Mathematical model of one live session.
#[verifier::ext_equal]
pub ghost struct SessionModel {
    pub token: Seq<u8>,
    pub account: u128,
}

/// Mathematical model of the whole authority state.
#[verifier::ext_equal]
pub ghost struct AuthorityView {
    pub accounts: Seq<AccountModel>,
    pub sessions: Seq<SessionModel>,
    pub next_id: u128,
}

/// One stored account.
struct AccountRecord {
    id: AccountId,
    username: String,
    role: AccountRole,
    owner: Option<AccountId>,
    hash: Vec<u8>,
    salt: Vec<u8>,
    reset_required: bool,
}

impl View for AccountRecord {
    type V = AccountModel;

    closed spec fn view(&self) -> AccountModel {
        AccountModel {
            id: self.id.0,
            username: self.username@,
            role: self.role,
            owner: match self.owner {
                Some(o) => Some(o.0),
                None => None,
            },
            hash: self.hash@,
            salt: self.salt@,
            reset_required: self.reset_required,
        }
    }
}

/// One live session.
#[derive(Clone, Copy)]
struct SessionRecord {
    token: SessionToken,
    account: AccountId,
}

impl View for SessionRecord {
    type V = SessionModel;

    closed spec fn view(&self) -> SessionModel {
        SessionModel { token: self.token@, account: self.account.0 }
    }
}

/// Whether some account in the sequence has this identifier.
pub open spec fn has_account(accounts: Seq<AccountModel>, id: u128) -> bool {
    exists|i: int| 0 <= i < accounts.len() && (#[trigger] accounts[i]).id == id
}

/// The account with this identifier (meaningful when `has_account` holds
/// and identifiers are unique).
pub open spec fn account_of(accounts: Seq<AccountModel>, id: u128) -> AccountModel {
    accounts[choose|i: int| 0 <= i < accounts.len() && (#[trigger] accounts[i]).id == id]
}

/// Whether some account in the sequence has this username.
pub open spec fn has_username(accounts: Seq<AccountModel>, username: Seq<char>) -> bool {
    exists|i: int| 0 <= i < accounts.len() && (#[trigger] accounts[i]).username == username
}

/// The account with this username (meaningful when `has_username` holds
/// and usernames are unique).
pub open spec fn account_named(accounts: Seq<AccountModel>, username: Seq<char>) -> AccountModel {
    accounts[choose|i: int|
        0 <= i < accounts.len() && (#[trigger] accounts[i]).username == username]
}

/// Whether some live session carries this token.
pub open spec fn has_session(sessions: Seq<SessionModel>, token: Seq<u8>) -> bool {
    exists|i: int| 0 <= i < sessions.len() && (#[trigger] sessions[i]).token == token
}

/// The account identifier that this token authenticates (meaningful when
/// `has_session` holds and tokens are unique).
pub open spec fn session_account(sessions: Seq<SessionModel>, token: Seq<u8>) -> u128 {
    sessions[choose|i: int|
        0 <= i < sessions.len() && (#[trigger] sessions[i]).token == token].account
}

/// `target` exists and names `owner` as the account that manages it. This
/// is the predicate behind every owner-checked mutation.
pub open spec fn owned_by(accounts: Seq<AccountModel>, target: u128, owner: u128) -> bool {
    has_account(accounts, target) && account_of(accounts, target).owner == Some(owner)
}

/// No two accounts share an identifier.
pub open spec fn account_ids_unique(accounts: Seq<AccountModel>) -> bool {
    forall|i: int, j: int|
        0 <= i < accounts.len() && 0 <= j < accounts.len() && i != j
            ==> (#[trigger] accounts[i]).id != (#[trigger] accounts[j]).id
}

/// No two accounts share a username.
pub open spec fn account_usernames_unique(accounts: Seq<AccountModel>) -> bool {
    forall|i: int, j: int|
        0 <= i < accounts.len() && 0 <= j < accounts.len() && i != j
            ==> (#[trigger] accounts[i]).username != (#[trigger] accounts[j]).username
}

/// No two live sessions share a token.
pub open spec fn session_tokens_unique(sessions: Seq<SessionModel>) -> bool {
    forall|i: int, j: int|
        0 <= i < sessions.len() && 0 <= j < sessions.len() && i != j
            ==> (#[trigger] sessions[i]).token != (#[trigger] sessions[j]).token
}

/// Well-formedness of the authority state: unique identifiers, usernames
/// and tokens; every session names an existing account; identifiers are
/// never reused; an account lacks an owner exactly when it is a site
/// admin; whenever an account's owner is still present, the ownership
/// table allows the pair (established at creation); and credential
/// material has the fixed digest and salt widths.
pub open spec fn wf(v: AuthorityView) -> bool {
    &&& account_ids_unique(v.accounts)
    &&& account_usernames_unique(v.accounts)
    &&& session_tokens_unique(v.sessions)
    &&& forall|i: int|
        0 <= i < v.sessions.len() ==> has_account(v.accounts, (#[trigger] v.sessions[i]).account)
    &&& forall|i: int| 0 <= i < v.accounts.len() ==> (#[trigger] v.accounts[i]).id < v.next_id
    &&& forall|i: int|
        0 <= i < v.accounts.len()
            ==> ((#[trigger] v.accounts[i]).owner is None <==> v.accounts[i].role
            == AccountRole::SiteAdmin)
    &&& forall|i: int|
        0 <= i < v.accounts.len() ==> ((#[trigger] v.accounts[i]).owner matches Some(o) ==> o
            < v.next_id)
    &&& forall|i: int, j: int|
        0 <= i < v.accounts.len() && 0 <= j < v.accounts.len() && (#[trigger] v.accounts[j]).owner
            == Some((#[trigger] v.accounts[i]).id) ==> spec_can_own(
            v.accounts[i].role,
            v.accounts[j].role,
        )
    &&& forall|i: int|
        0 <= i < v.accounts.len() ==> (#[trigger] v.accounts[i]).hash.len() == 32
            && v.accounts[i].salt.len() == 16
}

/// The account at a valid index is the one that lookup by its identifier
/// finds.
pub proof fn lemma_account_at(accounts: Seq<AccountModel>, i: int)
    requires
        account_ids_unique(accounts),
        0 <= i < accounts.len(),
    ensures
        has_account(accounts, accounts[i].id),
        account_of(accounts, accounts[i].id) == accounts[i],
{
    assert(has_account(accounts, accounts[i].id));
    let j = choose|j: int| 0 <= j < accounts.len() && (#[trigger] accounts[j]).id
        == accounts[i].id;
    assert(accounts[j].id == accounts[i].id);
    if i != j {
        assert(accounts[i].id != accounts[j].id);
    }
}

/// The account at a valid index is the one that lookup by its username
/// finds.
pub proof fn lemma_account_named_at(accounts: Seq<AccountModel>, i: int)
    requires
        account_usernames_unique(accounts),
        0 <= i < accounts.len(),
    ensures
        has_username(accounts, accounts[i].username),
        account_named(accounts, accounts[i].username) == accounts[i],
{
    assert(has_username(accounts, accounts[i].username));
    let j = choose|j: int|
        0 <= j < accounts.len() && (#[trigger] accounts[j]).username == accounts[i].username;
    if i != j {
        assert(accounts[i].username != accounts[j].username);
    }
}

/// The session at a valid index is the one that lookup by its token finds.
pub proof fn lemma_session_at(sessions: Seq<SessionModel>, i: int)
    requires
        session_tokens_unique(sessions),
        0 <= i < sessions.len(),
    ensures
        has_session(sessions, sessions[i].token),
        session_account(sessions, sessions[i].token) == sessions[i].account,
{
    assert(has_session(sessions, sessions[i].token));
    let j = choose|j: int| 0 <= j < sessions.len() && (#[trigger] sessions[j]).token
        == sessions[i].token;
    if i != j {
        assert(sessions[i].token != sessions[j].token);
    }
}

/// What `retrieve_account` decides, as a function of the state: an unknown
/// token is invalid whatever the purpose; a known token whose account must
/// still reset its password is good only for changing it; any other known
/// token authenticates its account.
pub open spec fn retrieve_outcome(
    v: AuthorityView,
    token: Seq<u8>,
    purpose: SessionRetrievalPurpose,
) -> Result<AccountId, SessionRetrievalError> {
    if !has_session(v.sessions, token) {
        Err(SessionRetrievalError::InvalidToken)
    } else {
        let account = account_of(v.accounts, session_account(v.sessions, token));
        if account.reset_required && purpose == SessionRetrievalPurpose::Other {
            Err(SessionRetrievalError::InvalidPurpose)
        } else {
            Ok(AccountId(session_account(v.sessions, token)))
        }
    }
}

/// The account & session authority. It owns the persisted state; every
/// public operation is a single atomic read or read-modify-write of it.
pub struct AccountAuthority {
    accounts: Vec<AccountRecord>,
    sessions: Vec<SessionRecord>,
    next_id: u128,
}

impl View for AccountAuthority {
    type V = AuthorityView;

    closed spec fn view(&self) -> AuthorityView {
        AuthorityView {
            accounts: self.accounts@.map_values(|r: AccountRecord| r@),
            sessions: self.sessions@.map_values(|r: SessionRecord| r@),
            next_id: self.next_id,
        }
    }
}

impl AccountAuthority {
    /// Creates an authority with no accounts and no sessions.
    pub fn new() -> (r: Self)
        ensures
            wf(r@),
            r@.accounts.len() == 0,
            r@.sessions.len() == 0,
    {
        AccountAuthority { accounts: Vec::new(), sessions: Vec::new(), next_id: 0 }
    }

    /// Index of the account with this identifier, if any.
    fn find_by_id(&self, id: &AccountId) -> (r: Option<usize>)
        ensures
            match r {
                Some(i) => i < self@.accounts.len() && self@.accounts[i as int].id == id.0,
                None => !has_account(self@.accounts, id.0),
            },
    {
        let n = self.accounts.len();
        let mut i: usize = 0;
        while i < n
            invariant
                i <= n,
                n == self@.accounts.len(),
                forall|j: int| 0 <= j < i ==> (#[trigger] self@.accounts[j]).id != id.0,
            decreases n - i,
        {
            if self.accounts[i].id.0 == id.0 {
                return Some(i);
            }
            i = i + 1;
        }
        None
    }

    /// Index of the account with this username, if any.
    fn find_by_username(&self, username: &String) -> (r: Option<usize>)
        ensures
            match r {
                Some(i) => i < self@.accounts.len() && self@.accounts[i as int].username
                    == username@,
                None => !has_username(self@.accounts, username@),
            },
    {
        let n = self.accounts.len();
        let mut i: usize = 0;
        while i < n
            invariant
                i <= n,
                n == self@.accounts.len(),
                forall|j: int| 0 <= j < i ==> (#[trigger] self@.accounts[j]).username != username@,
            decreases n - i,
        {
            if self.accounts[i].username == *username {
                return Some(i);
            }
            i = i + 1;
        }
        None
    }

    /// Index of the live session with this token, if any.
    fn find_session(&self, token: &SessionToken) -> (r: Option<usize>)
        ensures
            match r {
                Some(i) => i < self@.sessions.len() && self@.sessions[i as int].token == token@,
                None => !has_session(self@.sessions, token@),
            },
    {
        let n = self.sessions.len();
        let mut i: usize = 0;
        while i < n
            invariant
                i <= n,
                n == self@.sessions.len(),
                forall|j: int| 0 <= j < i ==> (#[trigger] self@.sessions[j]).token != token@,
            decreases n - i,
        {
            if bytes_eq(self.sessions[i].token.0.as_slice(), token.0.as_slice()) {
                return Some(i);
            }
            i = i + 1;
        }
        None
    }

    /// Attempts to look up a user using the authenticated session token.
    ///
    /// If a password reset is necessary, the token is not valid for any
    /// purpose but a password reset.
    pub fn retrieve_account(&self, session_token: &SessionToken, purpose: SessionRetrievalPurpose)
        -> (r: Result<AccountId, SessionRetrievalError>)
        requires
            wf(self@),
        ensures
            r == retrieve_outcome(self@, session_token@, purpose),
    {
        let i = match self.find_session(session_token) {
            Some(i) => i,
            None => {
                return Err(SessionRetrievalError::InvalidToken);
            },
        };
        proof {
            lemma_session_at(self@.sessions, i as int);
            assert(session_account(self@.sessions, session_token@) == self@.sessions[
                i as int].account);
            assert(has_account(self@.accounts, self@.sessions[i as int].account));
        }
        let account_id = self.sessions[i].account;
        let j = match self.find_by_id(&account_id) {
            Some(j) => j,
            None => {
                proof {
                    assert(false);
                }
                return Err(SessionRetrievalError::InvalidToken);
            },
        };
        proof {
            lemma_account_at(self@.accounts, j as int);
            assert(account_of(self@.accounts, session_account(self@.sessions, session_token@))
                == self@.accounts[j as int]);
        }
        if purpose.allowed_when(self.accounts[j].reset_required) {
            Ok(account_id)
        } else {
            Err(SessionRetrievalError::InvalidPurpose)
        }
    }

    /// Creates an account without checking the ownership hierarchy; the
    /// caller is responsible for handing in a link that the hierarchy
    /// allows. Returns the new account's identifier and its temporary
    /// password; the account starts in the reset-required state.
    pub fn unchecked_create_account(
        &mut self,
        username: &str,
        role: AccountRole,
        owner: Option<&AccountId>,
    ) -> (r: Result<(AccountId, String), AccountCreationError>)
        requires
            wf(old(self)@),
            match owner {
                None => role == AccountRole::SiteAdmin,
                Some(o) => has_account(old(self)@.accounts, o.0) && spec_can_own(
                    account_of(old(self)@.accounts, o.0).role,
                    role,
                ),
            },
        ensures
            wf(final(self)@),
            r matches Err(_) ==> final(self)@ == old(self)@ && r matches Err(
                AccountCreationError::Other(_),
            ),
            has_username(old(self)@.accounts, username@) ==> r matches Err(_),
            r matches Ok(p) ==> created_account_ok(
                old(self)@,
                final(self)@,
                p.0,
                p.1@,
                username@,
                role,
                match owner {
                    Some(o) => Some(o.0),
                    None => None::<u128>,
                },
            ),
    {
        let uname = username.to_owned();
        if self.find_by_username(&uname).is_some() {
            return Err(AccountCreationError::Other("username already in use".to_owned()));
        }
        if self.next_id == u128::MAX {
            return Err(AccountCreationError::Other("identifier space exhausted".to_owned()));
        }
        let password = match random_password(16) {
            Ok(p) => p,
            Err(()) => {
                return Err(AccountCreationError::Other("the entropy source failed".to_owned()));
            },
        };
        let salt = match random_salt() {
            Ok(sv) => sv,
            Err(()) => {
                return Err(AccountCreationError::Other("the entropy source failed".to_owned()));
            },
        };
        let hash = match hash_password(password.as_str().as_bytes(), salt.as_slice()) {
            Ok(h) => h,
            Err(()) => {
                return Err(AccountCreationError::Other("password hashing failed".to_owned()));
            },
        };
        let id = AccountId(self.next_id);
        let owner_link: Option<AccountId> = match owner {
            Some(o) => Some(*o),
            None => None,
        };
        let rec = AccountRecord {
            id,
            username: uname,
            role,
            owner: owner_link,
            hash,
            salt,
            reset_required: true,
        };
        let ghost fresh = rec@;
        proof {
            match owner {
                Some(o) => {
                    assert forall|i: int|
                        0 <= i < old(self)@.accounts.len() && (#[trigger] old(
                            self,
                        )@.accounts[i]).id == o.0 implies spec_can_own(
                        old(self)@.accounts[i].role,
                        role,
                    ) by {
                        lemma_account_at(old(self)@.accounts, i);
                    }
                },
                None => {},
            }
            lemma_account_pushed(old(self)@, fresh);
        }
        self.accounts.push(rec);
        self.next_id = self.next_id + 1;
        proof {
            assert(self@ =~= (AuthorityView {
                accounts: old(self)@.accounts.push(fresh),
                sessions: old(self)@.sessions,
                next_id: (old(self)@.next_id + 1) as u128,
            }));
            assert(self@.accounts.last() == fresh);
        }
        Ok((id, password))
    }

    /// Creates a user account which will be owned by the specified admin.
    /// Returns the new user id and a temporary password.
    ///
    /// A site admin can only create admin accounts, an admin can only
    /// create user accounts, and a user cannot create accounts. The owner
    /// must exist; that is checked strictly before the role pair.
    pub fn create_account(
        &mut self,
        owner_id: &AccountId,
        account_role: AccountRole,
        username: &str,
    ) -> (r: Result<(AccountId, String), AccountCreationError>)
        requires
            wf(old(self)@),
        ensures
            wf(final(self)@),
            r matches Err(_) ==> final(self)@ == old(self)@,
            (r matches Err(AccountCreationError::OwnerNotFound)) <==> !has_account(
                old(self)@.accounts,
                owner_id.0,
            ),
            (r matches Err(AccountCreationError::InvalidOwnerRole)) <==> (has_account(
                old(self)@.accounts,
                owner_id.0,
            ) && !spec_can_own(account_of(old(self)@.accounts, owner_id.0).role, account_role)),
            (has_account(old(self)@.accounts, owner_id.0) && spec_can_own(
                account_of(old(self)@.accounts, owner_id.0).role,
                account_role,
            ) && has_username(old(self)@.accounts, username@)) ==> r matches Err(
                AccountCreationError::Other(_),
            ),
            r matches Ok(p) ==> created_account_ok(
                old(self)@,
                final(self)@,
                p.0,
                p.1@,
                username@,
                account_role,
                Some(owner_id.0),
            ),
    {
        let i = match self.find_by_id(owner_id) {
            Some(i) => i,
            None => {
                return Err(AccountCreationError::OwnerNotFound);
            },
        };
        proof {
            lemma_account_at(self@.accounts, i as int);
        }
        let owner_role = self.accounts[i].role;
        if !owner_role.can_own(account_role) {
            return Err(AccountCreationError::InvalidOwnerRole);
        }
        self.unchecked_create_account(username, account_role, Some(owner_id))
    }

    /// Creates an account with the site admin role and no owner. Returns
    /// the new account's identifier and its temporary password.
    pub fn create_site_admin(&mut self, username: &str) -> (r: Result<
        (AccountId, String),
        AccountCreationError,
    >)
        requires
            wf(old(self)@),
        ensures
            wf(final(self)@),
            r matches Err(_) ==> final(self)@ == old(self)@ && r matches Err(
                AccountCreationError::Other(_),
            ),
            has_username(old(self)@.accounts, username@) ==> r matches Err(_),
            r matches Ok(p) ==> created_account_ok(
                old(self)@,
                final(self)@,
                p.0,
                p.1@,
                username@,
                AccountRole::SiteAdmin,
                None::<u128>,
            ),
    {
        self.unchecked_create_account(username, AccountRole::SiteAdmin, None)
    }

    /// Resets the password of an account, returning a new temporary
    /// password which must be changed prior to performing any other
    /// action.
    ///
    /// The specified owner must be the owner of this account, regardless
    /// of the owner role. A missing target and a target with another owner
    /// are reported identically, so that the call leaks no existence
    /// information.
    pub fn reset_password(&mut self, owner_id: &AccountId, account_id: &AccountId) -> (r: Result<
        String,
        AccountOwnerManageError,
    >)
        requires
            wf(old(self)@),
        ensures
            wf(final(self)@),
            final(self)@.sessions == old(self)@.sessions,
            final(self)@.next_id == old(self)@.next_id,
            r matches Err(_) ==> final(self)@ == old(self)@,
            (r matches Err(AccountOwnerManageError::UserNotFound)) <==> !owned_by(
                old(self)@.accounts,
                account_id.0,
                owner_id.0,
            ),
            r matches Ok(pw) ==> ({
                &&& owned_by(old(self)@.accounts, account_id.0, owner_id.0)
                &&& pw@.len() == 16
                &&& (forall|k: int|
                    0 <= k < pw@.len() ==> password_alphabet().contains(#[trigger] pw@[k]))
                &&& credential_updated(
                    old(self)@.accounts,
                    final(self)@.accounts,
                    account_id.0,
                    pw@,
                    true,
                )
            }),
    {
        let i = match self.find_by_id(account_id) {
            Some(i) => i,
            None => {
                return Err(AccountOwnerManageError::UserNotFound);
            },
        };
        proof {
            lemma_account_at(self@.accounts, i as int);
        }
        let owner_ok = match self.accounts[i].owner {
            Some(o) => o.0 == owner_id.0,
            None => false,
        };
        if !owner_ok {
            return Err(AccountOwnerManageError::UserNotFound);
        }
        let password = match random_password(16) {
            Ok(p) => p,
            Err(()) => {
                return Err(AccountOwnerManageError::Other("the entropy source failed".to_owned()));
            },
        };
        let salt = match random_salt() {
            Ok(sv) => sv,
            Err(()) => {
                return Err(AccountOwnerManageError::Other("the entropy source failed".to_owned()));
            },
        };
        let hash = match hash_password(password.as_str().as_bytes(), salt.as_slice()) {
            Ok(h) => h,
            Err(()) => {
                return Err(AccountOwnerManageError::Other("password hashing failed".to_owned()));
            },
        };
        let rec = AccountRecord {
            id: self.accounts[i].id,
            username: self.accounts[i].username.clone(),
            role: self.accounts[i].role,
            owner: self.accounts[i].owner,
            hash,
            salt,
            reset_required: true,
        };
        let ghost updated = rec@;
        proof {
            lemma_account_updated(old(self)@, i as int, updated);
        }
        self.accounts[i] = rec;
        proof {
            assert(self@ =~= (AuthorityView {
                accounts: old(self)@.accounts.update(i as int, updated),
                sessions: old(self)@.sessions,
                next_id: old(self)@.next_id,
            }));
            lemma_credential_update_shape(old(self)@.accounts, i as int, updated);
        }
        Ok(password)
    }

    /// Changes a user's password if the provided current password is
    /// correct, and clears the reset-required flag. Note that no password
    /// requirements are enforced at this level.
    pub fn change_password(
        &mut self,
        account_id: &AccountId,
        current_password: &str,
        new_password: &str,
    ) -> (r: Result<(), AccountChangePasswordError>)
        requires
            wf(old(self)@),
        ensures
            wf(final(self)@),
            final(self)@.sessions == old(self)@.sessions,
            final(self)@.next_id == old(self)@.next_id,
            r matches Err(_) ==> final(self)@ == old(self)@,
            (r matches Err(AccountChangePasswordError::UserNotFound)) <==> !has_account(
                old(self)@.accounts,
                account_id.0,
            ),
            r matches Err(AccountChangePasswordError::IncorrectPassword) ==> ({
                let a = account_of(old(self)@.accounts, account_id.0);
                has_account(old(self)@.accounts, account_id.0) && hashed(
                    current_password@,
                    a.salt,
                ) != a.hash
            }),
            ({
                let a = account_of(old(self)@.accounts, account_id.0);
                has_account(old(self)@.accounts, account_id.0) && hashed(
                    current_password@,
                    a.salt,
                ) != a.hash
            }) ==> r matches Err(_),
            ({
                let a = account_of(old(self)@.accounts, account_id.0);
                has_account(old(self)@.accounts, account_id.0) && kdf_accepts(current_password@)
                    && hashed(current_password@, a.salt) != a.hash
            }) ==> r matches Err(AccountChangePasswordError::IncorrectPassword),
            r matches Ok(_) ==> ({
                let a = account_of(old(self)@.accounts, account_id.0);
                &&& has_account(old(self)@.accounts, account_id.0)
                &&& hashed(current_password@, a.salt) == a.hash
                &&& credential_updated(
                    old(self)@.accounts,
                    final(self)@.accounts,
                    account_id.0,
                    new_password@,
                    false,
                )
            }),
    {
        let i = match self.find_by_id(account_id) {
            Some(i) => i,
            None => {
                return Err(AccountChangePasswordError::UserNotFound);
            },
        };
        proof {
            lemma_account_at(self@.accounts, i as int);
        }
        let check = match hash_password(
            current_password.as_bytes(),
            self.accounts[i].salt.as_slice(),
        ) {
            Ok(h) => h,
            Err(()) => {
                return Err(AccountChangePasswordError::Other("password hashing failed".to_owned()));
            },
        };
        if !bytes_eq(check.as_slice(), self.accounts[i].hash.as_slice()) {
            return Err(AccountChangePasswordError::IncorrectPassword);
        }
        let salt = match random_salt() {
            Ok(sv) => sv,
            Err(()) => {
                return Err(AccountChangePasswordError::Other("the entropy source failed".to_owned()));
            },
        };
        let hash = match hash_password(new_password.as_bytes(), salt.as_slice()) {
            Ok(h) => h,
            Err(()) => {
                return Err(AccountChangePasswordError::Other("password hashing failed".to_owned()));
            },
        };
        let rec = AccountRecord {
            id: self.accounts[i].id,
            username: self.accounts[i].username.clone(),
            role: self.accounts[i].role,
            owner: self.accounts[i].owner,
            hash,
            salt,
            reset_required: false,
        };
        let ghost updated = rec@;
        proof {
            lemma_account_updated(old(self)@, i as int, updated);
        }
        self.accounts[i] = rec;
        proof {
            assert(self@ =~= (AuthorityView {
                accounts: old(self)@.accounts.update(i as int, updated),
                sessions: old(self)@.sessions,
                next_id: old(self)@.next_id,
            }));
            lemma_credential_update_shape(old(self)@.accounts, i as int, updated);
        }
        Ok(())
    }

    /// Deletes the specified account, and with it every live session that
    /// authenticated it.
    ///
    /// The specified owner must be the owner of this account, regardless
    /// of the owner role. A missing target and a target with another owner
    /// are reported identically, so that the call leaks no existence
    /// information.
    pub fn delete_account(&mut self, owner_id: &AccountId, account_id: &AccountId) -> (r: Result<
        (),
        AccountOwnerManageError,
    >)
        requires
            wf(old(self)@),
        ensures
            wf(final(self)@),
            final(self)@.next_id == old(self)@.next_id,
            r matches Err(_) ==> final(self)@ == old(self)@,
            (r matches Err(AccountOwnerManageError::UserNotFound)) <==> !owned_by(
                old(self)@.accounts,
                account_id.0,
                owner_id.0,
            ),
            (r matches Ok(_)) <==> owned_by(old(self)@.accounts, account_id.0, owner_id.0),
            r matches Ok(_) ==> ({
                &&& owned_by(old(self)@.accounts, account_id.0, owner_id.0)
                &&& !has_account(final(self)@.accounts, account_id.0)
                &&& final(self)@.accounts.len() == old(self)@.accounts.len() - 1
                &&& (forall|x: u128|
                    x != account_id.0 ==> (has_account(final(self)@.accounts, x) <==> has_account(
                        old(self)@.accounts,
                        x,
                    )))
                &&& (forall|x: u128|
                    x != account_id.0 && has_account(old(self)@.accounts, x) ==> account_of(
                        final(self)@.accounts,
                        x,
                    ) == account_of(old(self)@.accounts, x))
                &&& (forall|t: Seq<u8>|
                    has_session(final(self)@.sessions, t) <==> (has_session(
                        old(self)@.sessions,
                        t,
                    ) && session_account(old(self)@.sessions, t) != account_id.0))
                &&& (forall|t: Seq<u8>|
                    has_session(final(self)@.sessions, t) ==> session_account(
                        final(self)@.sessions,
                        t,
                    ) == session_account(old(self)@.sessions, t))
            }),
    {
        let i = match self.find_by_id(account_id) {
            Some(i) => i,
            None => {
                return Err(AccountOwnerManageError::UserNotFound);
            },
        };
        proof {
            lemma_account_at(self@.accounts, i as int);
        }
        let owner_ok = match self.accounts[i].owner {
            Some(o) => o.0 == owner_id.0,
            None => false,
        };
        if !owner_ok {
            return Err(AccountOwnerManageError::UserNotFound);
        }
        let ghost target = account_id.0;
        let ghost pre_sessions = self@.sessions;
        self.accounts.remove(i);
        proof {
            assert(self@.accounts =~= old(self)@.accounts.remove(i as int));
            lemma_account_removed(old(self)@, i as int);
        }
        let n = self.sessions.len();
        let mut kept: Vec<SessionRecord> = Vec::new();
        let mut k: usize = 0;
        while k < n
            invariant
                k <= n,
                n == self.sessions@.len(),
                self@.sessions == pre_sessions,
                kept@.map_values(|r: SessionRecord| r@) =~= pre_sessions.take(k as int).filter(
                    survives(target),
                ),
                target == account_id.0,
            decreases n - k,
        {
            let ghost taken = pre_sessions.take(k as int);
            let keep_it = self.sessions[k].account.0 != account_id.0;
            if keep_it {
                kept.push(self.sessions[k]);
            }
            proof {
                assert(pre_sessions.take(k + 1 as int) =~= taken.push(pre_sessions[k as int]));
                taken.lemma_filter_push(pre_sessions[k as int], survives(target));
                assert(kept@.map_values(|r: SessionRecord| r@) =~= pre_sessions.take(
                    k + 1 as int,
                ).filter(survives(target)));
            }
            k = k + 1;
        }
        self.sessions = kept;
        proof {
            assert(pre_sessions.take(n as int) =~= pre_sessions);
            assert(self@.sessions =~= pre_sessions.filter(survives(target)));
            lemma_sessions_purged(pre_sessions, target);
            assert forall|w: int| 0 <= w < self@.sessions.len() implies has_account(
                self@.accounts,
                (#[trigger] self@.sessions[w]).account,
            ) by {
                let m = choose|m: int| 0 <= m < pre_sessions.len() && pre_sessions[m]
                    == self@.sessions[w];
                assert(has_account(old(self)@.accounts, pre_sessions[m].account));
                assert(self@.sessions[w].account != target);
            }
        }
        Ok(())
    }

    /// Attempts to log in the specified user: looks the account up by
    /// username, recomputes the digest of the presented password with the
    /// stored salt, and on a match issues a fresh session token.
    pub fn login(&mut self, username: &str, password: &str) -> (r: Result<
        SessionToken,
        AccountLoginError,
    >)
        requires
            wf(old(self)@),
        ensures
            wf(final(self)@),
            final(self)@.accounts == old(self)@.accounts,
            final(self)@.next_id == old(self)@.next_id,
            r matches Err(_) ==> final(self)@ == old(self)@,
            (r matches Err(AccountLoginError::UserNotFound)) <==> !has_username(
                old(self)@.accounts,
                username@,
            ),
            r matches Err(AccountLoginError::IncorrectPassword) ==> ({
                let a = account_named(old(self)@.accounts, username@);
                has_username(old(self)@.accounts, username@) && hashed(password@, a.salt)
                    != a.hash
            }),
            ({
                let a = account_named(old(self)@.accounts, username@);
                has_username(old(self)@.accounts, username@) && hashed(password@, a.salt)
                    != a.hash
            }) ==> r matches Err(_),
            ({
                let a = account_named(old(self)@.accounts, username@);
                has_username(old(self)@.accounts, username@) && kdf_accepts(password@) && hashed(
                    password@,
                    a.salt,
                ) != a.hash
            }) ==> r matches Err(AccountLoginError::IncorrectPassword),
            r matches Ok(token) ==> ({
                let a = account_named(old(self)@.accounts, username@);
                &&& has_username(old(self)@.accounts, username@)
                &&& hashed(password@, a.salt) == a.hash
                &&& !has_session(old(self)@.sessions, token@)
                &&& final(self)@.sessions == old(self)@.sessions.push(
                    (SessionModel { token: token@, account: a.id }),
                )
            }),
    {
        let uname = username.to_owned();
        let i = match self.find_by_username(&uname) {
            Some(i) => i,
            None => {
                return Err(AccountLoginError::UserNotFound);
            },
        };
        proof {
            lemma_account_named_at(self@.accounts, i as int);
        }
        let check = match hash_password(password.as_bytes(), self.accounts[i].salt.as_slice()) {
            Ok(h) => h,
            Err(()) => {
                return Err(AccountLoginError::Other("password hashing failed".to_owned()));
            },
        };
        if !bytes_eq(check.as_slice(), self.accounts[i].hash.as_slice()) {
            return Err(AccountLoginError::IncorrectPassword);
        }
        let token = match random_session() {
            Ok(t) => t,
            Err(()) => {
                return Err(AccountLoginError::Other("the entropy source failed".to_owned()));
            },
        };
        if self.find_session(&token).is_some() {
            return Err(AccountLoginError::Other("session token collision".to_owned()));
        }
        let account = self.accounts[i].id;
        let ghost pre = self@.sessions;
        let ghost fresh = SessionModel { token: token@, account: account.0 };
        self.sessions.push(SessionRecord { token, account });
        proof {
            assert(self@.sessions =~= pre.push(fresh));
            lemma_account_at(self@.accounts, i as int);
            lemma_session_pushed(self@.accounts, pre, fresh);
        }
        Ok(token)
    }

    /// Invalidates the provided session token. If the session token does
    /// not exist, no action is taken.
    pub fn destroy_session(&mut self, token: &SessionToken)
        requires
            wf(old(self)@),
        ensures
            wf(final(self)@),
            final(self)@.accounts == old(self)@.accounts,
            final(self)@.next_id == old(self)@.next_id,
            forall|t: Seq<u8>|
                has_session(final(self)@.sessions, t) <==> (has_session(old(self)@.sessions, t)
                    && t != token@),
            forall|t: Seq<u8>|
                has_session(final(self)@.sessions, t) ==> session_account(
                    final(self)@.sessions,
                    t,
                ) == session_account(old(self)@.sessions, t),
    {
        let ghost pre = self@.sessions;
        match self.find_session(token) {
            Some(i) => {
                self.sessions.remove(i);
                proof {
                    assert(self@.sessions =~= pre.remove(i as int));
                    lemma_session_removed(old(self)@.accounts, pre, i as int);
                }
            },
            None => {},
        }
    }
}

/// What a successful account creation did: the returned identifier is the
/// fresh one, the temporary password has sixteen characters from the
/// password alphabet, and exactly one account was appended, in the
/// reset-required state, with a digest of the temporary password under a
/// fresh salt.
pub open spec fn created_account_ok(
    pre: AuthorityView,
    post: AuthorityView,
    id: AccountId,
    pw: Seq<char>,
    username: Seq<char>,
    role: AccountRole,
    owner: Option<u128>,
) -> bool {
    let a = post.accounts.last();
    &&& !has_username(pre.accounts, username)
    &&& !has_account(pre.accounts, id.0)
    &&& id.0 == pre.next_id
    &&& post.next_id == pre.next_id + 1
    &&& post.sessions == pre.sessions
    &&& pw.len() == 16
    &&& (forall|k: int| 0 <= k < pw.len() ==> password_alphabet().contains(#[trigger] pw[k]))
    &&& post.accounts == pre.accounts.push(a)
    &&& a.id == id.0
    &&& a.username == username
    &&& a.role == role
    &&& a.owner == owner
    &&& a.reset_required == true
    &&& a.salt.len() == 16
    &&& a.hash == hashed(pw, a.salt)
}

/// Appending an account with the next fresh identifier, an unused
/// username, and an owner link that the ownership table allows keeps the
/// state well-formed.
proof fn lemma_account_pushed(v: AuthorityView, a: AccountModel)
    requires
        wf(v),
        v.next_id < u128::MAX,
        a.id == v.next_id,
        !has_username(v.accounts, a.username),
        a.owner is None <==> a.role == AccountRole::SiteAdmin,
        a.owner matches Some(o) ==> o < v.next_id && (forall|i: int|
            0 <= i < v.accounts.len() && (#[trigger] v.accounts[i]).id == o ==> spec_can_own(
                v.accounts[i].role,
                a.role,
            )),
        a.hash.len() == 32,
        a.salt.len() == 16,
    ensures
        wf(
            (AuthorityView {
                accounts: v.accounts.push(a),
                sessions: v.sessions,
                next_id: (v.next_id + 1) as u128,
            }),
        ),
        !has_account(v.accounts, a.id),
{
    let pre = v.accounts;
    let post = pre.push(a);
    assert(!has_account(pre, a.id)) by {
        if has_account(pre, a.id) {
            let i = choose|i: int| 0 <= i < pre.len() && (#[trigger] pre[i]).id == a.id;
            assert(pre[i].id < v.next_id);
        }
    }
    assert forall|k1: int, k2: int|
        0 <= k1 < post.len() && 0 <= k2 < post.len() && k1 != k2 implies (#[trigger] post[
        k1]).id != (#[trigger] post[k2]).id by {
        if k1 < pre.len() && k2 < pre.len() {
            assert(pre[k1].id != pre[k2].id);
        } else if k1 < pre.len() {
            assert(post[k2] == a && pre[k1].id < v.next_id);
        } else {
            assert(post[k1] == a && pre[k2].id < v.next_id);
        }
    }
    assert forall|k1: int, k2: int|
        0 <= k1 < post.len() && 0 <= k2 < post.len() && k1 != k2 implies (#[trigger] post[
        k1]).username != (#[trigger] post[k2]).username by {
        if k1 < pre.len() && k2 < pre.len() {
            assert(pre[k1].username != pre[k2].username);
        } else if k1 < pre.len() {
            assert(post[k2] == a);
            if pre[k1].username == a.username {
                assert(has_username(pre, a.username));
            }
        } else {
            assert(post[k1] == a);
            if pre[k2].username == a.username {
                assert(has_username(pre, a.username));
            }
        }
    }
    assert forall|k: int| 0 <= k < v.sessions.len() implies has_account(
        post,
        (#[trigger] v.sessions[k]).account,
    ) by {
        let i = choose|i: int| 0 <= i < pre.len() && (#[trigger] pre[i]).id == v.sessions[
            k].account;
        assert(post[i] == pre[i]);
    }
    assert forall|i: int, j: int|
        0 <= i < post.len() && 0 <= j < post.len() && (#[trigger] post[j]).owner == Some(
            (#[trigger] post[i]).id,
        ) implies spec_can_own(post[i].role, post[j].role) by {
        if i < pre.len() && j < pre.len() {
            assert(pre[j].owner == Some(pre[i].id));
        } else if i < pre.len() {
            assert(post[j] == a);
        } else {
            assert(post[i] == a);
            if j < pre.len() {
                assert(pre[j].owner matches Some(o) ==> o < v.next_id);
            }
        }
    }
}

/// What a credential write did: only the target account changed, and only
/// its credential material and reset flag; the new digest is of `pw` under
/// the fresh stored salt.
pub open spec fn credential_updated(
    pre: Seq<AccountModel>,
    post: Seq<AccountModel>,
    target: u128,
    pw: Seq<char>,
    reset_required: bool,
) -> bool {
    &&& post.len() == pre.len()
    &&& forall|j: int| 0 <= j < pre.len() && (#[trigger] pre[j]).id != target ==> post[j] == pre[j]
    &&& forall|j: int|
        0 <= j < pre.len() && (#[trigger] pre[j]).id == target ==> ({
            let a = post[j];
            &&& a.id == pre[j].id
            &&& a.username == pre[j].username
            &&& a.role == pre[j].role
            &&& a.owner == pre[j].owner
            &&& a.reset_required == reset_required
            &&& a.salt.len() == 16
            &&& a.hash == hashed(pw, a.salt)
        })
}

/// Replacing one account's credential material and reset flag, while its
/// identifier, username, role and owner link stay as they were, keeps the
/// state well-formed.
proof fn lemma_account_updated(v: AuthorityView, i: int, a: AccountModel)
    requires
        wf(v),
        0 <= i < v.accounts.len(),
        a.id == v.accounts[i].id,
        a.username == v.accounts[i].username,
        a.role == v.accounts[i].role,
        a.owner == v.accounts[i].owner,
        a.hash.len() == 32,
        a.salt.len() == 16,
    ensures
        wf(
            (AuthorityView {
                accounts: v.accounts.update(i, a),
                sessions: v.sessions,
                next_id: v.next_id,
            }),
        ),
{
    let pre = v.accounts;
    let post = pre.update(i, a);
    assert forall|k: int| 0 <= k < post.len() implies (#[trigger] post[k]).id == pre[k].id
        && post[k].username == pre[k].username && post[k].role == pre[k].role && post[k].owner
        == pre[k].owner by {
        if k != i {
            assert(post[k] == pre[k]);
        }
    }
    assert forall|k1: int, k2: int|
        0 <= k1 < post.len() && 0 <= k2 < post.len() && k1 != k2 implies (#[trigger] post[
        k1]).id != (#[trigger] post[k2]).id by {
        assert(pre[k1].id != pre[k2].id);
    }
    assert forall|k1: int, k2: int|
        0 <= k1 < post.len() && 0 <= k2 < post.len() && k1 != k2 implies (#[trigger] post[
        k1]).username != (#[trigger] post[k2]).username by {
        assert(pre[k1].username != pre[k2].username);
    }
    assert forall|k: int| 0 <= k < v.sessions.len() implies has_account(
        post,
        (#[trigger] v.sessions[k]).account,
    ) by {
        let w = choose|w: int| 0 <= w < pre.len() && (#[trigger] pre[w]).id == v.sessions[
            k].account;
        assert(post[w].id == pre[w].id);
    }
    assert forall|k1: int, k2: int|
        0 <= k1 < post.len() && 0 <= k2 < post.len() && (#[trigger] post[k2]).owner == Some(
            (#[trigger] post[k1]).id,
        ) implies spec_can_own(post[k1].role, post[k2].role) by {
        assert(pre[k2].owner == Some(pre[k1].id));
    }
    assert forall|k: int| 0 <= k < post.len() implies (#[trigger] post[k]).hash.len() == 32
        && post[k].salt.len() == 16 by {
        if k != i {
            assert(post[k] == pre[k]);
        }
    }
}

/// An update at the index of the target account touches no other entry:
/// for every other index the entry is the one that was there before.
proof fn lemma_credential_update_shape(pre: Seq<AccountModel>, i: int, a: AccountModel)
    requires
        account_ids_unique(pre),
        0 <= i < pre.len(),
        a.id == pre[i].id,
    ensures
        forall|j: int|
            0 <= j < pre.len() && (#[trigger] pre[j]).id != a.id ==> pre.update(i, a)[j] == pre[j],
        forall|j: int| 0 <= j < pre.len() && (#[trigger] pre[j]).id == a.id ==> j == i,
{
    assert forall|j: int| 0 <= j < pre.len() && (#[trigger] pre[j]).id == a.id implies j == i by {
        if j != i {
            assert(pre[j].id != pre[i].id);
        }
    }
}

/// The sessions that survive the deletion of an account: those naming any
/// other account.
pub open spec fn survives(target: u128) -> spec_fn(SessionModel) -> bool {
    |s: SessionModel| s.account != target
}

/// Filtering a unique-token session sequence keeps its tokens unique.
proof fn lemma_filter_tokens_unique(s: Seq<SessionModel>, target: u128)
    requires
        session_tokens_unique(s),
    ensures
        session_tokens_unique(s.filter(survives(target))),
    decreases s.len(),
{
    reveal(Seq::filter);
    if s.len() != 0 {
        let rest = s.drop_last();
        assert forall|k1: int, k2: int|
            0 <= k1 < rest.len() && 0 <= k2 < rest.len() && k1 != k2 implies (#[trigger] rest[
            k1]).token != (#[trigger] rest[k2]).token by {
            assert(rest[k1] == s[k1] && rest[k2] == s[k2]);
        }
        lemma_filter_tokens_unique(rest, target);
        if survives(target)(s.last()) {
            let fr = rest.filter(survives(target));
            let post = s.filter(survives(target));
            assert(post == fr.push(s.last()));
            assert forall|k1: int, k2: int|
                0 <= k1 < post.len() && 0 <= k2 < post.len() && k1 != k2 implies (#[trigger] post[
                k1]).token != (#[trigger] post[k2]).token by {
                if k1 < fr.len() && k2 < fr.len() {
                    assert(post[k1] == fr[k1] && post[k2] == fr[k2]);
                } else {
                    let kr = if k1 < fr.len() { k1 } else { k2 };
                    assert(post[kr] == fr[kr]);
                    rest.lemma_filter_contains_rev(survives(target), fr[kr]);
                    let j = choose|j: int| 0 <= j < rest.len() && rest[j] == fr[kr];
                    assert(s[j] == fr[kr]);
                    assert(s[j].token != s.last().token);
                }
            }
        }
    }
}

/// Purging the sessions of a deleted account removes exactly the tokens
/// that authenticated it, keeps every other token valid for the same
/// account, and keeps tokens unique.
proof fn lemma_sessions_purged(pre: Seq<SessionModel>, target: u128)
    requires
        session_tokens_unique(pre),
    ensures
        session_tokens_unique(pre.filter(survives(target))),
        forall|t: Seq<u8>|
            has_session(pre.filter(survives(target)), t) <==> (has_session(pre, t)
                && session_account(pre, t) != target),
        forall|t: Seq<u8>|
            has_session(pre.filter(survives(target)), t) ==> session_account(
                pre.filter(survives(target)),
                t,
            ) == session_account(pre, t),
        forall|k: int|
            0 <= k < pre.filter(survives(target)).len()
                ==> (#[trigger] pre.filter(survives(target))[k]).account != target && pre.contains(
                pre.filter(survives(target))[k],
            ),
{
    let pred = survives(target);
    let post = pre.filter(pred);
    lemma_filter_tokens_unique(pre, target);
    assert forall|k: int| 0 <= k < post.len() implies (#[trigger] post[k]).account != target
        && pre.contains(post[k]) by {
        pre.lemma_filter_pred(pred, k);
        pre.lemma_filter_contains_rev(pred, post[k]);
    }
    assert forall|t: Seq<u8>| has_session(post, t) implies (has_session(pre, t)
        && session_account(pre, t) != target && session_account(post, t) == session_account(
        pre,
        t,
    )) by {
        let k = choose|k: int| 0 <= k < post.len() && (#[trigger] post[k]).token == t;
        pre.lemma_filter_pred(pred, k);
        pre.lemma_filter_contains_rev(pred, post[k]);
        let j = choose|j: int| 0 <= j < pre.len() && pre[j] == post[k];
        lemma_session_at(pre, j);
        lemma_session_at(post, k);
    }
    assert forall|t: Seq<u8>| has_session(pre, t) && session_account(pre, t) != target implies
        has_session(post, t) by {
        let j = choose|j: int| 0 <= j < pre.len() && (#[trigger] pre[j]).token == t;
        lemma_session_at(pre, j);
        pre.lemma_filter_contains(pred, j);
        let k = choose|k: int| 0 <= k < post.len() && post[k] == pre[j];
        assert(post[k].token == t);
    }
}

/// Removing one account from a well-formed account sequence keeps every
/// structural invariant of the account table, drops exactly the removed
/// identifier, and changes what no other identifier resolves to.
proof fn lemma_account_removed(v: AuthorityView, i: int)
    requires
        wf(v),
        0 <= i < v.accounts.len(),
    ensures
        account_ids_unique(v.accounts.remove(i)),
        account_usernames_unique(v.accounts.remove(i)),
        forall|k: int|
            0 <= k < v.accounts.remove(i).len() ==> (#[trigger] v.accounts.remove(i)[k]).id
                < v.next_id,
        forall|k: int|
            0 <= k < v.accounts.remove(i).len() ==> ((#[trigger] v.accounts.remove(
                i,
            )[k]).owner is None <==> v.accounts.remove(i)[k].role == AccountRole::SiteAdmin),
        forall|k: int|
            0 <= k < v.accounts.remove(i).len() ==> ((#[trigger] v.accounts.remove(
                i,
            )[k]).owner matches Some(o) ==> o < v.next_id),
        forall|k1: int, k2: int|
            0 <= k1 < v.accounts.remove(i).len() && 0 <= k2 < v.accounts.remove(i).len() && (
            #[trigger] v.accounts.remove(i)[k2]).owner == Some(
                (#[trigger] v.accounts.remove(i)[k1]).id,
            ) ==> spec_can_own(v.accounts.remove(i)[k1].role, v.accounts.remove(i)[k2].role),
        forall|k: int|
            0 <= k < v.accounts.remove(i).len() ==> (#[trigger] v.accounts.remove(
                i,
            )[k]).hash.len() == 32 && v.accounts.remove(i)[k].salt.len() == 16,
        !has_account(v.accounts.remove(i), v.accounts[i].id),
        forall|x: u128|
            x != v.accounts[i].id ==> (has_account(v.accounts.remove(i), x) <==> has_account(
                v.accounts,
                x,
            )),
        forall|x: u128|
            x != v.accounts[i].id && has_account(v.accounts, x) ==> account_of(
                v.accounts.remove(i),
                x,
            ) == account_of(v.accounts, x),
{
    let pre = v.accounts;
    let post = pre.remove(i);
    assert forall|k: int| 0 <= k < post.len() implies #[trigger] post[k] == pre[
        if k < i {
            k
        } else {
            k + 1
        }
    ] by {}
    assert forall|k1: int, k2: int|
        0 <= k1 < post.len() && 0 <= k2 < post.len() && k1 != k2 implies (#[trigger] post[
        k1]).id != (#[trigger] post[k2]).id && post[k1].username != post[k2].username by {
        let o1 = if k1 < i { k1 } else { k1 + 1 };
        let o2 = if k2 < i { k2 } else { k2 + 1 };
        assert(post[k1] == pre[o1] && post[k2] == pre[o2]);
    }
    assert forall|k1: int, k2: int|
        0 <= k1 < post.len() && 0 <= k2 < post.len() && (#[trigger] post[k2]).owner == Some(
            (#[trigger] post[k1]).id,
        ) implies spec_can_own(post[k1].role, post[k2].role) by {
        let o1 = if k1 < i { k1 } else { k1 + 1 };
        let o2 = if k2 < i { k2 } else { k2 + 1 };
        assert(post[k1] == pre[o1] && post[k2] == pre[o2]);
    }
    assert(!has_account(post, pre[i].id)) by {
        if has_account(post, pre[i].id) {
            let k = choose|k: int| 0 <= k < post.len() && (#[trigger] post[k]).id == pre[i].id;
            let o = if k < i { k } else { k + 1 };
            assert(post[k] == pre[o]);
            assert(pre[o].id != pre[i].id);
        }
    }
    assert forall|x: u128| x != pre[i].id implies (has_account(post, x) <==> has_account(
        pre,
        x,
    )) by {
        if has_account(post, x) {
            let k = choose|k: int| 0 <= k < post.len() && (#[trigger] post[k]).id == x;
            let o = if k < i { k } else { k + 1 };
            assert(post[k] == pre[o]);
            assert(has_account(pre, x));
        }
        if has_account(pre, x) {
            let j = choose|j: int| 0 <= j < pre.len() && (#[trigger] pre[j]).id == x;
            if j < i {
                assert(post[j] == pre[j]);
            } else {
                assert(j > i);
                assert(post[j - 1] == pre[j]);
            }
        }
    }
    assert forall|x: u128| x != pre[i].id && has_account(pre, x) implies account_of(post, x)
        == account_of(pre, x) by {
        let j = choose|j: int| 0 <= j < pre.len() && (#[trigger] pre[j]).id == x;
        assert(account_of(pre, x) == pre[j]);
        let kp = if j < i { j } else { j - 1 };
        assert(post[kp] == pre[j]);
        lemma_account_at(post, kp);
    }
}

/// Appending a session with a fresh token to a well-formed session
/// sequence keeps tokens unique and keeps every session pointing at an
/// account of the store.
proof fn lemma_session_pushed(accounts: Seq<AccountModel>, pre: Seq<SessionModel>, s: SessionModel)
    requires
        session_tokens_unique(pre),
        !has_session(pre, s.token),
        has_account(accounts, s.account),
        forall|k: int| 0 <= k < pre.len() ==> has_account(accounts, (#[trigger] pre[k]).account),
    ensures
        session_tokens_unique(pre.push(s)),
        forall|k: int|
            0 <= k < pre.push(s).len() ==> has_account(
                accounts,
                (#[trigger] pre.push(s)[k]).account,
            ),
{
    let post = pre.push(s);
    assert forall|k1: int, k2: int|
        0 <= k1 < post.len() && 0 <= k2 < post.len() && k1 != k2 implies (#[trigger] post[
        k1]).token != (#[trigger] post[k2]).token by {
        if k1 < pre.len() && k2 < pre.len() {
            assert(pre[k1].token != pre[k2].token);
        } else if k1 < pre.len() {
            assert(post[k2] == s);
            if pre[k1].token == s.token {
                assert(has_session(pre, s.token));
            }
        } else {
            assert(post[k1] == s);
            if pre[k2].token == s.token {
                assert(has_session(pre, s.token));
            }
        }
    }
    assert forall|k: int| 0 <= k < post.len() implies has_account(
        accounts,
        (#[trigger] post[k]).account,
    ) by {
        if k < pre.len() {
            assert(post[k] == pre[k]);
        } else {
            assert(post[k] == s);
        }
    }
}

/// Removing one session from a well-formed session sequence keeps tokens
/// unique, keeps every remaining session pointing at an account of the
/// store, drops exactly the removed token, and changes no other token's
/// account.
proof fn lemma_session_removed(accounts: Seq<AccountModel>, pre: Seq<SessionModel>, i: int)
    requires
        session_tokens_unique(pre),
        0 <= i < pre.len(),
        forall|k: int| 0 <= k < pre.len() ==> has_account(accounts, (#[trigger] pre[k]).account),
    ensures
        session_tokens_unique(pre.remove(i)),
        forall|k: int|
            0 <= k < pre.remove(i).len() ==> has_account(
                accounts,
                (#[trigger] pre.remove(i)[k]).account,
            ),
        forall|t: Seq<u8>|
            has_session(pre.remove(i), t) <==> (has_session(pre, t) && t != pre[i].token),
        forall|t: Seq<u8>|
            has_session(pre.remove(i), t) ==> session_account(pre.remove(i), t)
                == session_account(pre, t),
{
    let post = pre.remove(i);
    assert forall|k1: int, k2: int|
        0 <= k1 < post.len() && 0 <= k2 < post.len() && k1 != k2 implies (#[trigger] post[
        k1]).token != (#[trigger] post[k2]).token by {
        let o1 = if k1 < i { k1 } else { k1 + 1 };
        let o2 = if k2 < i { k2 } else { k2 + 1 };
        assert(post[k1] == pre[o1]);
        assert(post[k2] == pre[o2]);
    }
    assert forall|k: int| 0 <= k < post.len() implies has_account(
        accounts,
        (#[trigger] post[k]).account,
    ) by {
        let orig = if k < i { k } else { k + 1 };
        assert(post[k] == pre[orig]);
    }
    assert forall|t: Seq<u8>| has_session(post, t) implies (has_session(pre, t) && t != pre[
        i].token) by {
        let k = choose|k: int| 0 <= k < post.len() && (#[trigger] post[k]).token == t;
        let orig = if k < i { k } else { k + 1 };
        assert(post[k] == pre[orig]);
        assert(has_session(pre, t));
        if t == pre[i].token {
            assert(pre[orig].token == pre[i].token);
        }
    }
    assert forall|t: Seq<u8>| has_session(pre, t) && t != pre[i].token implies has_session(
        post,
        t,
    ) by {
        let k = choose|k: int| 0 <= k < pre.len() && (#[trigger] pre[k]).token == t;
        if k < i {
            assert(post[k] == pre[k]);
        } else {
            assert(k > i);
            assert(post[k - 1] == pre[k]);
        }
    }
    assert forall|t: Seq<u8>| has_session(post, t) implies session_account(post, t)
        == session_account(pre, t) by {
        let k = choose|k: int| 0 <= k < post.len() && (#[trigger] post[k]).token == t;
        let orig = if k < i { k } else { k + 1 };
        assert(post[k] == pre[orig]);
        lemma_session_at(pre, orig);
        lemma_session_at(post, k);
        assert(pre[orig].token == t);
        assert(session_account(pre, t) == pre[orig].account);
        assert(session_account(post, t) == post[k].account);
    }
}

} // verus!
