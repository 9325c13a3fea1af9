//! The library's stated laws: properties that relate several operations,
//! proved once and for all over the authority's mathematical model.
use vstd::prelude::*;
use crate::account::{AccountId, AccountRole, SessionRetrievalError, SessionRetrievalPurpose,
    spec_can_own};
use crate::authority::{
    AccountModel, AuthorityView, account_ids_unique, account_named, account_of,
    account_usernames_unique, created_account_ok, credential_updated, has_account, has_session,
    has_username, retrieve_outcome, session_account, wf,
};
use crate::credential::hashed;

verus! {

/// The ownership table, written out: an owner/subject pair is allowed
/// exactly when it is site admin over admin, or admin over user.
pub proof fn lemma_ownership_table(owner: AccountRole, subject: AccountRole)
    ensures
        spec_can_own(owner, subject) <==> ((owner == AccountRole::SiteAdmin && subject
            == AccountRole::Admin) || (owner == AccountRole::Admin && subject
            == AccountRole::User)),
{
}

/// A token that names no live session is invalid for every purpose. In
/// particular, after `destroy_session` reports a token gone, every
/// `retrieve_account` with it fails with `InvalidToken`.
pub proof fn lemma_destroyed_token_is_invalid(
    v: AuthorityView,
    token: Seq<u8>,
    purpose: SessionRetrievalPurpose,
)
    requires
        !has_session(v.sessions, token),
    ensures
        retrieve_outcome(v, token, purpose) == Err::<AccountId, SessionRetrievalError>(
            SessionRetrievalError::InvalidToken,
        ),
{
}

/// While an account must still reset its password, each of its session
/// tokens is good for changing the password and for nothing else.
pub proof fn lemma_reset_required_gates_purpose(v: AuthorityView, token: Seq<u8>)
    requires
        has_session(v.sessions, token),
        account_of(v.accounts, session_account(v.sessions, token)).reset_required,
    ensures
        retrieve_outcome(v, token, SessionRetrievalPurpose::Other) == Err::<
            AccountId,
            SessionRetrievalError,
        >(SessionRetrievalError::InvalidPurpose),
        retrieve_outcome(v, token, SessionRetrievalPurpose::ChangePassword) == Ok::<
            AccountId,
            SessionRetrievalError,
        >(AccountId(session_account(v.sessions, token))),
{
}

/// Once an account's reset-required flag is clear, each of its session
/// tokens authenticates it for every purpose.
pub proof fn lemma_cleared_reset_allows_any_purpose(
    v: AuthorityView,
    token: Seq<u8>,
    purpose: SessionRetrievalPurpose,
)
    requires
        has_session(v.sessions, token),
        !account_of(v.accounts, session_account(v.sessions, token)).reset_required,
    ensures
        retrieve_outcome(v, token, purpose) == Ok::<AccountId, SessionRetrievalError>(
            AccountId(session_account(v.sessions, token)),
        ),
{
}

/// What a credential write means for lookups: the target account keeps its
/// identity, username, role and owner; its reset flag and digest are the
/// written ones; every other account resolves exactly as before; and no
/// account appears or disappears.
pub proof fn lemma_credential_update_account_of(
    pre: Seq<AccountModel>,
    post: Seq<AccountModel>,
    target: u128,
    pw: Seq<char>,
    reset: bool,
)
    requires
        account_ids_unique(pre),
        account_ids_unique(post),
        has_account(pre, target),
        credential_updated(pre, post, target, pw, reset),
    ensures
        has_account(post, target),
        account_of(post, target).reset_required == reset,
        account_of(post, target).hash == hashed(pw, account_of(post, target).salt),
        account_of(post, target).salt.len() == 16,
        account_of(post, target).username == account_of(pre, target).username,
        account_of(post, target).owner == account_of(pre, target).owner,
        account_of(post, target).role == account_of(pre, target).role,
        forall|x: u128| has_account(post, x) <==> has_account(pre, x),
        forall|x: u128|
            x != target && has_account(pre, x) ==> account_of(post, x) == account_of(pre, x),
{
    assert forall|k: int| 0 <= k < pre.len() implies (#[trigger] post[k]).id == pre[k].id by {
        if pre[k].id != target {
            assert(post[k] == pre[k]);
        }
    }
    let j = choose|j: int| 0 <= j < pre.len() && (#[trigger] pre[j]).id == target;
    assert(account_of(pre, target) == pre[j]);
    assert(post[j].id == target);
    crate::authority::lemma_account_at(post, j);
    assert(account_of(post, target) == post[j]);
    assert forall|x: u128| has_account(post, x) implies has_account(pre, x) by {
        let k = choose|k: int| 0 <= k < post.len() && (#[trigger] post[k]).id == x;
        assert(pre[k].id == x);
    }
    assert forall|x: u128| has_account(pre, x) implies has_account(post, x) by {
        let k = choose|k: int| 0 <= k < pre.len() && (#[trigger] pre[k]).id == x;
        assert(post[k].id == x);
    }
    assert forall|x: u128| x != target && has_account(pre, x) implies account_of(post, x)
        == account_of(pre, x) by {
        let k = choose|k: int| 0 <= k < pre.len() && (#[trigger] pre[k]).id == x;
        assert(account_of(pre, x) == pre[k]);
        assert(pre[k].id != target);
        assert(post[k] == pre[k]);
        crate::authority::lemma_account_at(post, k);
    }
}

/// What a successful account creation means for lookups: the new
/// identifier and the new username both resolve to the created account,
/// and every other account resolves exactly as before.
pub proof fn lemma_created_account_lookup(
    pre: AuthorityView,
    post: AuthorityView,
    id: AccountId,
    pw: Seq<char>,
    username: Seq<char>,
    role: AccountRole,
    owner: Option<u128>,
)
    requires
        account_ids_unique(post.accounts),
        account_usernames_unique(post.accounts),
        created_account_ok(pre, post, id, pw, username, role, owner),
    ensures
        has_account(post.accounts, id.0),
        account_of(post.accounts, id.0) == post.accounts.last(),
        has_username(post.accounts, username),
        account_named(post.accounts, username) == post.accounts.last(),
        forall|x: u128|
            x != id.0 ==> (has_account(post.accounts, x) <==> has_account(pre.accounts, x)),
        forall|x: u128|
            x != id.0 && has_account(pre.accounts, x) ==> account_of(post.accounts, x)
                == account_of(pre.accounts, x),
{
    let n = pre.accounts.len() as int;
    assert(post.accounts[n] == post.accounts.last());
    crate::authority::lemma_account_at(post.accounts, n);
    crate::authority::lemma_account_named_at(post.accounts, n);
    assert forall|x: u128| x != id.0 implies (has_account(post.accounts, x) <==> has_account(
        pre.accounts,
        x,
    )) by {
        if has_account(post.accounts, x) {
            let k = choose|k: int|
                0 <= k < post.accounts.len() && (#[trigger] post.accounts[k]).id == x;
            assert(k != n);
            assert(post.accounts[k] == pre.accounts[k]);
        }
        if has_account(pre.accounts, x) {
            let k = choose|k: int|
                0 <= k < pre.accounts.len() && (#[trigger] pre.accounts[k]).id == x;
            assert(post.accounts[k] == pre.accounts[k]);
        }
    }
    assert forall|x: u128| x != id.0 && has_account(pre.accounts, x) implies account_of(
        post.accounts,
        x,
    ) == account_of(pre.accounts, x) by {
        let k = choose|k: int|
            0 <= k < pre.accounts.len() && (#[trigger] pre.accounts[k]).id == x;
        assert(account_of(pre.accounts, x) == pre.accounts[k]);
        assert(post.accounts[k] == pre.accounts[k]);
        crate::authority::lemma_account_at(post.accounts, k);
    }
}

/// The standing ownership invariant of a well-formed state: every account
/// whose owner is still present is owned under a pair that the ownership
/// table allows.
pub proof fn lemma_hierarchy_invariant(v: AuthorityView, i: int)
    requires
        wf(v),
        0 <= i < v.accounts.len(),
        v.accounts[i].owner matches Some(o) && has_account(v.accounts, o),
    ensures
        spec_can_own(
            account_of(v.accounts, v.accounts[i].owner->Some_0).role,
            v.accounts[i].role,
        ),
{
    let o = v.accounts[i].owner->Some_0;
    let j = choose|j: int| 0 <= j < v.accounts.len() && (#[trigger] v.accounts[j]).id == o;
    assert(account_of(v.accounts, o) == v.accounts[j]);
    assert(v.accounts[i].owner == Some(v.accounts[j].id));
}

} // verus!
