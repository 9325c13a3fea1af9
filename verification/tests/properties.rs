//! Concrete checks of the library's stated properties: the ownership
//! table, the no-mutation-on-failure rule, the credential lifecycle, the
//! error taxonomies, and the conversion helpers.
use account_authority::account::{
    AccountChangePasswordError, AccountCreationError, AccountId, AccountLoginError,
    AccountOwnerManageError, AccountRole, SessionRetrievalError, SessionRetrievalPurpose,
    SessionToken,
};
use account_authority::authority::AccountAuthority;
use account_authority::interval::convert_interval;
use account_authority::phone::phone_pretty;

const ALPHABET: &str = "ABCDEFGHIJKLMNOPQRSTUVWXYZabcdefghijklmnopqrstuvwxyz0123456789!@#$%^&*()-_=+";

#[test]
fn ownership_table_is_exactly_two_pairs() {
    let roles = [AccountRole::User, AccountRole::Admin, AccountRole::SiteAdmin];
    for owner in roles {
        for subject in roles {
            let expected = (owner == AccountRole::SiteAdmin && subject == AccountRole::Admin)
                || (owner == AccountRole::Admin && subject == AccountRole::User);
            assert_eq!(owner.can_own(subject), expected);
        }
    }
}

#[test]
fn invalid_owner_role_does_not_mutate_store() {
    let mut mgr = AccountAuthority::new();
    let (root_id, _) = mgr.create_site_admin("root").unwrap();
    let (admin_id, _) = mgr
        .create_account(&root_id, AccountRole::Admin, "a1")
        .unwrap();

    // An admin may not create an admin; the failed call must not have
    // claimed the username.
    let res = mgr.create_account(&admin_id, AccountRole::Admin, "b1");
    assert!(matches!(res, Err(AccountCreationError::InvalidOwnerRole)));
    assert!(matches!(
        mgr.login("b1", "anything"),
        Err(AccountLoginError::UserNotFound)
    ));
    let (_, _) = mgr
        .create_account(&root_id, AccountRole::Admin, "b1")
        .expect("username must still be free after the failed creation");
}

#[test]
fn new_account_requires_password_change_before_use() {
    let mut mgr = AccountAuthority::new();
    let (root_id, _) = mgr.create_site_admin("root").unwrap();
    let (admin_id, temp_pass) = mgr
        .create_account(&root_id, AccountRole::Admin, "a1")
        .unwrap();

    let token = mgr.login("a1", &temp_pass).unwrap();
    assert!(matches!(
        mgr.retrieve_account(&token, SessionRetrievalPurpose::Other),
        Err(SessionRetrievalError::InvalidPurpose)
    ));
    mgr.change_password(&admin_id, &temp_pass, "fresh password")
        .unwrap();
    assert_eq!(
        mgr.retrieve_account(&token, SessionRetrievalPurpose::Other)
            .unwrap(),
        admin_id
    );
}

#[test]
fn owner_checked_operations_collapse_existence_and_authorization() {
    let mut mgr = AccountAuthority::new();
    let (root_id, _) = mgr.create_site_admin("root").unwrap();
    let (admin_id, _) = mgr
        .create_account(&root_id, AccountRole::Admin, "a1")
        .unwrap();
    let (user_id, _) = mgr
        .create_account(&admin_id, AccountRole::User, "u1")
        .unwrap();

    // root exists and user exists, but root is not the literal owner of
    // the user account: both calls must report UserNotFound.
    assert!(matches!(
        mgr.reset_password(&root_id, &user_id),
        Err(AccountOwnerManageError::UserNotFound)
    ));
    assert!(matches!(
        mgr.delete_account(&root_id, &user_id),
        Err(AccountOwnerManageError::UserNotFound)
    ));
    // A target that does not exist at all reads the same.
    let ghost_id = AccountId::new(u128::MAX - 1);
    assert!(matches!(
        mgr.reset_password(&admin_id, &ghost_id),
        Err(AccountOwnerManageError::UserNotFound)
    ));
    assert!(matches!(
        mgr.delete_account(&admin_id, &ghost_id),
        Err(AccountOwnerManageError::UserNotFound)
    ));
}

#[test]
fn login_distinguishes_missing_user_from_wrong_password() {
    let mut mgr = AccountAuthority::new();
    let (root_id, _) = mgr.create_site_admin("root").unwrap();
    let (_, temp_pass) = mgr
        .create_account(&root_id, AccountRole::Admin, "a1")
        .unwrap();

    assert!(matches!(
        mgr.login("a1", "wrong password"),
        Err(AccountLoginError::IncorrectPassword)
    ));
    assert!(matches!(
        mgr.login("nobody", &temp_pass),
        Err(AccountLoginError::UserNotFound)
    ));
}

#[test]
fn destroy_session_is_idempotent() {
    let mut mgr = AccountAuthority::new();
    let (_, temp_pass) = mgr.create_site_admin("root").unwrap();
    let token = mgr.login("root", &temp_pass).unwrap();

    mgr.destroy_session(&token);
    assert!(matches!(
        mgr.retrieve_account(&token, SessionRetrievalPurpose::ChangePassword),
        Err(SessionRetrievalError::InvalidToken)
    ));
    // Destroying the same token again is a no-op, not an error.
    mgr.destroy_session(&token);
    assert!(matches!(
        mgr.retrieve_account(&token, SessionRetrievalPurpose::Other),
        Err(SessionRetrievalError::InvalidToken)
    ));
}

#[test]
fn hierarchy_scenario_multiple_admins_allowed_users_cannot_create() {
    let mut mgr = AccountAuthority::new();
    let (a, _) = mgr.create_site_admin("A").unwrap();
    let (b, _) = mgr.create_account(&a, AccountRole::Admin, "B").unwrap();
    let (c, _) = mgr.create_account(&b, AccountRole::User, "C").unwrap();

    // A second admin under the same site admin is allowed.
    let second = mgr.create_account(&a, AccountRole::Admin, "x");
    assert!(second.is_ok());

    // A user cannot create accounts of any role.
    let res = mgr.create_account(&c, AccountRole::User, "y");
    assert!(matches!(res, Err(AccountCreationError::InvalidOwnerRole)));
}

#[test]
fn reset_password_invalidates_old_credential() {
    let mut mgr = AccountAuthority::new();
    let (a, _) = mgr.create_site_admin("A").unwrap();
    let (b, _) = mgr.create_account(&a, AccountRole::Admin, "B").unwrap();
    let (c, old_pass) = mgr.create_account(&b, AccountRole::User, "C").unwrap();

    let new_pass = mgr.reset_password(&b, &c).expect("owner resets password");
    assert!(matches!(
        mgr.login("C", &old_pass),
        Err(AccountLoginError::IncorrectPassword)
    ));
    let token = mgr.login("C", &new_pass).expect("new temporary password works");
    assert_eq!(token.0.len(), 32);
}

#[test]
fn change_password_round_trip_clears_reset_state() {
    let mut mgr = AccountAuthority::new();
    let (a, _) = mgr.create_site_admin("A").unwrap();
    let (b, _) = mgr.create_account(&a, AccountRole::Admin, "B").unwrap();
    let (c, old_pass) = mgr.create_account(&b, AccountRole::User, "C").unwrap();

    mgr.change_password(&c, &old_pass, "brand new password")
        .unwrap();
    let token = mgr.login("C", "brand new password").unwrap();
    assert_eq!(
        mgr.retrieve_account(&token, SessionRetrievalPurpose::Other)
            .unwrap(),
        c
    );
}

#[test]
fn change_password_error_taxonomy() {
    let mut mgr = AccountAuthority::new();
    let (root_id, temp_pass) = mgr.create_site_admin("root").unwrap();

    let ghost_id = AccountId::new(u128::MAX - 1);
    assert!(matches!(
        mgr.change_password(&ghost_id, &temp_pass, "next"),
        Err(AccountChangePasswordError::UserNotFound)
    ));
    assert!(matches!(
        mgr.change_password(&root_id, "not the password", "next"),
        Err(AccountChangePasswordError::IncorrectPassword)
    ));
    assert!(mgr.change_password(&root_id, &temp_pass, "next").is_ok());
    let token = mgr.login("root", "next").unwrap();
    assert_eq!(
        mgr.retrieve_account(&token, SessionRetrievalPurpose::Other)
            .unwrap(),
        root_id
    );
}

#[test]
fn duplicate_username_is_an_opaque_store_failure() {
    let mut mgr = AccountAuthority::new();
    let (root_id, _) = mgr.create_site_admin("root").unwrap();
    let first = mgr.create_account(&root_id, AccountRole::Admin, "taken");
    assert!(first.is_ok());
    let second = mgr.create_account(&root_id, AccountRole::Admin, "taken");
    assert!(matches!(second, Err(AccountCreationError::Other(_))));
}

#[test]
fn unknown_token_is_invalid_for_every_purpose() {
    let mgr = AccountAuthority::new();
    let token = SessionToken::new([7u8; 32]);
    assert!(matches!(
        mgr.retrieve_account(&token, SessionRetrievalPurpose::Other),
        Err(SessionRetrievalError::InvalidToken)
    ));
    assert!(matches!(
        mgr.retrieve_account(&token, SessionRetrievalPurpose::ChangePassword),
        Err(SessionRetrievalError::InvalidToken)
    ));
}

#[test]
fn temporary_passwords_draw_from_the_fixed_alphabet() {
    let mut mgr = AccountAuthority::new();
    let (_, temp_pass) = mgr.create_site_admin("root").unwrap();
    assert_eq!(temp_pass.chars().count(), 16);
    for ch in temp_pass.chars() {
        assert!(ALPHABET.contains(ch), "unexpected character {ch:?}");
    }
}

#[test]
fn distinct_logins_issue_distinct_tokens() {
    let mut mgr = AccountAuthority::new();
    let (_, temp_pass) = mgr.create_site_admin("root").unwrap();
    let t1 = mgr.login("root", &temp_pass).unwrap();
    let t2 = mgr.login("root", &temp_pass).unwrap();
    assert_ne!(t1, t2);
    // Both sessions are live at once.
    assert!(mgr
        .retrieve_account(&t1, SessionRetrievalPurpose::ChangePassword)
        .is_ok());
    assert!(mgr
        .retrieve_account(&t2, SessionRetrievalPurpose::ChangePassword)
        .is_ok());
}

#[test]
fn hashing_is_deterministic_per_account_salt() {
    let mut mgr = AccountAuthority::new();
    let (_, temp_pass) = mgr.create_site_admin("root").unwrap();
    // The same password verifies repeatedly against the stored digest.
    assert!(mgr.login("root", &temp_pass).is_ok());
    assert!(mgr.login("root", &temp_pass).is_ok());
    // A password differing in a single character does not.
    let mut altered = temp_pass.clone();
    let last = altered.pop().unwrap();
    altered.push(if last == 'A' { 'B' } else { 'A' });
    assert!(matches!(
        mgr.login("root", &altered),
        Err(AccountLoginError::IncorrectPassword)
    ));
}

#[test]
fn deleting_an_account_destroys_its_sessions() {
    let mut mgr = AccountAuthority::new();
    let (a, _) = mgr.create_site_admin("A").unwrap();
    let (b, pw_b) = mgr.create_account(&a, AccountRole::Admin, "B").unwrap();
    let (_, pw_b2) = mgr.create_account(&a, AccountRole::Admin, "B2").unwrap();
    let token_b = mgr.login("B", &pw_b).unwrap();
    let token_b2 = mgr.login("B2", &pw_b2).unwrap();

    mgr.delete_account(&a, &b).unwrap();
    assert!(matches!(
        mgr.retrieve_account(&token_b, SessionRetrievalPurpose::ChangePassword),
        Err(SessionRetrievalError::InvalidToken)
    ));
    // The sibling's session survives.
    assert!(mgr
        .retrieve_account(&token_b2, SessionRetrievalPurpose::ChangePassword)
        .is_ok());
}

#[test]
fn phone_pretty_formats_ten_digits() {
    assert_eq!(phone_pretty("0123456789"), "(012) 345-6789");
    assert_eq!(phone_pretty("9876543210"), "(987) 654-3210");
    // Extra characters past the tenth are ignored.
    assert_eq!(phone_pretty("0123456789000"), "(012) 345-6789");
}

#[test]
fn convert_interval_returns_the_microsecond_count() {
    assert_eq!(convert_interval(0, 0, 0), 0);
    assert_eq!(convert_interval(0, 0, 900_000_000), 900_000_000);
    assert_eq!(convert_interval(0, 0, 21_600_000_000), 21_600_000_000);
}

#[test]
fn create_account_requires_existing_owner() {
    let mut mgr = AccountAuthority::new();
    let ghost_id = AccountId::new(42);
    let res = mgr.create_account(&ghost_id, AccountRole::Admin, "a1");
    assert!(matches!(res, Err(AccountCreationError::OwnerNotFound)));
}

#[test]
fn purpose_gate_decision_table() {
    assert!(SessionRetrievalPurpose::ChangePassword.allowed_when(false));
    assert!(SessionRetrievalPurpose::ChangePassword.allowed_when(true));
    assert!(SessionRetrievalPurpose::Other.allowed_when(false));
    assert!(!SessionRetrievalPurpose::Other.allowed_when(true));
}
