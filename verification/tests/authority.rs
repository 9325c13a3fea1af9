//! The account-manager scenarios: creation under the ownership hierarchy,
//! owner-checked resets and deletes, login, and the session lifecycle.
use account_authority::account::{
    AccountCreationError, AccountLoginError, AccountOwnerManageError, AccountRole,
    SessionRetrievalError, SessionRetrievalPurpose,
};
use account_authority::authority::AccountAuthority;

#[test]
fn site_admin_can_create_admin() {
    let mut mgr = AccountAuthority::new();

    let (site_admin_id, _) = mgr
        .unchecked_create_account("root", AccountRole::SiteAdmin, None)
        .unwrap();
    let (admin_id, temp_pass) = mgr
        .create_account(&site_admin_id, AccountRole::Admin, "admin1")
        .expect("should create admin");

    assert_ne!(admin_id, site_admin_id);
    assert!(!temp_pass.is_empty());
}

#[test]
fn admin_cannot_create_admin() {
    let mut mgr = AccountAuthority::new();

    let (site_admin_id, _) = mgr
        .unchecked_create_account("root", AccountRole::SiteAdmin, None)
        .unwrap();
    let (admin_id, _) = mgr
        .create_account(&site_admin_id, AccountRole::Admin, "a1")
        .unwrap();

    let result = mgr.create_account(&admin_id, AccountRole::Admin, "illegal");

    assert!(matches!(result, Err(AccountCreationError::InvalidOwnerRole)));
}

#[test]
fn admin_can_create_user() {
    let mut mgr = AccountAuthority::new();

    let (site_admin_id, _) = mgr
        .unchecked_create_account("root", AccountRole::SiteAdmin, None)
        .unwrap();
    let (admin_id, _) = mgr
        .create_account(&site_admin_id, AccountRole::Admin, "a1")
        .unwrap();

    let (user_id, temp_pass) = mgr
        .create_account(&admin_id, AccountRole::User, "user1")
        .unwrap();

    assert_ne!(user_id, admin_id);
    assert!(!temp_pass.is_empty());
}

#[test]
fn user_cannot_create_any_account() {
    let mut mgr = AccountAuthority::new();

    let (site_admin_id, _) = mgr
        .unchecked_create_account("root", AccountRole::SiteAdmin, None)
        .unwrap();
    let (admin_id, _) = mgr
        .create_account(&site_admin_id, AccountRole::Admin, "a1")
        .unwrap();
    let (user_id, _) = mgr
        .create_account(&admin_id, AccountRole::User, "u1")
        .unwrap();

    let result = mgr.create_account(&user_id, AccountRole::User, "u2");

    assert!(matches!(result, Err(AccountCreationError::InvalidOwnerRole)));
}

#[test]
fn password_reset_requires_correct_owner() {
    let mut mgr = AccountAuthority::new();

    let (site_admin_id, _) = mgr
        .unchecked_create_account("root", AccountRole::SiteAdmin, None)
        .unwrap();
    let (admin_id, _) = mgr
        .create_account(&site_admin_id, AccountRole::Admin, "a1")
        .unwrap();
    let (user_id, _) = mgr
        .create_account(&admin_id, AccountRole::User, "u1")
        .unwrap();

    // Wrong owner
    let wrong_result = mgr.reset_password(&user_id, &user_id);

    assert!(matches!(
        wrong_result,
        Err(AccountOwnerManageError::UserNotFound)
    ));

    // Correct owner
    let new_pw = mgr
        .reset_password(&admin_id, &user_id)
        .expect("admin should reset user password");

    assert!(!new_pw.is_empty());
}

#[test]
fn delete_account_removes_user_and_resources() {
    let mut mgr = AccountAuthority::new();

    let (site_admin_id, _) = mgr
        .unchecked_create_account("root", AccountRole::SiteAdmin, None)
        .unwrap();
    let (admin_id, _) = mgr
        .create_account(&site_admin_id, AccountRole::Admin, "a1")
        .unwrap();
    let (user_id, _) = mgr
        .create_account(&admin_id, AccountRole::User, "u1")
        .unwrap();

    // Deleting with wrong owner must fail
    let wrong_res = mgr.delete_account(&user_id, &admin_id);
    assert!(matches!(wrong_res, Err(AccountOwnerManageError::UserNotFound)));

    // Delete with correct owner
    mgr.delete_account(&admin_id, &user_id)
        .expect("admin should delete user");

    // Ensure user can no longer log in
    let login_res = mgr.login("u1", "anything");
    assert!(matches!(login_res, Err(AccountLoginError::UserNotFound)));
}

#[test]
fn login_requires_correct_password() {
    let mut mgr = AccountAuthority::new();

    let (site_admin_id, _) = mgr
        .unchecked_create_account("root", AccountRole::SiteAdmin, None)
        .unwrap();
    let (_, temp_pass) = mgr
        .create_account(&site_admin_id, AccountRole::Admin, "a1")
        .unwrap();

    // Wrong password
    let wrong = mgr.login("a1", "badpw");
    assert!(matches!(wrong, Err(AccountLoginError::IncorrectPassword)));

    // Correct
    let token = mgr.login("a1", &temp_pass).expect("valid login");
    assert_eq!(token.0.len(), 32);
}

#[test]
fn destroy_session_invalidates_token() {
    let mut mgr = AccountAuthority::new();

    let (site_admin_id, _) = mgr
        .unchecked_create_account("root", AccountRole::SiteAdmin, None)
        .unwrap();
    let (_, temp_pass) = mgr
        .create_account(&site_admin_id, AccountRole::Admin, "a1")
        .unwrap();

    let token = mgr.login("a1", &temp_pass).expect("should log in");

    // Destroy it
    mgr.destroy_session(&token);

    // Retrieval should now fail
    let res = mgr.retrieve_account(&token, SessionRetrievalPurpose::Other);

    assert!(matches!(res, Err(SessionRetrievalError::InvalidToken)));
}

#[test]
fn session_retrieval_requires_valid_token() {
    let mut mgr = AccountAuthority::new();

    let (site_admin_id, _) = mgr
        .unchecked_create_account("root", AccountRole::SiteAdmin, None)
        .unwrap();
    let (admin_id, temp_pass) = mgr
        .create_account(&site_admin_id, AccountRole::Admin, "a1")
        .unwrap();

    let token = mgr.login("a1", &temp_pass).expect("login succeeds");

    let retrieved = mgr
        .retrieve_account(&token, SessionRetrievalPurpose::ChangePassword)
        .expect("session retrieval must succeed");
    assert_eq!(
        retrieved, admin_id,
        "retrieve_account should return correct account"
    );

    assert!(matches!(
        mgr.retrieve_account(&token, SessionRetrievalPurpose::Other),
        Err(SessionRetrievalError::InvalidPurpose)
    ));

    mgr.change_password(&admin_id, &temp_pass, &temp_pass).unwrap();

    let retrieved = mgr
        .retrieve_account(&token, SessionRetrievalPurpose::Other)
        .expect("session retrieval must succeed");
    assert_eq!(
        retrieved, admin_id,
        "retrieve_account should return correct account"
    );

    let retrieved = mgr
        .retrieve_account(&token, SessionRetrievalPurpose::ChangePassword)
        .expect("session retrieval must succeed");
    assert_eq!(
        retrieved, admin_id,
        "retrieve_account should return correct account"
    );
}
