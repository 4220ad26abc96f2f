use group_chat::directory::Directory;
use group_chat::errors::ShopError;
use group_chat::group::{Group, NewGroup};
use group_chat::user::{NewUser, User};

#[test]
fn created_user_authenticates_with_its_password() {
    let mut dir = Directory::new();
    let created = NewUser::create(&mut dir, "id-1", "legit_user", "legit_pass").unwrap();
    assert_eq!(created.id, "id-1");
    assert_eq!(created.username, "legit_user");
    // the stored password is a hash, never the clear text
    assert_ne!(created.password, "legit_pass");

    let user = User::authenticate(&dir, "legit_user", "legit_pass").unwrap();
    assert_eq!(user.id, "id-1");
    assert_eq!(user.username, "legit_user");
}

#[test]
fn wrong_password_is_no_permission() {
    let mut dir = Directory::new();
    NewUser::create(&mut dir, "id-1", "legit_user", "legit_pass").unwrap();
    let err = User::authenticate(&dir, "legit_user", "wrong_pass").unwrap_err();
    assert!(matches!(err, ShopError::NoPermission(_)));
    assert_eq!(err.status_code(), 403);
}

#[test]
fn unknown_username_is_not_found() {
    let dir = Directory::new();
    let err = User::authenticate(&dir, "nobody", "whatever").unwrap_err();
    assert!(matches!(err, ShopError::NotFoundError(_)));
    assert_eq!(err.status_code(), 404);
}

#[test]
fn unreadable_stored_hash_is_a_bcrypt_error() {
    let mut dir = Directory::new();
    dir.users.push(User {
        id: String::from("id-9"),
        username: String::from("broken_user"),
        password: String::from("not a bcrypt hash"),
    });
    let err = User::authenticate(&dir, "broken_user", "anything").unwrap_err();
    assert!(matches!(err, ShopError::BcryptError(_)));
    assert_eq!(err.status_code(), 500);
}

#[test]
fn duplicate_username_already_exists() {
    let mut dir = Directory::new();
    NewUser::create(&mut dir, "id-1", "legit_user", "legit_pass").unwrap();
    let err = NewUser::create(&mut dir, "id-2", "legit_user", "other_pass").unwrap_err();
    assert!(matches!(err, ShopError::AlreadyExistsError));
    assert_eq!(err.status_code(), 208);
    assert_eq!(dir.users.len(), 1);
}

#[test]
fn get_by_username_finds_the_row() {
    let mut dir = Directory::new();
    NewUser::create(&mut dir, "id-1", "legit_user", "legit_pass").unwrap();
    let user = User::get_by_username(&dir, "legit_user").unwrap();
    assert_eq!(user.id, "id-1");
    let err = User::get_by_username(&dir, "absent_user").unwrap_err();
    assert!(matches!(err, ShopError::NotFoundError(_)));
}

#[test]
fn get_username_resolves_an_id() {
    let mut dir = Directory::new();
    NewUser::create(&mut dir, "id-1", "legit_user", "legit_pass").unwrap();
    assert_eq!(User::get_username(&dir, "id-1").unwrap(), "legit_user");
    let err = User::get_username(&dir, "id-404").unwrap_err();
    assert!(matches!(err, ShopError::NotFoundError(_)));
}

#[test]
fn test_register_short_password() {
    let user = NewUser { username: String::from("legit_user"), password: String::from("123") };
    let resp = user.validate();
    assert!(!resp.is_ok());
}

#[test]
fn test_register_short_username() {
    let user = NewUser { username: String::from("usr"), password: String::from("legit_pass") };
    let resp = user.validate();
    assert!(!resp.is_ok());
}

#[test]
fn long_enough_credentials_validate() {
    let user = NewUser {
        username: String::from("legit_user"),
        password: String::from("legit_pass"),
    };
    assert!(user.validate().is_ok());
}

#[test]
fn group_name_validation() {
    assert!(NewGroup { name: String::from("ab") }.validate().is_err());
    let err = NewGroup { name: String::from("ab") }.validate().unwrap_err();
    assert!(matches!(err, ShopError::ValidationErrors(_)));
    assert!(NewGroup { name: String::from("abc") }.validate().is_ok());
}

#[test]
fn membership_join_and_ownership() {
    let mut dir = Directory::new();
    let creator = NewUser::create(&mut dir, "id-1", "legit_user", "legit_pass").unwrap();
    let group = dir.add_group("g-1", "group_1", "id-1");
    assert_eq!(group.name, "group_1");
    assert!(dir.has_group("g-1"));
    assert!(!dir.has_group("g-2"));

    // no membership row yet: not a member, not an owner
    assert!(!dir.is_member("id-1", "g-1"));
    assert_eq!(creator.is_group_owner(&dir, "g-1").unwrap(), false);

    assert_eq!(creator.join_group(&mut dir, "g-1").unwrap(), 1);
    assert!(dir.is_member("id-1", "g-1"));
    assert_eq!(creator.is_group_owner(&dir, "g-1").unwrap(), true);

    // a second identical row makes the count 2, which is not "exactly one"
    creator.join_group(&mut dir, "g-1").unwrap();
    assert_eq!(creator.is_group_owner(&dir, "g-1").unwrap(), false);
}

#[test]
fn deleting_a_group_removes_its_rows() {
    let mut dir = Directory::new();
    let u1 = NewUser::create(&mut dir, "id-1", "first_user", "legit_pass").unwrap();
    let u2 = NewUser::create(&mut dir, "id-2", "other_user", "legit_pass").unwrap();
    dir.add_group("g-1", "group_1", "id-1");
    dir.add_group("g-2", "group_2", "id-2");
    u1.join_group(&mut dir, "g-1").unwrap();
    u2.join_group(&mut dir, "g-1").unwrap();
    u2.join_group(&mut dir, "g-2").unwrap();

    Group::delete(&mut dir, "g-1").unwrap();

    assert!(!dir.has_group("g-1"));
    assert!(dir.has_group("g-2"));
    assert!(!dir.is_member("id-1", "g-1"));
    assert!(!dir.is_member("id-2", "g-1"));
    assert!(dir.is_member("id-2", "g-2"));
    assert_eq!(dir.users.len(), 2);
}

#[test]
fn status_codes_match_the_variants() {
    assert_eq!(ShopError::InvalidInput.status_code(), 400);
    assert_eq!(ShopError::NotEnoughInStockError.status_code(), 400);
    assert_eq!(ShopError::JWTError(String::from("x")).status_code(), 500);
    assert_eq!(ShopError::ConnectionError(String::from("x")).status_code(), 408);
    assert_eq!(ShopError::ParseError(String::from("x")).status_code(), 400);
    assert_eq!(ShopError::ValidationErrors(String::from("x")).status_code(), 500);
}
