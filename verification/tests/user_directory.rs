use followgraph::database::Database;
use followgraph::errors::Error;
use followgraph::users::{RoleLevel, RoleLevelLog, UserMetadata};

fn meta(about: &str, secondary_token: Option<String>) -> UserMetadata {
    UserMetadata {
        about: String::from(about),
        avatar_url: None,
        secondary_token,
        nickname: None,
    }
}

#[test]
fn create_user_succeeds_then_repeat_already_exists() {
    let mut db = Database::new();
    let created = db.create_user(String::from("alice")).unwrap();
    assert!(!created.id_hashed.is_empty());
    let again = db.create_user(String::from("alice"));
    assert_eq!(again.unwrap_err(), Error::AlreadyExists);
}

#[test]
fn create_user_rejects_short_long_and_bad_characters() {
    let mut db = Database::new();
    assert_eq!(db.create_user(String::from("")).unwrap_err(), Error::InvalidInput);
    assert_eq!(db.create_user(String::from("a")).unwrap_err(), Error::InvalidInput);
    assert_eq!(db.create_user("a".repeat(501)).unwrap_err(), Error::InvalidInput);
    assert_eq!(db.create_user(String::from("has space")).unwrap_err(), Error::InvalidInput);
    assert_eq!(db.create_user(String::from("semi;colon")).unwrap_err(), Error::InvalidInput);
    // no row was persisted by any rejected call
    assert_eq!(db.get_user_by_username(String::from("")).unwrap_err(), Error::NotFound);
    assert_eq!(db.get_user_by_username(String::from("a")).unwrap_err(), Error::NotFound);
    assert_eq!(db.get_user_by_username(String::from("has space")).unwrap_err(), Error::NotFound);
}

#[test]
fn create_user_accepts_boundary_lengths_and_charset() {
    let mut db = Database::new();
    assert!(db.create_user(String::from("ab")).is_ok());
    assert!(db.create_user("b".repeat(500)).is_ok());
    assert!(db.create_user(String::from("Az09_-.!")).is_ok());
}

#[test]
fn created_user_has_default_fields() {
    let mut db = Database::new();
    db.create_user(String::from("alice")).unwrap();
    let fu = db.get_user_by_username(String::from("alice")).unwrap();
    assert_eq!(fu.user.username, "alice");
    assert_eq!(fu.user.role, "member");
    assert_eq!(fu.user.metadata.about, "");
    assert_eq!(fu.user.metadata.avatar_url, None);
    assert_eq!(fu.user.metadata.secondary_token, None);
    assert_eq!(fu.user.metadata.nickname, Some(String::from("alice")));
    // default registry: the role resolves to the lowest-privilege level
    assert_eq!(fu.level.elevation, 0);
    assert_eq!(fu.level.name, "member");
    assert!(fu.level.permissions.is_empty());
}

#[test]
fn hashed_id_lookups_resolve_the_account() {
    let mut db = Database::new();
    let created = db.create_user(String::from("alice")).unwrap();
    // a SHA-256 hex digest: 64 characters, and never the input itself
    assert_eq!(created.id_hashed.len(), 64);
    assert_ne!(created.id_hashed, created.id_unhashed);
    let by_hashed = db.get_user_by_hashed(created.id_hashed.clone()).unwrap();
    assert_eq!(by_hashed.user.username, "alice");
    let by_unhashed = db.get_user_by_unhashed(created.id_unhashed.clone()).unwrap();
    assert_eq!(by_unhashed.user.id_hashed, created.id_hashed);
    assert_eq!(db.get_user_by_hashed(created.id_unhashed).unwrap_err(), Error::NotFound);
}

#[test]
fn secondary_token_lookup_falls_back() {
    let mut db = Database::new();
    db.create_user(String::from("alice")).unwrap();
    // store the hash of the token, as the backend does
    let token_hash = dorsal::utility::hash(String::from("recovery-token"));
    let r = db.edit_user_metadata_by_name(
        String::from("alice"),
        meta("", Some(token_hash)),
    );
    assert!(r.is_ok());
    let by_st = db.get_user_by_unhashed_st(String::from("recovery-token")).unwrap();
    assert_eq!(by_st.user.username, "alice");
    // the unhashed lookup falls back to the secondary token
    let by_unhashed = db.get_user_by_unhashed(String::from("recovery-token")).unwrap();
    assert_eq!(by_unhashed.user.username, "alice");
    assert_eq!(
        db.get_user_by_unhashed(String::from("wrong-token")).unwrap_err(),
        Error::NotFound
    );
}

#[test]
fn edit_metadata_replaces_and_patches_cache() {
    let mut db = Database::new();
    db.create_user(String::from("alice")).unwrap();
    // warm the cache through the username lookup
    db.get_user_by_username(String::from("alice")).unwrap();
    let cached = db.get_cached_user(&String::from("alice")).unwrap();
    assert_eq!(cached.metadata.about, "");
    db.edit_user_metadata_by_name(String::from("alice"), meta("hello", None)).unwrap();
    let fu = db.get_user_by_username(String::from("alice")).unwrap();
    assert_eq!(fu.user.metadata.about, "hello");
    // the cached snapshot was patched in place, not dropped
    let cached = db.get_cached_user(&String::from("alice")).unwrap();
    assert_eq!(cached.metadata.about, "hello");
}

#[test]
fn edit_metadata_unknown_user_not_found() {
    let mut db = Database::new();
    assert_eq!(
        db.edit_user_metadata_by_name(String::from("ghost"), meta("x", None)).unwrap_err(),
        Error::NotFound
    );
}

#[test]
fn ban_sets_role_and_patches_cache() {
    let mut db = Database::new();
    db.create_user(String::from("alice")).unwrap();
    db.get_user_by_username(String::from("alice")).unwrap();
    assert!(db.ban_user_by_name(String::from("alice")).is_ok());
    // the cached snapshot now carries the banned role
    let cached = db.get_cached_user(&String::from("alice")).unwrap();
    assert_eq!(cached.role, "banned");
    // a banned account is reported as absent by lookups
    assert_eq!(
        db.get_user_by_username(String::from("alice")).unwrap_err(),
        Error::NotFound
    );
    // and cannot be banned again
    assert_eq!(db.ban_user_by_name(String::from("alice")).unwrap_err(), Error::NotFound);
    // but the username stays taken: the row is never dropped
    assert_eq!(
        db.create_user(String::from("alice")).unwrap_err(),
        Error::AlreadyExists
    );
}

#[test]
fn ban_forbidden_for_elevated_role() {
    let mut db = Database::new();
    db.add_level(RoleLevelLog {
        id: String::from("lv1"),
        level: RoleLevel {
            elevation: 5,
            name: String::from("member"),
            permissions: vec![String::from("ManageUsers")],
        },
    })
    .unwrap();
    db.create_user(String::from("boss")).unwrap();
    assert_eq!(db.ban_user_by_name(String::from("boss")).unwrap_err(), Error::Forbidden);
    // the account is untouched
    let fu = db.get_user_by_username(String::from("boss")).unwrap();
    assert_eq!(fu.user.role, "member");
    assert_eq!(fu.level.elevation, 5);
}

#[test]
fn ban_unknown_user_not_found() {
    let mut db = Database::new();
    assert_eq!(db.ban_user_by_name(String::from("ghost")).unwrap_err(), Error::NotFound);
}

#[test]
fn role_registry_resolves_and_defaults() {
    let mut db = Database::new();
    let stored = RoleLevelLog {
        id: String::from("lv-admin"),
        level: RoleLevel {
            elevation: 9,
            name: String::from("admin"),
            permissions: vec![String::from("ManageUsers")],
        },
    };
    db.add_level(stored).unwrap();
    let found = db.get_level_by_role(String::from("admin"));
    assert_eq!(found.id, "lv-admin");
    assert_eq!(found.level.elevation, 9);
    assert_eq!(found.level.permissions, vec![String::from("ManageUsers")]);
    // a second entry under the same role name is refused
    let dup = db.add_level(RoleLevelLog {
        id: String::from("lv-admin-2"),
        level: RoleLevel { elevation: 1, name: String::from("admin"), permissions: vec![] },
    });
    assert_eq!(dup.unwrap_err(), Error::AlreadyExists);
    // an unknown role name resolves to the default lowest-privilege level
    let missing = db.get_level_by_role(String::from("nobody"));
    assert_eq!(missing.id, "");
    assert_eq!(missing.level.name, "member");
    assert_eq!(missing.level.elevation, 0);
    assert!(missing.level.permissions.is_empty());
}

#[test]
fn error_messages_name_each_failure() {
    assert_eq!(Error::InvalidInput.message(), "Invalid input");
    assert_eq!(Error::AlreadyExists.message(), "User already exists");
    assert_eq!(Error::NotFound.message(), "Not found");
    assert_eq!(Error::Forbidden.message(), "User must be of level elevation 0");
    assert_eq!(Error::Storage.message(), "Storage failure");
}
