use followgraph::database::Database;
use followgraph::pages::{
    can_manage_profile, CallbackQueryProps, FollowersQueryProps, PCreatePost, QueryProps,
};
use followgraph::username::check_username;
use followgraph::users::{RoleLevel, RoleLevelLog};

#[test]
fn owner_may_manage_own_profile() {
    let mut db = Database::new();
    db.create_user(String::from("alice")).unwrap();
    let viewer = db.get_user_by_username(String::from("alice")).unwrap();
    assert!(can_manage_profile(&viewer, &String::from("alice")));
    assert!(!can_manage_profile(&viewer, &String::from("bob")));
}

#[test]
fn manage_users_permission_grants_access() {
    let mut db = Database::new();
    db.add_level(RoleLevelLog {
        id: String::from("lv-mod"),
        level: RoleLevel {
            elevation: 0,
            name: String::from("member"),
            permissions: vec![String::from("ManageUsers")],
        },
    })
    .unwrap();
    db.create_user(String::from("mod")).unwrap();
    let viewer = db.get_user_by_username(String::from("mod")).unwrap();
    assert!(can_manage_profile(&viewer, &String::from("someone.else")));
}

#[test]
fn other_permissions_do_not_grant_access() {
    let mut db = Database::new();
    db.add_level(RoleLevelLog {
        id: String::from("lv-poster"),
        level: RoleLevel {
            elevation: 0,
            name: String::from("member"),
            permissions: vec![String::from("ManagePastes"), String::from("ManagePosts")],
        },
    })
    .unwrap();
    db.create_user(String::from("poster")).unwrap();
    let viewer = db.get_user_by_username(String::from("poster")).unwrap();
    assert!(!can_manage_profile(&viewer, &String::from("someone.else")));
}

#[test]
fn query_props_carry_their_fields() {
    let cb = CallbackQueryProps { callback: String::from("/home") };
    assert_eq!(cb.callback, "/home");
    let q = QueryProps { edit: Some(true), offset: Some(3) };
    assert_eq!(q.edit, Some(true));
    assert_eq!(q.offset, Some(3));
    let f = FollowersQueryProps { offset: None };
    assert_eq!(f.offset, None);
    let p = PCreatePost {
        content: String::from("hello"),
        author: String::from("alice"),
        reply: String::new(),
    };
    assert_eq!(p.author, "alice");
    assert!(p.reply.is_empty());
}

#[test]
fn username_check_matches_the_rule() {
    assert!(check_username("ab"));
    assert!(check_username("A-b_c.d!9"));
    assert!(!check_username(""));
    assert!(!check_username("a"));
    assert!(!check_username("with space"));
    assert!(!check_username("tab\tchar"));
    assert!(!check_username("caf\u{e9}"));
    let longest: String = "x".repeat(500);
    assert!(check_username(&longest));
    let too_long: String = "x".repeat(501);
    assert!(!check_username(&too_long));
}
