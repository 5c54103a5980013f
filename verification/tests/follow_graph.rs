use followgraph::database::Database;
use followgraph::errors::Error;
use followgraph::follows::UserFollow;

fn edge(user: &str, is_following: &str) -> UserFollow {
    UserFollow { user: String::from(user), is_following: String::from(is_following) }
}

fn db_with(users: &[&str]) -> Database {
    let mut db = Database::new();
    for u in users {
        db.create_user(String::from(*u)).unwrap();
    }
    db
}

#[test]
fn toggle_self_follow_invalid_input() {
    let mut db = db_with(&["alice"]);
    let r = db.toggle_user_follow(&edge("alice", "alice"));
    assert_eq!(r.unwrap_err(), Error::InvalidInput);
    assert!(db.get_follow_by_user(String::from("alice"), String::from("alice")).is_none());
    assert_eq!(db.get_user_follow_count(String::from("alice")), 0);
}

#[test]
fn toggle_unknown_user_not_found() {
    let mut db = db_with(&["alice"]);
    assert_eq!(db.toggle_user_follow(&edge("alice", "ghost")).unwrap_err(), Error::NotFound);
    assert_eq!(db.toggle_user_follow(&edge("ghost", "alice")).unwrap_err(), Error::NotFound);
    assert!(db.get_follow_by_user(String::from("alice"), String::from("ghost")).is_none());
    assert!(db.get_follow_by_user(String::from("ghost"), String::from("alice")).is_none());
}

#[test]
fn toggle_banned_user_not_found() {
    let mut db = db_with(&["alice", "bob"]);
    db.ban_user_by_name(String::from("bob")).unwrap();
    assert_eq!(db.toggle_user_follow(&edge("alice", "bob")).unwrap_err(), Error::NotFound);
}

#[test]
fn toggle_twice_restores_prior_state() {
    let mut db = db_with(&["alice", "bob"]);
    db.toggle_user_follow(&edge("alice", "bob")).unwrap();
    let found = db.get_follow_by_user(String::from("alice"), String::from("bob")).unwrap();
    assert_eq!(found.logtype, "follow");
    assert_eq!(found.content.user, "alice");
    assert_eq!(found.content.is_following, "bob");
    db.toggle_user_follow(&edge("alice", "bob")).unwrap();
    assert!(db.get_follow_by_user(String::from("alice"), String::from("bob")).is_none());
}

#[test]
fn toggle_is_directed() {
    let mut db = db_with(&["alice", "bob"]);
    db.toggle_user_follow(&edge("alice", "bob")).unwrap();
    assert!(db.get_follow_by_user(String::from("bob"), String::from("alice")).is_none());
    assert_eq!(db.get_user_follow_count(String::from("bob")), 1);
    assert_eq!(db.get_user_follow_count(String::from("alice")), 0);
}

#[test]
fn listings_show_the_edge_on_both_sides() {
    let mut db = db_with(&["alice", "bob"]);
    db.toggle_user_follow(&edge("alice", "bob")).unwrap();
    let followers = db.get_user_followers(String::from("bob"), None);
    assert_eq!(followers.len(), 1);
    assert_eq!(followers[0].content.user, "alice");
    let following = db.get_user_following(String::from("alice"), None);
    assert_eq!(following.len(), 1);
    assert_eq!(following[0].content.is_following, "bob");
}

#[test]
fn counts_equal_rows_across_all_pages() {
    let mut db = Database::new();
    db.create_user(String::from("hub")).unwrap();
    for i in 0u32..60 {
        let name = format!("user{:02}", i);
        db.create_user(name.clone()).unwrap();
        db.toggle_user_follow(&edge(&name, "hub")).unwrap();
    }
    let count = db.get_user_follow_count(String::from("hub"));
    assert_eq!(count, 60);
    let page0 = db.get_user_followers(String::from("hub"), None);
    let page1 = db.get_user_followers(String::from("hub"), Some(50));
    let page2 = db.get_user_followers(String::from("hub"), Some(100));
    assert_eq!(page0.len(), 50);
    assert_eq!(page1.len(), 10);
    assert_eq!(page2.len(), 0);
    assert_eq!(page0.len() + page1.len() + page2.len(), count);
    // a page never repeats a row of an earlier page
    for l0 in &page0 {
        for l1 in &page1 {
            assert_ne!(l0.id, l1.id);
        }
    }
}

#[test]
fn listing_offset_defaults_to_zero() {
    let mut db = db_with(&["alice", "bob"]);
    db.toggle_user_follow(&edge("alice", "bob")).unwrap();
    let by_none = db.get_user_followers(String::from("bob"), None);
    let by_zero = db.get_user_followers(String::from("bob"), Some(0));
    let by_negative = db.get_user_followers(String::from("bob"), Some(-7));
    assert_eq!(by_none.len(), 1);
    assert_eq!(by_zero.len(), 1);
    assert_eq!(by_negative.len(), 1);
    assert_eq!(by_none[0].id, by_zero[0].id);
    assert_eq!(by_none[0].id, by_negative[0].id);
}

#[test]
fn listings_are_newest_first() {
    let mut db = Database::new();
    db.create_user(String::from("hub")).unwrap();
    for name in ["first", "second", "third"] {
        db.create_user(String::from(name)).unwrap();
        db.toggle_user_follow(&edge(name, "hub")).unwrap();
    }
    let followers = db.get_user_followers(String::from("hub"), None);
    assert_eq!(followers.len(), 3);
    for w in followers.windows(2) {
        assert!(w[0].timestamp >= w[1].timestamp);
    }
}

#[test]
fn following_count_tracks_toggles_end_to_end() {
    let mut db = Database::new();
    let alice = db.create_user(String::from("alice")).unwrap();
    let bob = db.create_user(String::from("bob")).unwrap();
    assert_ne!(alice.id_hashed, bob.id_hashed);
    db.toggle_user_follow(&edge("alice", "bob")).unwrap();
    assert_eq!(db.get_user_following_count(String::from("alice")), 1);
    db.toggle_user_follow(&edge("alice", "bob")).unwrap();
    assert_eq!(db.get_user_following_count(String::from("alice")), 0);
}
