//! The service value holding the whole persisted state: account rows, the
//! follow graph, the role registry, and the cache of account snapshots.

use vstd::prelude::*;

use crate::errors::Error;
use crate::follows::Log;
use crate::follows::UserFollow;
use crate::follows::edge_pairs;
use crate::follows::eff_offset;
use crate::follows::follow_rows;
use crate::follows::followers_of;
use crate::follows::following_of;
use crate::follows::has_edge;
use crate::follows::is_edge;
use crate::follows::lemma_edge_pairs_insert;
use crate::follows::lemma_edge_pairs_remove;
use crate::follows::lemma_followers_push;
use crate::follows::lemma_following_push;
use crate::follows::page_end;
use crate::follows::page_of;
use crate::follows::page_start;
use crate::follows::sorted_desc;
use crate::follows::toggled;
use crate::follows::unique_pairs;
use crate::follows::PAGE_SIZE;
use crate::ids::current_timestamp;
use crate::ids::hash_id;
use crate::ids::hash_of;
use crate::ids::random_unhashed_id;
use crate::username::check_username;
use crate::username::valid_username;
use crate::users::is_default_level;
use crate::users::is_default_role_level;
use crate::users::level_eq;
use crate::users::level_log_eq;
use crate::users::CreatedUser;
use crate::users::FullUser;
use crate::users::RoleLevelLog;
use crate::users::UserMetadata;
use crate::users::UserState;
use crate::users::default_level;

verus! {

/// Is some account row of `users` named `name`?
pub open spec fn has_username(users: Seq<UserState>, name: Seq<char>) -> bool {
    exists|i: int| 0 <= i < users.len() && (#[trigger] users[i]).username@ == name
}

/// No two rows share a username.
pub open spec fn unique_usernames(users: Seq<UserState>) -> bool {
    forall|i: int, j: int|
        #![trigger users[i], users[j]]
        0 <= i < j < users.len() ==> users[i].username@ != users[j].username@
}

/// A banned row; lookups treat it as if it did not exist.
pub open spec fn banned(u: UserState) -> bool {
    u.role@ == "banned"@
}

/// Is some non-banned account row of `users` named `name`?
pub open spec fn has_visible_user(users: Seq<UserState>, name: Seq<char>) -> bool {
    exists|i: int|
        0 <= i < users.len() && (#[trigger] users[i]).username@ == name && !banned(users[i])
}

/// Is some non-banned row's hashed id equal to `hashed`?
pub open spec fn has_hashed_user(users: Seq<UserState>, hashed: Seq<char>) -> bool {
    exists|i: int|
        0 <= i < users.len() && (#[trigger] users[i]).id_hashed@ == hashed && !banned(users[i])
}

/// Does a non-banned row hold `token` as its (hashed) secondary token?
pub open spec fn has_token_user(users: Seq<UserState>, token: Seq<char>) -> bool {
    exists|i: int|
        0 <= i < users.len() && !banned(#[trigger] users[i]) && (users[i].metadata.secondary_token
            matches Some(t) && t@ == token)
}

/// Is some registry entry's role name `name`?
pub open spec fn has_level(levels: Seq<RoleLevelLog>, name: Seq<char>) -> bool {
    exists|i: int| 0 <= i < levels.len() && (#[trigger] levels[i]).level.name@ == name
}

/// No two registry entries share a role name.
pub open spec fn unique_level_names(levels: Seq<RoleLevelLog>) -> bool {
    forall|i: int, j: int|
        #![trigger levels[i], levels[j]]
        0 <= i < j < levels.len() ==> levels[i].level.name@ != levels[j].level.name@
}

/// The index of the registry entry for role `name`, where one exists.
pub open spec fn level_index(levels: Seq<RoleLevelLog>, name: Seq<char>) -> int {
    choose|i: int| 0 <= i < levels.len() && (#[trigger] levels[i]).level.name@ == name
}

/// `r` is the registry entry role `name` resolves to: the stored entry
/// when one exists, the default lowest-privilege level otherwise.
pub open spec fn resolves_to_log(
    levels: Seq<RoleLevelLog>,
    name: Seq<char>,
    r: RoleLevelLog,
) -> bool {
    if has_level(levels, name) {
        level_log_eq(r, levels[level_index(levels, name)])
    } else {
        is_default_level(r)
    }
}

/// `l` is the privilege level role `name` resolves to.
pub open spec fn resolves_to(
    levels: Seq<RoleLevelLog>,
    name: Seq<char>,
    l: crate::users::RoleLevel,
) -> bool {
    if has_level(levels, name) {
        level_eq(l, levels[level_index(levels, name)].level)
    } else {
        is_default_role_level(l)
    }
}

/// The elevation role `name` resolves to; 0 for an unknown name.
pub open spec fn resolved_elevation(levels: Seq<RoleLevelLog>, name: Seq<char>) -> int {
    if has_level(levels, name) {
        levels[level_index(levels, name)].level.elevation as int
    } else {
        0
    }
}

/// Every cached snapshot equals a stored account row: the cache never
/// holds a snapshot staler than the latest committed mutation.
pub open spec fn cache_coherent(users: Seq<UserState>, cache: Seq<UserState>) -> bool {
    forall|i: int|
        0 <= i < cache.len() ==> exists|j: int|
            0 <= j < users.len() && (#[trigger] users[j]) == (#[trigger] cache[i])
}

/// `b` is `a` with its metadata replaced by `m` and all else kept.
pub open spec fn with_metadata(a: UserState, b: UserState, m: UserMetadata) -> bool {
    b.username == a.username && b.id_hashed == a.id_hashed && b.role == a.role && b.timestamp
        == a.timestamp && b.metadata == m
}

/// `b` is `a` with its role set to the banned tag and all else kept.
pub open spec fn with_role_banned(a: UserState, b: UserState) -> bool {
    b.username == a.username && b.id_hashed == a.id_hashed && b.metadata == a.metadata
        && b.timestamp == a.timestamp && b.role@ == "banned"@
}

/// Law: a username is registered exactly once. `create_user` succeeds
/// precisely on a free, well-formed name, and the row it appends takes the
/// name, so by `create_user`'s own contract a repeat call with the same
/// name returns `AlreadyExists`.
pub proof fn lemma_create_once(users: Seq<UserState>, rec: UserState)
    ensures
        has_username(users.push(rec), rec.username@),
{
    assert(users.push(rec)[users.len() as int] == rec);
}

/// The persistence core: accounts, follow graph, role registry, cache.
pub struct Database {
    /// Account rows, in creation order.
    pub users: Vec<UserState>,
    /// Follow rows, kept in timestamp-descending order.
    pub follows: Vec<Log>,
    /// Role registry entries.
    pub levels: Vec<RoleLevelLog>,
    /// Cached account snapshots, keyed by username.
    pub cache: Vec<UserState>,
}

impl Database {
    /// The structural invariants every operation preserves: unique
    /// usernames, a well-formed follow graph (one row per ordered pair, no
    /// self edges, newest first), unique role names, and a coherent cache.
    pub open spec fn wf(self) -> bool {
        &&& unique_usernames(self.users@)
        &&& unique_pairs(self.follows@)
        &&& follow_rows(self.follows@)
        &&& sorted_desc(self.follows@)
        &&& unique_level_names(self.levels@)
        &&& unique_usernames(self.cache@)
        &&& cache_coherent(self.users@, self.cache@)
    }

    /// Builds an empty service value.
    pub fn new() -> (db: Database)
        ensures
            db.wf(),
            db.users@ == Seq::<UserState>::empty(),
            db.follows@ == Seq::<Log>::empty(),
            db.levels@ == Seq::<RoleLevelLog>::empty(),
            db.cache@ == Seq::<UserState>::empty(),
    {
        Database { users: Vec::new(), follows: Vec::new(), levels: Vec::new(), cache: Vec::new() }
    }

    /// First account row named `name`, any role.
    fn find_user_index(&self, name: &String) -> (r: Option<usize>)
        ensures
            match r {
                Some(i) => i < self.users@.len() && self.users@[i as int].username@ == name@,
                None => !has_username(self.users@, name@),
            },
    {
        let mut i: usize = 0;
        while i < self.users.len()
            invariant
                0 <= i <= self.users@.len(),
                forall|k: int| 0 <= k < i ==> (#[trigger] self.users@[k]).username@ != name@,
            decreases self.users@.len() - i,
        {
            if self.users[i].username == *name {
                return Some(i);
            }
            i = i + 1;
        }
        None
    }

    /// First cached snapshot named `name`.
    fn find_cache_index(&self, name: &String) -> (r: Option<usize>)
        ensures
            match r {
                Some(i) => i < self.cache@.len() && self.cache@[i as int].username@ == name@,
                None => !has_username(self.cache@, name@),
            },
    {
        let mut i: usize = 0;
        while i < self.cache.len()
            invariant
                0 <= i <= self.cache@.len(),
                forall|k: int| 0 <= k < i ==> (#[trigger] self.cache@[k]).username@ != name@,
            decreases self.cache@.len() - i,
        {
            if self.cache[i].username == *name {
                return Some(i);
            }
            i = i + 1;
        }
        None
    }

    /// Is the row's role the banned tag?
    fn is_banned_row(u: &UserState) -> (r: bool)
        ensures
            r == banned(*u),
    {
        u.role == String::from_str("banned")
    }

    /// The cached snapshot stored under `username`, if any. Mirrors a raw
    /// read of the cache backend.
    pub fn get_cached_user(&self, username: &String) -> (r: Option<UserState>)
        ensures
            match r {
                Some(u) => u.username@ == username@ && exists|j: int|
                    0 <= j < self.cache@.len() && u == (#[trigger] self.cache@[j]),
                None => !has_username(self.cache@, username@),
            },
    {
        match self.find_cache_index(username) {
            Some(ci) => {
                let u = self.cache[ci].clone();
                proof {
                    assert(u == self.cache@[ci as int]);
                }
                Some(u)
            },
            None => None,
        }
    }

    /// Get a user by their hashed ID. A banned account is reported as
    /// absent.
    pub fn get_user_by_hashed(&self, hashed: String) -> (r: Result<FullUser, Error>)
        requires
            self.wf(),
        ensures
            r is Ok <==> has_hashed_user(self.users@, hashed@),
            r matches Ok(fu) ==> (exists|i: int|
                0 <= i < self.users@.len() && (#[trigger] self.users@[i]).id_hashed@ == hashed@
                    && !banned(self.users@[i]) && fu.user == self.users@[i] && resolves_to(
                    self.levels@,
                    self.users@[i].role@,
                    fu.level,
                )),
            r matches Err(e) ==> e == Error::NotFound,
    {
        let mut i: usize = 0;
        while i < self.users.len()
            invariant
                0 <= i <= self.users@.len(),
                self.wf(),
                forall|k: int|
                    0 <= k < i ==> !((#[trigger] self.users@[k]).id_hashed@ == hashed@ && !banned(
                        self.users@[k],
                    )),
            decreases self.users@.len() - i,
        {
            if self.users[i].id_hashed == hashed && !Self::is_banned_row(&self.users[i]) {
                let level = self.get_level_by_role(self.users[i].role.clone());
                let fu = FullUser { user: self.users[i].clone(), level: level.level };
                proof {
                    assert(self.users@[i as int].id_hashed@ == hashed@ && !banned(
                        self.users@[i as int],
                    ));
                }
                return Ok(fu);
            }
            i = i + 1;
        }
        Err(Error::NotFound)
    }

    /// Get a user by their unhashed secondary token: the token is hashed
    /// and matched against the stored (hashed) secondary tokens. A banned
    /// account is reported as absent.
    pub fn get_user_by_unhashed_st(&self, unhashed: String) -> (r: Result<FullUser, Error>)
        requires
            self.wf(),
        ensures
            r is Ok <==> has_token_user(self.users@, hash_of(unhashed@)),
            r matches Ok(fu) ==> (exists|i: int|
                0 <= i < self.users@.len() && !banned(#[trigger] self.users@[i]) && (
                self.users@[i].metadata.secondary_token matches Some(t) && t@ == hash_of(unhashed@))
                    && fu.user == self.users@[i] && resolves_to(
                    self.levels@,
                    self.users@[i].role@,
                    fu.level,
                )),
            r matches Err(e) ==> e == Error::NotFound,
    {
        let token = hash_id(unhashed);
        let mut i: usize = 0;
        while i < self.users.len()
            invariant
                0 <= i <= self.users@.len(),
                self.wf(),
                token@ == hash_of(unhashed@),
                forall|k: int|
                    0 <= k < i ==> !(!banned(#[trigger] self.users@[k]) && (
                    self.users@[k].metadata.secondary_token matches Some(t) && t@ == token@)),
            decreases self.users@.len() - i,
        {
            let matched = match &self.users[i].metadata.secondary_token {
                Some(t) => *t == token,
                None => false,
            };
            if matched && !Self::is_banned_row(&self.users[i]) {
                let level = self.get_level_by_role(self.users[i].role.clone());
                let fu = FullUser { user: self.users[i].clone(), level: level.level };
                return Ok(fu);
            }
            i = i + 1;
        }
        Err(Error::NotFound)
    }

    /// Get a user by their unhashed ID: the input is hashed and looked up
    /// as a hashed id; when that fails, the input is retried as a
    /// secondary token.
    pub fn get_user_by_unhashed(&self, unhashed: String) -> (r: Result<FullUser, Error>)
        requires
            self.wf(),
        ensures
            r is Ok <==> (has_hashed_user(self.users@, hash_of(unhashed@)) || has_token_user(
                self.users@,
                hash_of(unhashed@),
            )),
            r matches Ok(fu) ==> (has_hashed_user(self.users@, hash_of(unhashed@)) ==> (exists|
                i: int,
            |
                0 <= i < self.users@.len() && (#[trigger] self.users@[i]).id_hashed@ == hash_of(
                    unhashed@,
                ) && !banned(self.users@[i]) && fu.user == self.users@[i] && resolves_to(
                    self.levels@,
                    self.users@[i].role@,
                    fu.level,
                ))),
            r matches Ok(fu) ==> (!has_hashed_user(self.users@, hash_of(unhashed@)) ==> (exists|
                i: int,
            |
                0 <= i < self.users@.len() && !banned(#[trigger] self.users@[i]) && (
                self.users@[i].metadata.secondary_token matches Some(t) && t@ == hash_of(unhashed@))
                    && fu.user == self.users@[i] && resolves_to(
                    self.levels@,
                    self.users@[i].role@,
                    fu.level,
                ))),
            r matches Err(e) ==> e == Error::NotFound,
    {
        let hashed = hash_id(unhashed.clone());
        match self.get_user_by_hashed(hashed) {
            Ok(fu) => Ok(fu),
            Err(_) => self.get_user_by_unhashed_st(unhashed),
        }
    }

    /// Get a user by their username, reading through the cache: a hit is
    /// served from the cache, a miss reads the account rows and caches the
    /// snapshot. A banned account is reported as absent.
    pub fn get_user_by_username(&mut self, username: String) -> (r: Result<FullUser, Error>)
        requires
            old(self).wf(),
        ensures
            final(self).wf(),
            final(self).users@ == old(self).users@,
            final(self).follows@ == old(self).follows@,
            final(self).levels@ == old(self).levels@,
            r is Ok <==> has_visible_user(old(self).users@, username@),
            r matches Ok(fu) ==> (exists|i: int|
                0 <= i < old(self).users@.len() && (#[trigger] old(self).users@[i]).username@
                    == username@ && !banned(old(self).users@[i]) && fu.user == old(self).users@[i]
                    && resolves_to(old(self).levels@, old(self).users@[i].role@, fu.level)),
            r matches Err(e) ==> e == Error::NotFound && final(self).cache@ == old(self).cache@,
            r matches Ok(fu) ==> (if has_username(old(self).cache@, username@) {
                final(self).cache@ == old(self).cache@
            } else {
                final(self).cache@ == old(self).cache@.push(fu.user)
            }),
    {
        match self.find_cache_index(&username) {
            Some(ci) => {
                if Self::is_banned_row(&self.cache[ci]) {
                    proof {
                        let j = choose|j: int|
                            0 <= j < self.users@.len() && (#[trigger] self.users@[j])
                                == self.cache@[ci as int];
                        assert forall|k: int|
                            0 <= k < self.users@.len() && (#[trigger] self.users@[k]).username@
                                == username@ implies banned(self.users@[k]) by {
                            assert(k == j);
                        }
                    }
                    Err(Error::NotFound)
                } else {
                    let level = self.get_level_by_role(self.cache[ci].role.clone());
                    let fu = FullUser { user: self.cache[ci].clone(), level: level.level };
                    proof {
                        let j = choose|j: int|
                            0 <= j < self.users@.len() && (#[trigger] self.users@[j])
                                == self.cache@[ci as int];
                        assert(self.users@[j].username@ == username@ && !banned(self.users@[j])
                            && fu.user == self.users@[j]);
                    }
                    Ok(fu)
                }
            },
            None => {
                match self.find_user_index(&username) {
                    None => Err(Error::NotFound),
                    Some(ui) => {
                        if Self::is_banned_row(&self.users[ui]) {
                            proof {
                                assert forall|k: int|
                                    0 <= k < self.users@.len() && (#[trigger]
                                    self.users@[k]).username@ == username@ implies banned(
                                    self.users@[k],
                                ) by {
                                    assert(k == ui as int);
                                }
                            }
                            Err(Error::NotFound)
                        } else {
                            let level = self.get_level_by_role(self.users[ui].role.clone());
                            let snapshot = self.users[ui].clone();
                            let fu = FullUser { user: self.users[ui].clone(), level: level.level };
                            self.cache.push(snapshot);
                            proof {
                                assert(fu.user == self.users@[ui as int]);
                                assert forall|i: int|
                                    0 <= i < self.cache@.len() implies exists|j: int|
                                    0 <= j < self.users@.len() && (#[trigger] self.users@[j]) == (
                                    #[trigger] self.cache@[i]) by {
                                    if i < self.cache@.len() - 1 {
                                        assert(cache_coherent(old(self).users@, old(self).cache@));
                                        assert(old(self).cache@[i] == self.cache@[i]);
                                    } else {
                                        assert(self.cache@[i] == self.users@[ui as int]);
                                    }
                                }
                            }
                            Ok(fu)
                        }
                    },
                }
            },
        }
    }

    /// Create a new user given their username. On success returns the
    /// one-time unhashed id (never stored) alongside the stored hashed id.
    /// Fails with `AlreadyExists` on a taken username (any role) and with
    /// `InvalidInput` on a malformed one; no row is written on failure.
    pub fn create_user(&mut self, username: String) -> (r: Result<CreatedUser, Error>)
        requires
            old(self).wf(),
        ensures
            final(self).wf(),
            final(self).follows@ == old(self).follows@,
            final(self).levels@ == old(self).levels@,
            final(self).cache@ == old(self).cache@,
            r is Ok <==> (!has_username(old(self).users@, username@) && valid_username(username@)),
            has_username(old(self).users@, username@) ==> r == Err::<CreatedUser, Error>(
                Error::AlreadyExists,
            ) && final(self).users@ == old(self).users@,
            (!has_username(old(self).users@, username@) && !valid_username(username@)) ==> r
                == Err::<CreatedUser, Error>(Error::InvalidInput) && final(self).users@ == old(
                self,
            ).users@,
            r matches Ok(cu) ==> {
                &&& cu.id_hashed@ == hash_of(cu.id_unhashed@)
                &&& final(self).users@ == old(self).users@.push(final(self).users@.last())
                &&& final(self).users@.len() == old(self).users@.len() + 1
                &&& final(self).users@.last().username@ == username@
                &&& final(self).users@.last().id_hashed@ == cu.id_hashed@
                &&& final(self).users@.last().role@ == "member"@
                &&& final(self).users@.last().metadata.about@ == Seq::<char>::empty()
                &&& final(self).users@.last().metadata.avatar_url is None
                &&& final(self).users@.last().metadata.secondary_token is None
                &&& (final(self).users@.last().metadata.nickname matches Some(n) && n@
                    == username@)
            },
    {
        match self.find_user_index(&username) {
            Some(_) => {
                return Err(Error::AlreadyExists);
            },
            None => {},
        }
        if !check_username(username.as_str()) {
            return Err(Error::InvalidInput);
        }
        let id_unhashed = random_unhashed_id();
        let id_hashed = hash_id(id_unhashed.clone());
        let ts = current_timestamp();
        let record = UserState {
            username: username.clone(),
            id_hashed: id_hashed.clone(),
            role: String::from_str("member"),
            timestamp: ts,
            metadata: UserMetadata {
                about: String::new(),
                avatar_url: None,
                secondary_token: None,
                nickname: Some(username),
            },
        };
        self.users.push(record);
        proof {
            let n = old(self).users@.len() as int;
            assert(self.users@.last() == self.users@[n]);
            assert forall|i: int, j: int|
                #![trigger self.users@[i], self.users@[j]]
                0 <= i < j < self.users@.len() implies self.users@[i].username@
                != self.users@[j].username@ by {
                if j < n {
                    assert(old(self).users@[i] == self.users@[i]);
                    assert(old(self).users@[j] == self.users@[j]);
                } else {
                    assert(self.users@[i] == old(self).users@[i]);
                    assert(!has_username(old(self).users@, username@));
                }
            }
            assert forall|i: int| 0 <= i < self.cache@.len() implies exists|j: int|
                0 <= j < self.users@.len() && (#[trigger] self.users@[j]) == (#[trigger]
                self.cache@[i]) by {
                assert(cache_coherent(old(self).users@, old(self).cache@));
                let j = choose|j: int|
                    0 <= j < old(self).users@.len() && (#[trigger] old(self).users@[j])
                        == old(self).cache@[i];
                assert(self.users@[j] == self.cache@[i]);
            }
        }
        Ok(CreatedUser { id_unhashed, id_hashed })
    }

    /// Update a user's metadata by their `name`. Fails with `NotFound` when
    /// no such (non-banned) account exists; otherwise replaces the stored
    /// metadata and patches the metadata field of any existing cached
    /// snapshot in place (the entry is never dropped).
    pub fn edit_user_metadata_by_name(&mut self, name: String, metadata: UserMetadata) -> (r:
        Result<(), Error>)
        requires
            old(self).wf(),
        ensures
            final(self).wf(),
            final(self).follows@ == old(self).follows@,
            final(self).levels@ == old(self).levels@,
            r is Ok <==> has_visible_user(old(self).users@, name@),
            r is Err ==> r == Err::<(), Error>(Error::NotFound) && final(self).users@ == old(
                self,
            ).users@ && final(self).cache@ == old(self).cache@,
            r is Ok ==> (exists|i: int|
                0 <= i < old(self).users@.len() && (#[trigger] old(self).users@[i]).username@
                    == name@ && !banned(old(self).users@[i]) && final(self).users@ == old(
                    self,
                ).users@.update(i, final(self).users@[i]) && with_metadata(
                    old(self).users@[i],
                    final(self).users@[i],
                    metadata,
                )),
            r is Ok ==> (if has_username(old(self).cache@, name@) {
                exists|j: int|
                    0 <= j < old(self).cache@.len() && (#[trigger] old(self).cache@[j]).username@
                        == name@ && final(self).cache@ == old(self).cache@.update(
                        j,
                        final(self).cache@[j],
                    ) && with_metadata(old(self).cache@[j], final(self).cache@[j], metadata)
            } else {
                final(self).cache@ == old(self).cache@
            }),
    {
        let ui = match self.find_user_index(&name) {
            None => {
                return Err(Error::NotFound);
            },
            Some(ui) => ui,
        };
        if Self::is_banned_row(&self.users[ui]) {
            proof {
                assert forall|k: int|
                    0 <= k < self.users@.len() && (#[trigger] self.users@[k]).username@
                        == name@ implies banned(self.users@[k]) by {
                    assert(k == ui as int);
                }
            }
            return Err(Error::NotFound);
        }
        let meta_for_cache = metadata.clone();
        let mut updated = self.users[ui].clone();
        updated.metadata = metadata;
        self.users.set(ui, updated);
        match self.find_cache_index(&name) {
            Some(ci) => {
                let mut entry = self.cache[ci].clone();
                entry.metadata = meta_for_cache;
                self.cache.set(ci, entry);
                proof {
                    let k = choose|k: int|
                        0 <= k < old(self).users@.len() && (#[trigger] old(self).users@[k]) == old(
                            self,
                        ).cache@[ci as int];
                    assert(k == ui as int);
                    assert(self.cache@[ci as int] == self.users@[ui as int]);
                }
            },
            None => {},
        }
        proof {
            self.lemma_patch_preserves_wf(*old(self), ui as int, name@);
        }
        Ok(())
    }

    /// Ban a user by their `name`: fails with `NotFound` when no such
    /// (non-banned) account exists and with `Forbidden` unless the account's
    /// resolved role elevation is 0; on success sets the role to "banned"
    /// and patches any cached snapshot in place.
    pub fn ban_user_by_name(&mut self, name: String) -> (r: Result<(), Error>)
        requires
            old(self).wf(),
        ensures
            final(self).wf(),
            final(self).follows@ == old(self).follows@,
            final(self).levels@ == old(self).levels@,
            r is Ok <==> (exists|i: int|
                0 <= i < old(self).users@.len() && (#[trigger] old(self).users@[i]).username@
                    == name@ && !banned(old(self).users@[i]) && resolved_elevation(
                    old(self).levels@,
                    old(self).users@[i].role@,
                ) == 0),
            r == Err::<(), Error>(Error::NotFound) <==> !has_visible_user(old(self).users@, name@),
            r == Err::<(), Error>(Error::Forbidden) <==> (exists|i: int|
                0 <= i < old(self).users@.len() && (#[trigger] old(self).users@[i]).username@
                    == name@ && !banned(old(self).users@[i]) && resolved_elevation(
                    old(self).levels@,
                    old(self).users@[i].role@,
                ) != 0),
            r is Err ==> final(self).users@ == old(self).users@ && final(self).cache@ == old(
                self,
            ).cache@,
            r is Ok ==> (exists|i: int|
                0 <= i < old(self).users@.len() && (#[trigger] old(self).users@[i]).username@
                    == name@ && !banned(old(self).users@[i]) && final(self).users@ == old(
                    self,
                ).users@.update(i, final(self).users@[i]) && with_role_banned(
                    old(self).users@[i],
                    final(self).users@[i],
                )),
            r is Ok ==> (if has_username(old(self).cache@, name@) {
                exists|j: int|
                    0 <= j < old(self).cache@.len() && (#[trigger] old(self).cache@[j]).username@
                        == name@ && final(self).cache@ == old(self).cache@.update(
                        j,
                        final(self).cache@[j],
                    ) && with_role_banned(old(self).cache@[j], final(self).cache@[j])
            } else {
                final(self).cache@ == old(self).cache@
            }),
    {
        let ui = match self.find_user_index(&name) {
            None => {
                return Err(Error::NotFound);
            },
            Some(ui) => ui,
        };
        if Self::is_banned_row(&self.users[ui]) {
            proof {
                assert forall|k: int|
                    0 <= k < self.users@.len() && (#[trigger] self.users@[k]).username@
                        == name@ implies banned(self.users@[k]) by {
                    assert(k == ui as int);
                }
            }
            return Err(Error::NotFound);
        }
        let level = self.get_level_by_role(self.users[ui].role.clone());
        if level.level.elevation != 0 {
            proof {
                assert forall|k: int|
                    0 <= k < self.users@.len() && (#[trigger] self.users@[k]).username@ == name@
                        && !banned(self.users@[k]) implies resolved_elevation(
                    self.levels@,
                    self.users@[k].role@,
                ) != 0 by {
                    assert(k == ui as int);
                }
            }
            return Err(Error::Forbidden);
        }
        let banned_role = String::from_str("banned");
        let mut updated = self.users[ui].clone();
        updated.role = banned_role.clone();
        self.users.set(ui, updated);
        match self.find_cache_index(&name) {
            Some(ci) => {
                let mut entry = self.cache[ci].clone();
                entry.role = banned_role;
                self.cache.set(ci, entry);
                proof {
                    let k = choose|k: int|
                        0 <= k < old(self).users@.len() && (#[trigger] old(self).users@[k]) == old(
                            self,
                        ).cache@[ci as int];
                    assert(k == ui as int);
                    assert(self.cache@[ci as int] == self.users@[ui as int]);
                }
            },
            None => {},
        }
        proof {
            assert(resolved_elevation(old(self).levels@, old(self).users@[ui as int].role@) == 0);
            assert forall|k: int|
                0 <= k < old(self).users@.len() && (#[trigger] old(self).users@[k]).username@
                    == name@ && !banned(old(self).users@[k]) implies resolved_elevation(
                old(self).levels@,
                old(self).users@[k].role@,
            ) == 0 by {
                assert(k == ui as int);
            }
            self.lemma_patch_preserves_wf(*old(self), ui as int, name@);
        }
        Ok(())
    }

    /// After updating row `ui` (named `name`, username kept) and patching
    /// the like-named cache entry to equal the new row, the invariants
    /// still hold.
    proof fn lemma_patch_preserves_wf(self, pre: Database, ui: int, name: Seq<char>)
        requires
            pre.wf(),
            0 <= ui < pre.users@.len(),
            pre.users@[ui].username@ == name,
            self.users@ == pre.users@.update(ui, self.users@[ui]),
            self.users@[ui].username == pre.users@[ui].username,
            self.follows@ == pre.follows@,
            self.levels@ == pre.levels@,
            if has_username(pre.cache@, name) {
                exists|j: int|
                    0 <= j < pre.cache@.len() && (#[trigger] pre.cache@[j]).username@ == name
                        && self.cache@ == pre.cache@.update(j, self.cache@[j])
                        && self.cache@[j].username == pre.cache@[j].username && self.cache@[j]
                        == self.users@[ui]
            } else {
                self.cache@ == pre.cache@
            },
        ensures
            self.wf(),
    {
        assert(unique_usernames(self.users@));
        if has_username(pre.cache@, name) {
            let j = choose|j: int|
                0 <= j < pre.cache@.len() && (#[trigger] pre.cache@[j]).username@ == name
                    && self.cache@ == pre.cache@.update(j, self.cache@[j])
                    && self.cache@[j].username == pre.cache@[j].username && self.cache@[j]
                    == self.users@[ui];
            assert(unique_usernames(self.cache@));
            assert forall|i: int| 0 <= i < self.cache@.len() implies exists|k: int|
                0 <= k < self.users@.len() && (#[trigger] self.users@[k]) == (#[trigger]
                self.cache@[i]) by {
                if i == j {
                    assert(self.users@[ui] == self.cache@[i]);
                } else {
                    let k = choose|k: int|
                        0 <= k < pre.users@.len() && (#[trigger] pre.users@[k]) == pre.cache@[i];
                    if k == ui {
                        // the old row equals this cache entry, so the entry is named `name`
                        // and would clash with entry `j` under cache key uniqueness
                        assert(pre.cache@[i].username@ == name);
                        assert(pre.cache@[j].username@ == name);
                        assert(false);
                    } else {
                        assert(self.users@[k] == self.cache@[i]);
                    }
                }
            }
        } else {
            assert forall|i: int| 0 <= i < self.cache@.len() implies exists|k: int|
                0 <= k < self.users@.len() && (#[trigger] self.users@[k]) == (#[trigger]
                self.cache@[i]) by {
                let k = choose|k: int|
                    0 <= k < pre.users@.len() && (#[trigger] pre.users@[k]) == pre.cache@[i];
                if k == ui {
                    assert(pre.cache@[i].username@ == name);
                    assert(has_username(pre.cache@, name));
                    assert(false);
                } else {
                    assert(self.users@[k] == self.cache@[i]);
                }
            }
        }
    }

    /// First follow row carrying the ordered pair, if any.
    fn find_follow_index(&self, user: &String, is_following: &String) -> (r: Option<usize>)
        ensures
            match r {
                Some(i) => i < self.follows@.len() && is_edge(
                    self.follows@[i as int],
                    user@,
                    is_following@,
                ),
                None => !has_edge(self.follows@, user@, is_following@),
            },
    {
        let mut i: usize = 0;
        while i < self.follows.len()
            invariant
                0 <= i <= self.follows@.len(),
                forall|k: int|
                    0 <= k < i ==> !is_edge(#[trigger] self.follows@[k], user@, is_following@),
            decreases self.follows@.len() - i,
        {
            if self.follows[i].content.user == *user && self.follows[i].content.is_following
                == *is_following {
                return Some(i);
            }
            i = i + 1;
        }
        None
    }

    /// Get the follow row for the ordered pair (`user`, `is_following`),
    /// if the edge exists.
    pub fn get_follow_by_user(&self, user: String, is_following: String) -> (r: Option<Log>)
        requires
            self.wf(),
        ensures
            r is Some <==> has_edge(self.follows@, user@, is_following@),
            r matches Some(l) ==> is_edge(l, user@, is_following@) && exists|i: int|
                0 <= i < self.follows@.len() && l == (#[trigger] self.follows@[i]),
    {
        match self.find_follow_index(&user, &is_following) {
            Some(i) => {
                let l = self.follows[i].clone();
                proof {
                    assert(l == self.follows@[i as int]);
                }
                Some(l)
            },
            None => None,
        }
    }

    /// All follow rows whose target is `user`, newest first.
    fn collect_followers(&self, user: &String) -> (r: Vec<Log>)
        requires
            sorted_desc(self.follows@),
        ensures
            r@ == followers_of(self.follows@, user@),
            sorted_desc(r@),
    {
        let mut all: Vec<Log> = Vec::new();
        let mut i: usize = 0;
        while i < self.follows.len()
            invariant
                0 <= i <= self.follows@.len(),
                all@ == followers_of(self.follows@.subrange(0, i as int), user@),
                sorted_desc(self.follows@),
                sorted_desc(all@),
                forall|a: int, k: int|
                    #![trigger all@[a], self.follows@[k]]
                    0 <= a < all@.len() && i <= k < self.follows@.len() ==> all@[a].timestamp
                        >= self.follows@[k].timestamp,
            decreases self.follows@.len() - i,
        {
            proof {
                lemma_followers_push(
                    self.follows@.subrange(0, i as int),
                    self.follows@[i as int],
                    user@,
                );
                assert(self.follows@.subrange(0, i as int + 1) =~= self.follows@.subrange(
                    0,
                    i as int,
                ).push(self.follows@[i as int]));
            }
            if self.follows[i].content.is_following == *user {
                all.push(self.follows[i].clone());
            }
            i = i + 1;
        }
        proof {
            assert(self.follows@.subrange(0, self.follows@.len() as int) =~= self.follows@);
        }
        all
    }

    /// All follow rows whose source is `user`, newest first.
    fn collect_following(&self, user: &String) -> (r: Vec<Log>)
        requires
            sorted_desc(self.follows@),
        ensures
            r@ == following_of(self.follows@, user@),
            sorted_desc(r@),
    {
        let mut all: Vec<Log> = Vec::new();
        let mut i: usize = 0;
        while i < self.follows.len()
            invariant
                0 <= i <= self.follows@.len(),
                all@ == following_of(self.follows@.subrange(0, i as int), user@),
                sorted_desc(self.follows@),
                sorted_desc(all@),
                forall|a: int, k: int|
                    #![trigger all@[a], self.follows@[k]]
                    0 <= a < all@.len() && i <= k < self.follows@.len() ==> all@[a].timestamp
                        >= self.follows@[k].timestamp,
            decreases self.follows@.len() - i,
        {
            proof {
                lemma_following_push(
                    self.follows@.subrange(0, i as int),
                    self.follows@[i as int],
                    user@,
                );
                assert(self.follows@.subrange(0, i as int + 1) =~= self.follows@.subrange(
                    0,
                    i as int,
                ).push(self.follows@[i as int]));
            }
            if self.follows[i].content.user == *user {
                all.push(self.follows[i].clone());
            }
            i = i + 1;
        }
        proof {
            assert(self.follows@.subrange(0, self.follows@.len() as int) =~= self.follows@);
        }
        all
    }

    /// One page of `all`, starting at `offset` rows in.
    fn page_slice(all: &Vec<Log>, offset: Option<i32>) -> (r: Vec<Log>)
        ensures
            r@ == page_of(all@, eff_offset(offset)),
            sorted_desc(all@) ==> sorted_desc(r@),
    {
        let off: usize = match offset {
            Some(o) => if o > 0 {
                o as usize
            } else {
                0
            },
            None => 0,
        };
        let start: usize = if off < all.len() {
            off
        } else {
            all.len()
        };
        let remaining: usize = all.len() - start;
        let take: usize = if remaining < PAGE_SIZE {
            remaining
        } else {
            PAGE_SIZE
        };
        let end: usize = start + take;
        proof {
            assert(start as int == page_start(all@, eff_offset(offset)));
            assert(end as int == page_end(all@, eff_offset(offset)));
        }
        let mut out: Vec<Log> = Vec::new();
        let mut j: usize = start;
        while j < end
            invariant
                start <= j <= end,
                end <= all@.len(),
                out@ == all@.subrange(start as int, j as int),
            decreases end - j,
        {
            out.push(all[j].clone());
            proof {
                assert(all@.subrange(start as int, j as int + 1) =~= all@.subrange(
                    start as int,
                    j as int,
                ).push(all@[j as int]));
            }
            j = j + 1;
        }
        out
    }

    /// Get the follow rows whose target is `user`: the page of the
    /// newest-first followers listing at `offset` (0 when absent or
    /// negative), `PAGE_SIZE` rows per page, ordered by timestamp
    /// descending.
    pub fn get_user_followers(&self, user: String, offset: Option<i32>) -> (r: Vec<Log>)
        requires
            self.wf(),
        ensures
            r@ == page_of(followers_of(self.follows@, user@), eff_offset(offset)),
            sorted_desc(r@),
    {
        let all = self.collect_followers(&user);
        Self::page_slice(&all, offset)
    }

    /// Get the follow rows whose source is `user`: the page of the
    /// newest-first following listing at `offset` (0 when absent or
    /// negative), `PAGE_SIZE` rows per page, ordered by timestamp
    /// descending.
    pub fn get_user_following(&self, user: String, offset: Option<i32>) -> (r: Vec<Log>)
        requires
            self.wf(),
        ensures
            r@ == page_of(following_of(self.follows@, user@), eff_offset(offset)),
            sorted_desc(r@),
    {
        let all = self.collect_following(&user);
        Self::page_slice(&all, offset)
    }

    /// Get the number of followers `user` has: the full count, not bounded
    /// by the page size.
    pub fn get_user_follow_count(&self, user: String) -> (r: usize)
        requires
            self.wf(),
        ensures
            r == followers_of(self.follows@, user@).len(),
    {
        let all = self.collect_followers(&user);
        all.len()
    }

    /// Get the number of accounts `user` is following: the full count, not
    /// bounded by the page size.
    pub fn get_user_following_count(&self, user: String) -> (r: usize)
        requires
            self.wf(),
        ensures
            r == following_of(self.follows@, user@).len(),
    {
        let all = self.collect_following(&user);
        all.len()
    }

    /// Register a privilege level under its role name: the write side of
    /// the role registry. Fails with `AlreadyExists` on a taken role name.
    pub fn add_level(&mut self, level: RoleLevelLog) -> (r: Result<(), Error>)
        requires
            old(self).wf(),
        ensures
            final(self).wf(),
            final(self).users@ == old(self).users@,
            final(self).follows@ == old(self).follows@,
            final(self).cache@ == old(self).cache@,
            r is Ok <==> !has_level(old(self).levels@, level.level.name@),
            r is Ok ==> final(self).levels@ == old(self).levels@.push(level),
            r is Err ==> r == Err::<(), Error>(Error::AlreadyExists) && final(self).levels@ == old(
                self,
            ).levels@,
    {
        let mut i: usize = 0;
        while i < self.levels.len()
            invariant
                0 <= i <= self.levels@.len(),
                forall|k: int|
                    0 <= k < i ==> (#[trigger] self.levels@[k]).level.name@ != level.level.name@,
                old(self).wf(),
                self.users@ == old(self).users@,
                self.follows@ == old(self).follows@,
                self.levels@ == old(self).levels@,
                self.cache@ == old(self).cache@,
            decreases self.levels@.len() - i,
        {
            if self.levels[i].level.name == level.level.name {
                return Err(Error::AlreadyExists);
            }
            i = i + 1;
        }
        self.levels.push(level);
        proof {
            let n = old(self).levels@.len() as int;
            assert forall|a: int, b: int|
                #![trigger self.levels@[a], self.levels@[b]]
                0 <= a < b < self.levels@.len() implies self.levels@[a].level.name@
                != self.levels@[b].level.name@ by {
                if b < n {
                    assert(old(self).levels@[a] == self.levels@[a]);
                    assert(old(self).levels@[b] == self.levels@[b]);
                } else {
                    assert(self.levels@[a] == old(self).levels@[a]);
                }
            }
        }
        Ok(())
    }

    /// Toggle the follow edge `props.user` -> `props.is_following`: delete
    /// it when present, create it (with the current timestamp) when absent.
    /// Fails with `InvalidInput` on a self-follow and with `NotFound` when
    /// either account does not resolve; either way no edge is written.
    pub fn toggle_user_follow(&mut self, props: &UserFollow) -> (r: Result<(), Error>)
        requires
            old(self).wf(),
        ensures
            final(self).wf(),
            final(self).users@ == old(self).users@,
            final(self).levels@ == old(self).levels@,
            final(self).cache@ == old(self).cache@,
            r == Err::<(), Error>(Error::InvalidInput) <==> props.user@ == props.is_following@,
            r == Err::<(), Error>(Error::NotFound) <==> (props.user@ != props.is_following@ && !(
            has_visible_user(old(self).users@, props.user@) && has_visible_user(
                old(self).users@,
                props.is_following@,
            ))),
            r is Ok <==> (props.user@ != props.is_following@ && has_visible_user(
                old(self).users@,
                props.user@,
            ) && has_visible_user(old(self).users@, props.is_following@)),
            r is Err ==> final(self).follows@ == old(self).follows@,
            r is Ok ==> has_edge(final(self).follows@, props.user@, props.is_following@)
                == !has_edge(old(self).follows@, props.user@, props.is_following@),
            r is Ok ==> edge_pairs(final(self).follows@) == toggled(
                edge_pairs(old(self).follows@),
                (props.user@, props.is_following@),
            ),
            r is Ok ==> (if has_edge(old(self).follows@, props.user@, props.is_following@) {
                exists|i: int|
                    0 <= i < old(self).follows@.len() && is_edge(
                        #[trigger] old(self).follows@[i],
                        props.user@,
                        props.is_following@,
                    ) && final(self).follows@ == old(self).follows@.remove(i)
            } else {
                exists|j: int|
                    0 <= j <= old(self).follows@.len() && final(self).follows@ == old(
                        self,
                    ).follows@.insert(j, #[trigger] final(self).follows@[j]) && is_edge(
                        final(self).follows@[j],
                        props.user@,
                        props.is_following@,
                    ) && final(self).follows@[j].logtype@ == "follow"@
            }),
    {
        if props.user == props.is_following {
            return Err(Error::InvalidInput);
        }
        match self.find_user_index(&props.user) {
            None => {
                return Err(Error::NotFound);
            },
            Some(ui) => {
                if Self::is_banned_row(&self.users[ui]) {
                    proof {
                        assert forall|k: int|
                            0 <= k < self.users@.len() && (#[trigger] self.users@[k]).username@
                                == props.user@ implies banned(self.users@[k]) by {
                            assert(k == ui as int);
                        }
                    }
                    return Err(Error::NotFound);
                }
            },
        }
        match self.find_user_index(&props.is_following) {
            None => {
                return Err(Error::NotFound);
            },
            Some(ui) => {
                if Self::is_banned_row(&self.users[ui]) {
                    proof {
                        assert forall|k: int|
                            0 <= k < self.users@.len() && (#[trigger] self.users@[k]).username@
                                == props.is_following@ implies banned(self.users@[k]) by {
                            assert(k == ui as int);
                        }
                    }
                    return Err(Error::NotFound);
                }
            },
        }
        match self.find_follow_index(&props.user, &props.is_following) {
            Some(i) => {
                self.follows.remove(i);
                proof {
                    self.lemma_follow_removed(*old(self), i as int, props.user@, props.is_following@);
                }
                Ok(())
            },
            None => {
                let ts = current_timestamp();
                let id = hash_id(random_unhashed_id());
                let log = Log {
                    id,
                    logtype: String::from_str("follow"),
                    timestamp: ts,
                    content: props.clone(),
                };
                let mut j: usize = 0;
                while j < self.follows.len() && ts <= self.follows[j].timestamp
                    invariant
                        0 <= j <= self.follows@.len(),
                        forall|k: int| 0 <= k < j ==> ts <= (#[trigger] self.follows@[k]).timestamp,
                    decreases self.follows@.len() - j,
                {
                    j = j + 1;
                }
                self.follows.insert(j, log);
                proof {
                    self.lemma_follow_inserted(
                        *old(self),
                        j as int,
                        props.user@,
                        props.is_following@,
                    );
                }
                Ok(())
            },
        }
    }

    /// Removing the one row that carries a pair flips that pair out of the
    /// graph and preserves the invariants.
    proof fn lemma_follow_removed(self, pre: Database, i: int, u: Seq<char>, f: Seq<char>)
        requires
            pre.wf(),
            0 <= i < pre.follows@.len(),
            is_edge(pre.follows@[i], u, f),
            self.follows@ == pre.follows@.remove(i),
            self.users@ == pre.users@,
            self.levels@ == pre.levels@,
            self.cache@ == pre.cache@,
        ensures
            self.wf(),
            !has_edge(self.follows@, u, f),
            has_edge(pre.follows@, u, f),
            edge_pairs(self.follows@) == toggled(edge_pairs(pre.follows@), (u, f)),
    {
        lemma_edge_pairs_remove(pre.follows@, i);
        assert(has_edge(pre.follows@, u, f)) by {
            assert(is_edge(pre.follows@[i], u, f));
        }
        assert((pre.follows@[i].content.user@, pre.follows@[i].content.is_following@) == (u, f));
        assert(edge_pairs(pre.follows@).contains((u, f))) by {
            assert(is_edge(pre.follows@[i], u, f));
        }
        assert(!edge_pairs(self.follows@).contains((u, f)));
        assert(!has_edge(self.follows@, u, f));
        assert forall|a: int, b: int|
            #![trigger self.follows@[a], self.follows@[b]]
            0 <= a < b < self.follows@.len() implies !(self.follows@[a].content.user@
            == self.follows@[b].content.user@ && self.follows@[a].content.is_following@
            == self.follows@[b].content.is_following@) && self.follows@[a].timestamp
            >= self.follows@[b].timestamp by {
            let a0 = if a < i {
                a
            } else {
                a + 1
            };
            let b0 = if b < i {
                b
            } else {
                b + 1
            };
            assert(self.follows@[a] == pre.follows@[a0]);
            assert(self.follows@[b] == pre.follows@[b0]);
        }
        assert forall|a: int| 0 <= a < self.follows@.len() implies (#[trigger]
        self.follows@[a]).logtype@ == "follow"@ && self.follows@[a].content.user@
            != self.follows@[a].content.is_following@ by {
            let a0 = if a < i {
                a
            } else {
                a + 1
            };
            assert(self.follows@[a] == pre.follows@[a0]);
        }
    }

    /// Inserting a fresh row for an absent pair, at a position that keeps
    /// the newest-first order, flips that pair into the graph and preserves
    /// the invariants.
    proof fn lemma_follow_inserted(self, pre: Database, j: int, u: Seq<char>, f: Seq<char>)
        requires
            pre.wf(),
            0 <= j <= pre.follows@.len(),
            !has_edge(pre.follows@, u, f),
            u != f,
            self.follows@ == pre.follows@.insert(j, self.follows@[j]),
            is_edge(self.follows@[j], u, f),
            self.follows@[j].logtype@ == "follow"@,
            forall|k: int|
                0 <= k < j ==> self.follows@[j].timestamp <= (#[trigger] pre.follows@[k]).timestamp,
            j < pre.follows@.len() ==> pre.follows@[j].timestamp < self.follows@[j].timestamp,
            self.users@ == pre.users@,
            self.levels@ == pre.levels@,
            self.cache@ == pre.cache@,
        ensures
            self.wf(),
            has_edge(self.follows@, u, f),
            edge_pairs(self.follows@) == toggled(edge_pairs(pre.follows@), (u, f)),
    {
        lemma_edge_pairs_insert(pre.follows@, j, self.follows@[j]);
        assert(!edge_pairs(pre.follows@).contains((u, f)));
        assert(has_edge(self.follows@, u, f)) by {
            assert(is_edge(self.follows@[j], u, f));
        }
        assert forall|a: int, b: int|
            #![trigger self.follows@[a], self.follows@[b]]
            0 <= a < b < self.follows@.len() implies !(self.follows@[a].content.user@
            == self.follows@[b].content.user@ && self.follows@[a].content.is_following@
            == self.follows@[b].content.is_following@) && self.follows@[a].timestamp
            >= self.follows@[b].timestamp by {
            if a == j {
                let b0 = b - 1;
                assert(self.follows@[b] == pre.follows@[b0]);
                assert(!is_edge(pre.follows@[b0], u, f));
                if j < pre.follows@.len() {
                    assert(pre.follows@[j].timestamp >= pre.follows@[b0].timestamp);
                }
            } else if b == j {
                let a0 = a;
                assert(self.follows@[a] == pre.follows@[a0]);
                assert(!is_edge(pre.follows@[a0], u, f));
            } else {
                let a0 = if a < j {
                    a
                } else {
                    a - 1
                };
                let b0 = if b < j {
                    b
                } else {
                    b - 1
                };
                assert(self.follows@[a] == pre.follows@[a0]);
                assert(self.follows@[b] == pre.follows@[b0]);
            }
        }
        assert forall|a: int| 0 <= a < self.follows@.len() implies (#[trigger]
        self.follows@[a]).logtype@ == "follow"@ && self.follows@[a].content.user@
            != self.follows@[a].content.is_following@ by {
            if a != j {
                let a0 = if a < j {
                    a
                } else {
                    a - 1
                };
                assert(self.follows@[a] == pre.follows@[a0]);
            }
        }
    }

    /// Get a [`RoleLevelLog`] by its role `name`. Total: an unknown name
    /// resolves to the default lowest-privilege level.
    pub fn get_level_by_role(&self, name: String) -> (r: RoleLevelLog)
        requires
            self.wf(),
        ensures
            resolves_to_log(self.levels@, name@, r),
    {
        let mut i: usize = 0;
        while i < self.levels.len()
            invariant
                0 <= i <= self.levels@.len(),
                forall|k: int| 0 <= k < i ==> (#[trigger] self.levels@[k]).level.name@ != name@,
                self.wf(),
            decreases self.levels@.len() - i,
        {
            if self.levels[i].level.name == name {
                let r = self.levels[i].clone();
                proof {
                    assert(self.levels@[i as int].level.name@ == name@);
                    assert(has_level(self.levels@, name@));
                    let w = level_index(self.levels@, name@);
                    assert(self.levels@[w].level.name@ == name@);
                    assert(w == i as int);
                }
                return r;
            }
            i = i + 1;
        }
        proof {
            assert(!has_level(self.levels@, name@));
        }
        default_level()
    }
}

} // verus!
