//! Account records, role levels, and the values the directory hands out.

use vstd::prelude::*;

verus! {

/// The structured blob attached to every account.
#[derive(Debug)]
pub struct UserMetadata {
    /// The user's "about" text.
    pub about: String,
    /// URL of the user's avatar, if one is set.
    pub avatar_url: Option<String>,
    /// Hash of a secondary token the user can resolve their account with.
    pub secondary_token: Option<String>,
    /// Display name; set to the username at creation.
    pub nickname: Option<String>,
}

/// One stored account row.
#[derive(Debug)]
pub struct UserState {
    /// Unique, stable lookup key.
    pub username: String,
    /// One-way derived stable public identifier.
    pub id_hashed: String,
    /// Role tag, resolved to a privilege level by the role registry.
    pub role: String,
    /// Creation time, milliseconds since the Unix epoch.
    pub timestamp: u128,
    /// The account's metadata.
    pub metadata: UserMetadata,
}

/// A privilege level the role registry resolves a role name to.
#[derive(Debug)]
pub struct RoleLevel {
    /// Integer rank; 0 is the unprivileged tier.
    pub elevation: i32,
    /// The role name this level belongs to.
    pub name: String,
    /// Named permissions granted by the level.
    pub permissions: Vec<String>,
}

/// A registry entry: a stored privilege level under its registry id.
#[derive(Debug)]
pub struct RoleLevelLog {
    /// Registry row id.
    pub id: String,
    /// The stored level.
    pub level: RoleLevel,
}

/// An account row together with its resolved privilege level.
#[derive(Debug)]
pub struct FullUser {
    /// The stored account.
    pub user: UserState,
    /// The level its role resolves to.
    pub level: RoleLevel,
}

/// What a successful registration returns: the one-time unhashed id
/// (disclosed exactly once, never stored) and the stable hashed id.
#[derive(Debug)]
pub struct CreatedUser {
    /// The opaque credential; the caller sees it here and nowhere else.
    pub id_unhashed: String,
    /// The one-way derived public identifier stored on the account row.
    pub id_hashed: String,
}

/// Field-wise equality of two privilege levels, over their views.
pub open spec fn level_eq(a: RoleLevel, b: RoleLevel) -> bool {
    a.elevation == b.elevation && a.name@ == b.name@ && a.permissions@ == b.permissions@
}

/// Field-wise equality of two registry entries, over their views.
pub open spec fn level_log_eq(a: RoleLevelLog, b: RoleLevelLog) -> bool {
    a.id@ == b.id@ && level_eq(a.level, b.level)
}

/// The privilege level an unknown role name resolves to: the unprivileged
/// "member" tier with no permissions.
pub open spec fn is_default_role_level(l: RoleLevel) -> bool {
    l.name@ == "member"@ && l.elevation == 0 && l.permissions@ == Seq::<String>::empty()
}

/// The registry entry an unknown role name resolves to: the default
/// lowest-privilege level under an empty registry id.
pub open spec fn is_default_level(l: RoleLevelLog) -> bool {
    l.id@ == Seq::<char>::empty() && is_default_role_level(l.level)
}

/// Builds the level an unknown role name resolves to.
pub fn default_level() -> (r: RoleLevelLog)
    ensures
        is_default_level(r),
{
    RoleLevelLog {
        id: String::new(),
        level: RoleLevel { elevation: 0, name: String::from_str("member"), permissions: Vec::new() },
    }
}

fn clone_opt_string(o: &Option<String>) -> (r: Option<String>)
    ensures
        r == *o,
{
    match o {
        Some(s) => Some(s.clone()),
        None => None,
    }
}

fn clone_string_vec(v: &Vec<String>) -> (r: Vec<String>)
    ensures
        r@ == v@,
{
    let mut out: Vec<String> = Vec::new();
    let mut i: usize = 0;
    while i < v.len()
        invariant
            0 <= i <= v@.len(),
            out@ =~= v@.subrange(0, i as int),
        decreases v@.len() - i,
    {
        out.push(v[i].clone());
        i = i + 1;
    }
    assert(out@ =~= v@);
    out
}

impl Clone for UserMetadata {
    /// A deep copy that is spec-equal to the original.
    fn clone(&self) -> (r: Self)
        ensures
            r == *self,
    {
        UserMetadata {
            about: self.about.clone(),
            avatar_url: clone_opt_string(&self.avatar_url),
            secondary_token: clone_opt_string(&self.secondary_token),
            nickname: clone_opt_string(&self.nickname),
        }
    }
}

impl Clone for UserState {
    /// A deep copy that is spec-equal to the original.
    fn clone(&self) -> (r: Self)
        ensures
            r == *self,
    {
        UserState {
            username: self.username.clone(),
            id_hashed: self.id_hashed.clone(),
            role: self.role.clone(),
            timestamp: self.timestamp,
            metadata: self.metadata.clone(),
        }
    }
}

impl Clone for RoleLevel {
    /// A deep copy, field-wise equal to the original.
    fn clone(&self) -> (r: Self)
        ensures
            level_eq(r, *self),
    {
        RoleLevel {
            elevation: self.elevation,
            name: self.name.clone(),
            permissions: clone_string_vec(&self.permissions),
        }
    }
}

impl Clone for RoleLevelLog {
    /// A deep copy, field-wise equal to the original.
    fn clone(&self) -> (r: Self)
        ensures
            level_log_eq(r, *self),
    {
        RoleLevelLog { id: self.id.clone(), level: self.level.clone() }
    }
}

impl Clone for FullUser {
    /// A deep copy, field-wise equal to the original.
    fn clone(&self) -> (r: Self)
        ensures
            r.user == self.user,
            level_eq(r.level, self.level),
    {
        FullUser { user: self.user.clone(), level: self.level.clone() }
    }
}

} // verus!
