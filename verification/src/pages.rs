//! Query parameter shapes of the page layer, and the access rule of the
//! user settings page.

use vstd::prelude::*;

use crate::users::FullUser;

verus! {

/// Query properties of the auth flow pages: where to redirect afterwards.
#[derive(Debug)]
pub struct CallbackQueryProps {
    /// Redirect here after the flow finishes.
    pub callback: String,
}

/// Query properties of pages with an edit switch and a listing offset.
#[derive(Debug)]
pub struct QueryProps {
    /// Whether the page opens in edit mode.
    pub edit: Option<bool>,
    /// Listing offset; 0 when absent.
    pub offset: Option<i32>,
}

/// Query properties of the follower and following listing pages.
#[derive(Debug)]
pub struct FollowersQueryProps {
    /// Listing offset; 0 when absent.
    pub offset: Option<i32>,
}

/// Properties of a post creation request.
#[derive(Debug)]
pub struct PCreatePost {
    /// Body of the post.
    pub content: String,
    /// Username of the author.
    pub author: String,
    /// Id of the post replied to; empty when the post is no reply.
    pub reply: String,
}

/// Does the permission list hold `p`?
pub open spec fn has_permission(perms: Seq<String>, p: Seq<char>) -> bool {
    exists|i: int| 0 <= i < perms.len() && (#[trigger] perms[i])@ == p
}

/// May `viewer` manage the settings of the profile named
/// `profile_username`? Only the owner of the profile, or an account whose
/// level grants the "ManageUsers" permission.
pub fn can_manage_profile(viewer: &FullUser, profile_username: &String) -> (r: bool)
    ensures
        r == (viewer.user.username@ == profile_username@ || has_permission(
            viewer.level.permissions@,
            "ManageUsers"@,
        )),
{
    if viewer.user.username == *profile_username {
        return true;
    }
    let target = String::from_str("ManageUsers");
    let mut i: usize = 0;
    while i < viewer.level.permissions.len()
        invariant
            0 <= i <= viewer.level.permissions@.len(),
            target@ == "ManageUsers"@,
            forall|k: int| 0 <= k < i ==> (#[trigger] viewer.level.permissions@[k])@ != "ManageUsers"@,
        decreases viewer.level.permissions@.len() - i,
    {
        if viewer.level.permissions[i] == target {
            return true;
        }
        i = i + 1;
    }
    false
}

} // verus!
