//! The shape every registered username must have.

use vstd::prelude::*;

verus! {

/// Shortest accepted username, in characters.
pub const USERNAME_MIN_LEN: usize = 2;

/// Longest accepted username, in characters.
pub const USERNAME_MAX_LEN: usize = 500;

/// A character allowed in a username: an ASCII letter, an ASCII digit,
/// or one of `_ - . !`.
pub open spec fn valid_username_char(c: char) -> bool {
    ('a' <= c && c <= 'z') || ('A' <= c && c <= 'Z') || ('0' <= c && c <= '9') || c == '_' || c
        == '-' || c == '.' || c == '!'
}

/// A well-formed username: 2 to 500 characters, all of them allowed.
pub open spec fn valid_username(s: Seq<char>) -> bool {
    USERNAME_MIN_LEN <= s.len() && s.len() <= USERNAME_MAX_LEN && (forall|i: int|
        0 <= i < s.len() ==> valid_username_char(s[i]))
}

/// Decides whether `s` is a well-formed username.
pub fn check_username(s: &str) -> (r: bool)
    ensures
        r == valid_username(s@),
{
    let len = s.unicode_len();
    if len < USERNAME_MIN_LEN || len > USERNAME_MAX_LEN {
        return false;
    }
    let mut i: usize = 0;
    while i < len
        invariant
            0 <= i <= len,
            len == s@.len(),
            USERNAME_MIN_LEN <= len <= USERNAME_MAX_LEN,
            forall|j: int| 0 <= j < i ==> valid_username_char(s@[j]),
        decreases len - i,
    {
        let c = s.get_char(i);
        let ok = ('a' <= c && c <= 'z') || ('A' <= c && c <= 'Z') || ('0' <= c && c <= '9') || c
            == '_' || c == '-' || c == '.' || c == '!';
        if !ok {
            return false;
        }
        i = i + 1;
    }
    true
}

} // verus!
