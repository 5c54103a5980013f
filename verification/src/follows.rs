//! Follow edges: the log rows that carry them, the spec view of the graph,
//! and the laws of toggling and pagination.

use vstd::prelude::*;

verus! {

/// A directed follow relation: `user` follows `is_following`.
#[derive(Debug)]
pub struct UserFollow {
    /// The account doing the following.
    pub user: String,
    /// The account being followed.
    pub is_following: String,
}

/// One append-only log row. The follow graph stores every edge as a row
/// with logtype "follow" and the ordered username pair as content.
#[derive(Debug)]
pub struct Log {
    /// Row id.
    pub id: String,
    /// Kind tag of the row; "follow" for every row of the follow graph.
    pub logtype: String,
    /// Creation time, milliseconds since the Unix epoch.
    pub timestamp: u128,
    /// The edge the row carries.
    pub content: UserFollow,
}

impl Clone for UserFollow {
    /// A deep copy that is spec-equal to the original.
    fn clone(&self) -> (r: Self)
        ensures
            r == *self,
    {
        UserFollow { user: self.user.clone(), is_following: self.is_following.clone() }
    }
}

impl Clone for Log {
    /// A deep copy that is spec-equal to the original.
    fn clone(&self) -> (r: Self)
        ensures
            r == *self,
    {
        Log {
            id: self.id.clone(),
            logtype: self.logtype.clone(),
            timestamp: self.timestamp,
            content: self.content.clone(),
        }
    }
}

/// Rows per page of the follow listings.
pub const PAGE_SIZE: usize = 50;

/// Does row `l` carry the edge `user` -> `is_following`?
pub open spec fn is_edge(l: Log, user: Seq<char>, is_following: Seq<char>) -> bool {
    l.content.user@ == user && l.content.is_following@ == is_following
}

/// Does some row of `logs` carry the edge `user` -> `is_following`?
pub open spec fn has_edge(logs: Seq<Log>, user: Seq<char>, is_following: Seq<char>) -> bool {
    exists|i: int| 0 <= i < logs.len() && #[trigger] is_edge(logs[i], user, is_following)
}

/// The rows whose target is `user`, in stored order.
pub open spec fn followers_of(logs: Seq<Log>, user: Seq<char>) -> Seq<Log> {
    logs.filter(|l: Log| l.content.is_following@ == user)
}

/// The rows whose source is `user`, in stored order.
pub open spec fn following_of(logs: Seq<Log>, user: Seq<char>) -> Seq<Log> {
    logs.filter(|l: Log| l.content.user@ == user)
}

/// Timestamps never increase along the stored order.
pub open spec fn sorted_desc(logs: Seq<Log>) -> bool {
    forall|i: int, j: int|
        #![trigger logs[i], logs[j]]
        0 <= i <= j < logs.len() ==> logs[i].timestamp >= logs[j].timestamp
}

/// No two rows carry the same ordered pair.
pub open spec fn unique_pairs(logs: Seq<Log>) -> bool {
    forall|i: int, j: int|
        #![trigger logs[i], logs[j]]
        0 <= i < j < logs.len() ==> !(logs[i].content.user@ == logs[j].content.user@
            && logs[i].content.is_following@ == logs[j].content.is_following@)
}

/// Every row is a proper follow row: logtype "follow" and no self edge.
pub open spec fn follow_rows(logs: Seq<Log>) -> bool {
    forall|i: int|
        0 <= i < logs.len() ==> (#[trigger] logs[i]).logtype@ == "follow"@
            && logs[i].content.user@ != logs[i].content.is_following@
}

/// The set of ordered pairs whose edge is present.
pub open spec fn edge_pairs(logs: Seq<Log>) -> Set<(Seq<char>, Seq<char>)> {
    Set::new(|p: (Seq<char>, Seq<char>)| has_edge(logs, p.0, p.1))
}

/// What one toggle does to the pair set: it flips the existence of `p`.
pub open spec fn toggled(
    pairs: Set<(Seq<char>, Seq<char>)>,
    p: (Seq<char>, Seq<char>),
) -> Set<(Seq<char>, Seq<char>)> {
    if pairs.contains(p) {
        pairs.remove(p)
    } else {
        pairs.insert(p)
    }
}

/// Law: toggling the same ordered pair twice returns the edge set to its
/// prior state — after the first toggle the pair's presence is flipped,
/// after the second it is back where it started.
pub proof fn lemma_toggle_twice(pairs: Set<(Seq<char>, Seq<char>)>, p: (Seq<char>, Seq<char>))
    ensures
        toggled(toggled(pairs, p), p) == pairs,
{
    if pairs.contains(p) {
        assert(toggled(toggled(pairs, p), p) =~= pairs);
    } else {
        assert(toggled(toggled(pairs, p), p) =~= pairs);
    }
}

/// The listing offset actually applied: the given one when present and
/// non-negative, zero otherwise.
pub open spec fn eff_offset(offset: Option<i32>) -> int {
    match offset {
        Option::Some(o) => if o >= 0 {
            o as int
        } else {
            0
        },
        Option::None => 0,
    }
}

/// Where the page at `offset` starts: `offset`, clamped to the listing.
pub open spec fn page_start(s: Seq<Log>, offset: int) -> int {
    if offset <= s.len() {
        offset
    } else {
        s.len() as int
    }
}

/// Where the page at `offset` ends: `PAGE_SIZE` rows later, clamped.
pub open spec fn page_end(s: Seq<Log>, offset: int) -> int {
    if offset + PAGE_SIZE <= s.len() {
        offset + PAGE_SIZE
    } else {
        s.len() as int
    }
}

/// The page of listing `s` at `offset`: up to `PAGE_SIZE` rows from
/// `offset` on.
pub open spec fn page_of(s: Seq<Log>, offset: int) -> Seq<Log>
    recommends
        0 <= offset,
{
    s.subrange(page_start(s, offset), page_end(s, offset))
}

/// The number of rows across all pages of `s`, paging from the front.
pub open spec fn paged_total(s: Seq<Log>) -> nat
    decreases s.len(),
{
    if s.len() == 0 {
        0
    } else {
        page_of(s, 0).len() + paged_total(s.subrange(page_end(s, 0), s.len() as int))
    }
}

/// The pages of `s`, concatenated in offset order, first page first.
pub open spec fn pages_concat(s: Seq<Log>) -> Seq<Log>
    decreases s.len(),
{
    if s.len() == 0 {
        Seq::empty()
    } else {
        page_of(s, 0) + pages_concat(s.subrange(page_end(s, 0), s.len() as int))
    }
}

/// Law: paging loses and repeats nothing — the pages of a listing,
/// concatenated in offset order, are the listing itself, so a full count
/// equals the total number of rows across all pages.
pub proof fn lemma_pages_cover_count(s: Seq<Log>)
    ensures
        pages_concat(s) == s,
        paged_total(s) == s.len(),
    decreases s.len(),
{
    if s.len() == 0 {
        assert(pages_concat(s) =~= s);
    } else {
        let rest = s.subrange(page_end(s, 0), s.len() as int);
        lemma_pages_cover_count(rest);
        assert(pages_concat(s) =~= s);
    }
}

/// Law: pages beyond the first are pages of the remainder — the page of
/// `s` at `offset >= PAGE_SIZE` is the page, at `offset - PAGE_SIZE`, of
/// `s` with its first page removed. Together with `lemma_pages_cover_count`
/// this ties the pages a listing serves at offsets 0, PAGE_SIZE,
/// 2 * PAGE_SIZE, ... to its full count.
pub proof fn lemma_page_shift(s: Seq<Log>, offset: int)
    requires
        PAGE_SIZE <= offset,
    ensures
        page_of(s, offset) == page_of(s.subrange(page_end(s, 0), s.len() as int), offset
            - PAGE_SIZE),
{
    let rest = s.subrange(page_end(s, 0), s.len() as int);
    assert(page_of(s, offset) =~= page_of(rest, offset - PAGE_SIZE));
}

/// Appending one row extends a followers listing by that row exactly when
/// the row's target matches.
pub proof fn lemma_followers_push(s: Seq<Log>, l: Log, user: Seq<char>)
    ensures
        l.content.is_following@ == user ==> followers_of(s.push(l), user) == followers_of(
            s,
            user,
        ).push(l),
        l.content.is_following@ != user ==> followers_of(s.push(l), user) == followers_of(s, user),
{
    reveal_with_fuel(Seq::filter, 2);
    assert(s.push(l).drop_last() =~= s);
    assert(s.push(l).last() == l);
}

/// Appending one row extends a following listing by that row exactly when
/// the row's source matches.
pub proof fn lemma_following_push(s: Seq<Log>, l: Log, user: Seq<char>)
    ensures
        l.content.user@ == user ==> following_of(s.push(l), user) == following_of(s, user).push(l),
        l.content.user@ != user ==> following_of(s.push(l), user) == following_of(s, user),
{
    reveal_with_fuel(Seq::filter, 2);
    assert(s.push(l).drop_last() =~= s);
    assert(s.push(l).last() == l);
}

/// Law: a present edge shows up in both listings — when the edge
/// `u` -> `f` exists, the followers listing of `f` holds a row whose source
/// is `u`, and the following listing of `u` holds a row whose target is `f`.
pub proof fn lemma_edge_listed(logs: Seq<Log>, u: Seq<char>, f: Seq<char>)
    requires
        has_edge(logs, u, f),
    ensures
        exists|k: int|
            0 <= k < followers_of(logs, f).len() && is_edge(
                #[trigger] followers_of(logs, f)[k],
                u,
                f,
            ),
        exists|k: int|
            0 <= k < following_of(logs, u).len() && is_edge(
                #[trigger] following_of(logs, u)[k],
                u,
                f,
            ),
{
    broadcast use vstd::seq_lib::group_filter_ensures;

    let i = choose|i: int| 0 <= i < logs.len() && #[trigger] is_edge(logs[i], u, f);
    assert(followers_of(logs, f).contains(logs[i]));
    let k1 = choose|k: int|
        0 <= k < followers_of(logs, f).len() && followers_of(logs, f)[k] == logs[i];
    assert(is_edge(followers_of(logs, f)[k1], u, f));
    assert(following_of(logs, u).contains(logs[i]));
    let k2 = choose|k: int|
        0 <= k < following_of(logs, u).len() && following_of(logs, u)[k] == logs[i];
    assert(is_edge(following_of(logs, u)[k2], u, f));
}

/// Inserting a row adds exactly its ordered pair to the pair set.
pub proof fn lemma_edge_pairs_insert(s: Seq<Log>, j: int, l: Log)
    requires
        0 <= j <= s.len(),
    ensures
        edge_pairs(s.insert(j, l)) == edge_pairs(s).insert(
            (l.content.user@, l.content.is_following@),
        ),
{
    let t = s.insert(j, l);
    let pair = (l.content.user@, l.content.is_following@);
    assert forall|p: (Seq<char>, Seq<char>)| #[trigger]
        edge_pairs(t).contains(p) implies edge_pairs(s).insert(pair).contains(p) by {
        let i = choose|i: int| 0 <= i < t.len() && #[trigger] is_edge(t[i], p.0, p.1);
        if i < j {
            assert(is_edge(s[i], p.0, p.1));
        } else if i == j {
            assert(t[i] == l);
        } else {
            assert(is_edge(s[i - 1], p.0, p.1));
        }
    }
    assert forall|p: (Seq<char>, Seq<char>)| #[trigger]
        edge_pairs(s).insert(pair).contains(p) implies edge_pairs(t).contains(p) by {
        if p == pair {
            assert(is_edge(t[j], p.0, p.1));
        } else {
            let i = choose|i: int| 0 <= i < s.len() && #[trigger] is_edge(s[i], p.0, p.1);
            if i < j {
                assert(is_edge(t[i], p.0, p.1));
            } else {
                assert(is_edge(t[i + 1], p.0, p.1));
            }
        }
    }
    assert(edge_pairs(t) =~= edge_pairs(s).insert(pair));
}

/// Removing a row removes exactly its ordered pair from the pair set,
/// provided no other row carries the same pair.
pub proof fn lemma_edge_pairs_remove(s: Seq<Log>, i: int)
    requires
        0 <= i < s.len(),
        unique_pairs(s),
    ensures
        edge_pairs(s.remove(i)) == edge_pairs(s).remove(
            (s[i].content.user@, s[i].content.is_following@),
        ),
{
    let t = s.remove(i);
    let pair = (s[i].content.user@, s[i].content.is_following@);
    assert forall|p: (Seq<char>, Seq<char>)| #[trigger]
        edge_pairs(t).contains(p) implies edge_pairs(s).remove(pair).contains(p) by {
        let k = choose|k: int| 0 <= k < t.len() && #[trigger] is_edge(t[k], p.0, p.1);
        if k < i {
            assert(is_edge(s[k], p.0, p.1));
        } else {
            assert(is_edge(s[k + 1], p.0, p.1));
        }
    }
    assert forall|p: (Seq<char>, Seq<char>)| #[trigger]
        edge_pairs(s).remove(pair).contains(p) implies edge_pairs(t).contains(p) by {
        let k = choose|k: int| 0 <= k < s.len() && #[trigger] is_edge(s[k], p.0, p.1);
        if k < i {
            assert(is_edge(t[k], p.0, p.1));
        } else {
            assert(k != i);
            assert(is_edge(t[k - 1], p.0, p.1));
        }
    }
    assert(edge_pairs(t) =~= edge_pairs(s).remove(pair));
}

} // verus!
