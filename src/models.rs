//! Threads, comments, and the two read operations on a snapshot of the store: the filtered,
//! ordered and paginated listing of comments, and the per-parent reply counts.
//!
//! Both operations apply one filter: the comment belongs to the thread of the requested URI,
//! the mode mask selects its mode, and it was created strictly after the given instant.

use vstd::prelude::*;
use vstd::relations::{sorted_by, total_ordering};
use vstd::seq_lib::to_multiset_insert;

use crate::mode::{mask_admits, CommentMode, DEFAULT_MASK};
use crate::timestamp::{FloatDateTime, NANOS_PER_SEC};

verus! {

/// A commentable page.
pub struct Thread {
    pub id: i32,
    /// The page identifier, unique among threads.
    pub uri: String,
    pub title: String,
}

/// A stored comment.
pub struct Comment {
    pub thread_id: i32,
    /// Grows with insertion order; ties in a listing break on it.
    pub id: i32,
    /// The comment replied to, in the same thread; `None` for a root comment.
    pub parent: Option<i32>,
    pub created: FloatDateTime,
    pub modified: Option<FloatDateTime>,
    /// The moderation bit: 1 valid, 2 pending, 4 soft-deleted.
    pub mode: i32,
    /// Identifies the poster when no e-mail address was given.
    pub remote_addr: String,
    /// The body as posted, sanitized when it was written.
    pub text: String,
    pub author: Option<String>,
    pub email: Option<String>,
    pub website: Option<String>,
    pub likes: i32,
    pub dislikes: i32,
    pub notification: bool,
    /// Membership filter of the addresses that voted, read-only here.
    pub voters: Vec<u8>,
}

/// A snapshot of the two tables that a fetch reads.
pub struct Store {
    pub threads: Vec<Thread>,
    pub comments: Vec<Comment>,
}

impl Store {
    /// Comment ids are unique, as the table's primary key makes them.
    pub open spec fn wf(self) -> bool {
        forall|a: int, b: int|
            0 <= a < b < self.comments@.len() ==> #[trigger] self.comments@[a].id != #[trigger] self.comments@[b].id
    }
}

/// The column a listing is ordered by.
#[derive(Clone, Copy, Debug, PartialEq, Eq, Structural)]
pub enum OrderKey {
    Id,
    Created,
    Modified,
    Likes,
    Dislikes,
}

/// The view of an optional string.
pub open spec fn opt_view(s: Option<String>) -> Option<Seq<char>> {
    match s {
        Some(v) => Some(v@),
        None => None,
    }
}

/// The order key that a requested name selects: one of the four column names, and `id` for
/// any other name or for none.
pub open spec fn order_key_of(name: Option<Seq<char>>) -> OrderKey {
    match name {
        Some(n) => if n == "created"@ {
            OrderKey::Created
        } else if n == "modified"@ {
            OrderKey::Modified
        } else if n == "likes"@ {
            OrderKey::Likes
        } else if n == "dislikes"@ {
            OrderKey::Dislikes
        } else {
            OrderKey::Id
        },
        None => OrderKey::Id,
    }
}

impl OrderKey {
    /// The order key for a requested name; see [`order_key_of`].
    pub fn from_name(name: &Option<String>) -> (r: OrderKey)
        ensures
            r == order_key_of(opt_view(*name)),
    {
        match name {
            Some(n) => if is_word(n, "created") {
                OrderKey::Created
            } else if is_word(n, "modified") {
                OrderKey::Modified
            } else if is_word(n, "likes") {
                OrderKey::Likes
            } else if is_word(n, "dislikes") {
                OrderKey::Dislikes
            } else {
                OrderKey::Id
            },
            None => OrderKey::Id,
        }
    }
}

fn is_word(s: &String, w: &str) -> (r: bool)
    ensures
        r == (s@ == w@),
{
    let o = w.to_owned();
    *s == o
}

pub(crate) fn copy_text(s: &Option<String>) -> (r: Option<String>)
    ensures
        r == *s,
{
    match s {
        Some(v) => Some(v.clone()),
        None => None,
    }
}

impl Comment {
    /// Two comments hold the same values in every field.
    pub open spec fn same(self, o: Comment) -> bool {
        &&& self.thread_id == o.thread_id
        &&& self.id == o.id
        &&& self.parent == o.parent
        &&& self.created == o.created
        &&& self.modified == o.modified
        &&& self.mode == o.mode
        &&& self.remote_addr == o.remote_addr
        &&& self.text == o.text
        &&& self.author == o.author
        &&& self.email == o.email
        &&& self.website == o.website
        &&& self.likes == o.likes
        &&& self.dislikes == o.dislikes
        &&& self.notification == o.notification
        &&& self.voters@ == o.voters@
    }

    /// A copy of the comment.
    pub fn duplicate(&self) -> (r: Comment)
        ensures
            r.same(*self),
    {
        let voters = self.voters.clone();
        proof {
            assert(voters@ =~= self.voters@);
        }
        Comment {
            thread_id: self.thread_id,
            id: self.id,
            parent: self.parent,
            created: self.created,
            modified: self.modified,
            mode: self.mode,
            remote_addr: self.remote_addr.clone(),
            text: self.text.clone(),
            author: copy_text(&self.author),
            email: copy_text(&self.email),
            website: copy_text(&self.website),
            likes: self.likes,
            dislikes: self.dislikes,
            notification: self.notification,
            voters,
        }
    }
}

//--------------------------------------------------------------------------------------------------
// The filter

/// Whether the comment belongs to a thread whose URI is `uri`.
pub open spec fn belongs_to(threads: Seq<Thread>, c: Comment, uri: Seq<char>) -> bool {
    exists|t: int| 0 <= t < threads.len() && #[trigger] threads[t].id == c.thread_id && threads[t].uri@ == uri
}

/// The filter that the listing and the reply counts share: the comment belongs to the thread
/// of `uri`, the mask selects its mode, and it was created strictly after `after`.
pub open spec fn visible(threads: Seq<Thread>, uri: Seq<char>, mask: i32, after: int, c: Comment) -> bool {
    &&& belongs_to(threads, c, uri)
    &&& mask_admits(mask, c.mode)
    &&& c.created@ > after
}

/// Parent selection: `None` keeps root comments, `Some(0)` keeps every comment, and
/// `Some(p)` keeps the direct replies to comment `p`.
pub open spec fn under_parent(parent: Option<i32>, c: Comment) -> bool {
    match parent {
        None => c.parent is None,
        Some(p) => p == 0 || c.parent == Some(p),
    }
}

/// The positions `0 .. n` of the comment table, in order.
pub open spec fn positions(n: nat) -> Seq<usize> {
    Seq::new(n, |k: int| k as usize)
}

/// Whether the comment at position `i` is listed.
pub open spec fn listed_at(
    store: Store,
    uri: Seq<char>,
    mask: i32,
    after: int,
    parent: Option<i32>,
) -> spec_fn(usize) -> bool {
    |i: usize|
        visible(store.threads@, uri, mask, after, store.comments@[i as int]) && under_parent(
            parent,
            store.comments@[i as int],
        )
}

/// The positions of the listed comments, in table order.
pub open spec fn eligible(
    store: Store,
    uri: Seq<char>,
    mask: i32,
    after: int,
    parent: Option<i32>,
) -> Seq<usize> {
    positions(store.comments@.len()).filter(listed_at(store, uri, mask, after, parent))
}

//--------------------------------------------------------------------------------------------------
// The order

/// Sorts below the modification instant of every comment that was modified.
pub open spec fn unmodified_rank() -> int {
    i64::MIN * NANOS_PER_SEC - 1
}

/// The value of the comment that the key orders by; a comment never modified sorts before
/// every modified one.
pub open spec fn sort_value(key: OrderKey, c: Comment) -> int {
    match key {
        OrderKey::Id => c.id as int,
        OrderKey::Created => c.created@,
        OrderKey::Modified => match c.modified {
            Some(m) => m@,
            None => unmodified_rank(),
        },
        OrderKey::Likes => c.likes as int,
        OrderKey::Dislikes => c.dislikes as int,
    }
}

/// Whether the comment at position `i` may come before the one at position `j`: by the key's
/// value, ascending or descending; on equal values by ascending id; on equal ids by position.
pub open spec fn comes_before(cs: Seq<Comment>, key: OrderKey, asc: bool, i: usize, j: usize) -> bool {
    let a = cs[i as int];
    let b = cs[j as int];
    let (va, vb) = if asc {
        (sort_value(key, a), sort_value(key, b))
    } else {
        (sort_value(key, b), sort_value(key, a))
    };
    va < vb || (va == vb && (a.id < b.id || (a.id == b.id && i <= j)))
}

/// The order of a listing, as a relation on positions.
pub open spec fn listing_order(cs: Seq<Comment>, key: OrderKey, asc: bool) -> spec_fn(usize, usize) -> bool {
    |i: usize, j: usize| comes_before(cs, key, asc, i, j)
}

/// The positions a listing returns: the listed comments in the listing order, cut to `limit`
/// when one is given. A negative limit sets no bound.
pub open spec fn listing(
    store: Store,
    uri: Seq<char>,
    mask: i32,
    after: int,
    parent: Option<i32>,
    key: OrderKey,
    asc: bool,
    limit: Option<i64>,
) -> Seq<usize> {
    let sorted = eligible(store, uri, mask, after, parent).sort_by(
        listing_order(store.comments@, key, asc),
    );
    if limit is Some && 0 <= limit->0 < sorted.len() {
        sorted.take(limit->0 as int)
    } else {
        sorted
    }
}

/// `r` holds copies of the comments at the positions of the listing, in its order.
pub open spec fn is_listing(
    store: Store,
    uri: Seq<char>,
    mask: i32,
    after: int,
    parent: Option<i32>,
    key: OrderKey,
    asc: bool,
    limit: Option<i64>,
    r: Seq<Comment>,
) -> bool {
    let ix = listing(store, uri, mask, after, parent, key, asc, limit);
    &&& r.len() == ix.len()
    &&& forall|k: int| 0 <= k < r.len() ==> #[trigger] r[k].same(store.comments@[ix[k] as int])
}

/// The listing order is a total order on positions.
pub proof fn lemma_listing_order_total(cs: Seq<Comment>, key: OrderKey, asc: bool)
    ensures
        total_ordering(listing_order(cs, key, asc)),
{
    let rel = listing_order(cs, key, asc);
    assert forall|i: usize, j: usize, k: usize| #[trigger] rel(i, j) && #[trigger] rel(j, k) implies rel(i, k) by {
        assert(comes_before(cs, key, asc, i, j) && comes_before(cs, key, asc, j, k));
    }
    assert forall|i: usize, j: usize| #[trigger] rel(i, j) && #[trigger] rel(j, i) implies i == j by {
        assert(comes_before(cs, key, asc, i, j) && comes_before(cs, key, asc, j, i));
    }
    assert forall|i: usize, j: usize| #[trigger] rel(i, j) || #[trigger] rel(j, i) by {
        assert(comes_before(cs, key, asc, i, j) || comes_before(cs, key, asc, j, i));
    }
    assert forall|i: usize| #[trigger] rel(i, i) by {
        assert(comes_before(cs, key, asc, i, i));
    }
}

/// Each position of a listing is a position of the table whose comment passes the filter and
/// the parent selection; with no limit, each such position is in the listing.
proof fn lemma_listing_positions(
    store: Store,
    uri: Seq<char>,
    mask: i32,
    after: int,
    parent: Option<i32>,
    key: OrderKey,
    asc: bool,
    limit: Option<i64>,
)
    ensures
        forall|k: int|
            0 <= k < listing(store, uri, mask, after, parent, key, asc, limit).len() ==> {
                let i = #[trigger] listing(store, uri, mask, after, parent, key, asc, limit)[k];
                &&& i < store.comments@.len()
                &&& listed_at(store, uri, mask, after, parent)(i)
            },
        limit is None ==> forall|i: usize|
            i < store.comments@.len() && #[trigger] listed_at(store, uri, mask, after, parent)(i)
                ==> listing(store, uri, mask, after, parent, key, asc, limit).contains(i),
        sorted_by(listing(store, uri, mask, after, parent, key, asc, limit), listing_order(store.comments@, key, asc)),
{
    broadcast use vstd::seq_lib::group_to_multiset_ensures, vstd::seq_lib::group_filter_ensures;

    let pred = listed_at(store, uri, mask, after, parent);
    let rel = listing_order(store.comments@, key, asc);
    let el = eligible(store, uri, mask, after, parent);
    let sorted = el.sort_by(rel);
    let ix = listing(store, uri, mask, after, parent, key, asc, limit);
    lemma_listing_order_total(store.comments@, key, asc);
    el.lemma_sort_by_ensures(rel);
    assert forall|k: int| 0 <= k < ix.len() implies {
        let i = #[trigger] ix[k];
        &&& i < store.comments@.len()
        &&& pred(i)
    } by {
        let i = ix[k];
        assert(sorted[k] == i);
        assert(sorted.contains(i));
        assert(sorted.to_multiset().count(i) > 0);
        assert(el.contains(i));
        let j = choose|j: int| 0 <= j < el.len() && el[j] == i;
        assert(pred(el[j]));
        positions(store.comments@.len()).lemma_filter_contains_rev(pred, i);
    }
    if limit is None {
        assert forall|i: usize| i < store.comments@.len() && #[trigger] pred(i) implies ix.contains(i) by {
            let ps = positions(store.comments@.len());
            assert(ps[i as int] == i);
            assert(el.contains(i));
            assert(el.to_multiset().count(i) > 0);
        }
    }
    assert forall|a: int, b: int| 0 <= a < b < ix.len() implies #[trigger] rel(ix[a], ix[b]) by {
        assert(ix[a] == sorted[a] && ix[b] == sorted[b]);
    }
}

//--------------------------------------------------------------------------------------------------
// Laws of the listing

/// Without a mask override no pending comment is listed.
pub proof fn lemma_default_mask_hides_pending(
    store: Store,
    uri: Seq<char>,
    after: int,
    parent: Option<i32>,
    key: OrderKey,
    asc: bool,
    limit: Option<i64>,
    r: Seq<Comment>,
)
    requires
        is_listing(store, uri, DEFAULT_MASK, after, parent, key, asc, limit, r),
    ensures
        forall|k: int| 0 <= k < r.len() ==> #[trigger] r[k].mode != CommentMode::Pending.spec_bit(),
{
    lemma_listing_positions(store, uri, DEFAULT_MASK, after, parent, key, asc, limit);
    let ix = listing(store, uri, DEFAULT_MASK, after, parent, key, asc, limit);
    assert forall|k: int| 0 <= k < r.len() implies #[trigger] r[k].mode != CommentMode::Pending.spec_bit() by {
        assert(r[k].same(store.comments@[ix[k] as int]));
        assert(mask_admits(DEFAULT_MASK, store.comments@[ix[k] as int].mode));
        let m = r[k].mode;
        assert(m == 2i32 ==> (5i32 | m) != 5i32) by (bit_vector);
    }
}

/// Parent selection: with `None` only root comments are listed; with `Some(p)`, `p` not `0`,
/// only direct replies to `p`; with `Some(0)` and no limit, every comment that passes the
/// shared filter is listed, whatever its parent.
pub proof fn lemma_parent_selection(
    store: Store,
    uri: Seq<char>,
    mask: i32,
    after: int,
    parent: Option<i32>,
    key: OrderKey,
    asc: bool,
    limit: Option<i64>,
    r: Seq<Comment>,
)
    requires
        is_listing(store, uri, mask, after, parent, key, asc, limit, r),
    ensures
        parent is None ==> forall|k: int| 0 <= k < r.len() ==> (#[trigger] r[k]).parent is None,
        parent matches Some(p) && p != 0 ==> forall|k: int|
            0 <= k < r.len() ==> (#[trigger] r[k]).parent == parent,
        parent == Some(0i32) && limit is None ==> forall|i: usize|
            i < store.comments@.len() && visible(store.threads@, uri, mask, after, #[trigger] store.comments@[i as int])
                ==> exists|k: int| 0 <= k < r.len() && r[k].same(store.comments@[i as int]),
{
    lemma_listing_positions(store, uri, mask, after, parent, key, asc, limit);
    let ix = listing(store, uri, mask, after, parent, key, asc, limit);
    let pred = listed_at(store, uri, mask, after, parent);
    assert forall|k: int| 0 <= k < r.len() implies under_parent(parent, #[trigger] r[k]) by {
        assert(r[k].same(store.comments@[ix[k] as int]));
        assert(pred(ix[k]));
    }
    if parent == Some(0i32) && limit is None {
        assert forall|i: usize|
            i < store.comments@.len() && visible(store.threads@, uri, mask, after, #[trigger] store.comments@[i as int])
                implies exists|k: int| 0 <= k < r.len() && r[k].same(store.comments@[i as int]) by {
            assert(pred(i));
            assert(ix.contains(i));
            let k = choose|k: int| 0 <= k < ix.len() && ix[k] == i;
            assert(r[k].same(store.comments@[ix[k] as int]));
        }
    }
}

/// Two listings with the same parameters over the same store hold the same comments in the
/// same order.
pub proof fn lemma_listing_stable(
    store: Store,
    uri: Seq<char>,
    mask: i32,
    after: int,
    parent: Option<i32>,
    key: OrderKey,
    asc: bool,
    limit: Option<i64>,
    r1: Seq<Comment>,
    r2: Seq<Comment>,
)
    requires
        is_listing(store, uri, mask, after, parent, key, asc, limit, r1),
        is_listing(store, uri, mask, after, parent, key, asc, limit, r2),
    ensures
        r1.len() == r2.len(),
        forall|k: int| 0 <= k < r1.len() ==> (#[trigger] r1[k]).same(r2[k]),
{
    let ix = listing(store, uri, mask, after, parent, key, asc, limit);
    assert forall|k: int| 0 <= k < r1.len() implies (#[trigger] r1[k]).same(r2[k]) by {
        assert(r1[k].same(store.comments@[ix[k] as int]));
        assert(r2[k].same(store.comments@[ix[k] as int]));
    }
}

/// The positions among the first `i` that satisfy `pred` are distinct and below `i`.
proof fn lemma_filtered_positions_distinct(pred: spec_fn(usize) -> bool, i: nat)
    requires
        i <= usize::MAX + 1,
    ensures
        positions(i).filter(pred).no_duplicates(),
        forall|k: int| 0 <= k < positions(i).filter(pred).len() ==> #[trigger] positions(i).filter(pred)[k] < i,
    decreases i,
{
    let f = positions(i).filter(pred);
    if i == 0 {
        positions(0).lemma_filter_len(pred);
        assert(f.len() == 0);
    } else {
        let j = (i - 1) as nat;
        lemma_filtered_positions_distinct(pred, j);
        assert(positions(i) =~= positions(j).push(j as usize));
        positions(j).lemma_filter_push(j as usize, pred);
    }
}

/// A listing repeats no position.
proof fn lemma_listing_distinct(
    store: Store,
    uri: Seq<char>,
    mask: i32,
    after: int,
    parent: Option<i32>,
    key: OrderKey,
    asc: bool,
    limit: Option<i64>,
)
    requires
        store.comments@.len() <= usize::MAX,
    ensures
        listing(store, uri, mask, after, parent, key, asc, limit).no_duplicates(),
{
    broadcast use vstd::seq_lib::group_to_multiset_ensures;

    let rel = listing_order(store.comments@, key, asc);
    let el = eligible(store, uri, mask, after, parent);
    let sorted = el.sort_by(rel);
    let ix = listing(store, uri, mask, after, parent, key, asc, limit);
    lemma_listing_order_total(store.comments@, key, asc);
    el.lemma_sort_by_ensures(rel);
    lemma_filtered_positions_distinct(listed_at(store, uri, mask, after, parent), store.comments@.len());
    el.lemma_multiset_has_no_duplicates();
    sorted.lemma_multiset_has_no_duplicates_conv();
    assert forall|a: int, b: int| 0 <= a < ix.len() && 0 <= b < ix.len() && a != b implies ix[a] != ix[b] by {
        assert(ix[a] == sorted[a] && ix[b] == sorted[b]);
    }
}

/// A listing is in the order of its key, ascending or descending as asked; comments with equal
/// values of the key come by ascending id, strictly so when the store's comment ids are unique.
pub proof fn lemma_listing_ordered(
    store: Store,
    uri: Seq<char>,
    mask: i32,
    after: int,
    parent: Option<i32>,
    key: OrderKey,
    asc: bool,
    limit: Option<i64>,
    r: Seq<Comment>,
)
    requires
        is_listing(store, uri, mask, after, parent, key, asc, limit, r),
    ensures
        forall|a: int, b: int|
            0 <= a < b < r.len() ==> {
                let va = sort_value(key, #[trigger] r[a]);
                let vb = sort_value(key, #[trigger] r[b]);
                (if asc { va < vb } else { va > vb }) || (va == vb && r[a].id <= r[b].id)
            },
        store.wf() ==> forall|a: int, b: int|
            0 <= a < b < r.len() ==> {
                let va = sort_value(key, #[trigger] r[a]);
                let vb = sort_value(key, #[trigger] r[b]);
                (if asc { va < vb } else { va > vb }) || (va == vb && r[a].id < r[b].id)
            },
{
    lemma_listing_positions(store, uri, mask, after, parent, key, asc, limit);
    let ix = listing(store, uri, mask, after, parent, key, asc, limit);
    let rel = listing_order(store.comments@, key, asc);
    let cs = store.comments@;
    assert forall|a: int, b: int| 0 <= a < b < r.len() implies {
        let va = sort_value(key, #[trigger] r[a]);
        let vb = sort_value(key, #[trigger] r[b]);
        (if asc { va < vb } else { va > vb }) || (va == vb && r[a].id <= r[b].id)
    } by {
        assert(r[a].same(cs[ix[a] as int]));
        assert(r[b].same(cs[ix[b] as int]));
        assert(rel(ix[a], ix[b]));
        assert(comes_before(cs, key, asc, ix[a], ix[b]));
    }
    if store.wf() {
        assert(cs.len() == store.comments.len());
        lemma_listing_distinct(store, uri, mask, after, parent, key, asc, limit);
        assert forall|a: int, b: int| 0 <= a < b < r.len() implies {
            let va = sort_value(key, #[trigger] r[a]);
            let vb = sort_value(key, #[trigger] r[b]);
            (if asc { va < vb } else { va > vb }) || (va == vb && r[a].id < r[b].id)
        } by {
            assert(r[a].same(cs[ix[a] as int]));
            assert(r[b].same(cs[ix[b] as int]));
            assert(rel(ix[a], ix[b]));
            assert(comes_before(cs, key, asc, ix[a], ix[b]));
            assert(ix[a] != ix[b]);
            let (i, j) = (ix[a] as int, ix[b] as int);
            if i < j {
                assert(cs[i].id != cs[j].id);
            } else {
                assert(cs[j].id != cs[i].id);
            }
        }
    }
}

/// A name that is none of the four column names orders a listing as `id` does.
pub proof fn lemma_unknown_order_key(
    store: Store,
    uri: Seq<char>,
    mask: i32,
    after: int,
    parent: Option<i32>,
    name: Seq<char>,
    asc: bool,
    limit: Option<i64>,
)
    requires
        name != "created"@,
        name != "modified"@,
        name != "likes"@,
        name != "dislikes"@,
    ensures
        order_key_of(Some(name)) == order_key_of(Some("id"@)),
        listing(store, uri, mask, after, parent, order_key_of(Some(name)), asc, limit)
            == listing(store, uri, mask, after, parent, order_key_of(Some("id"@)), asc, limit),
{
    reveal_strlit("id");
    reveal_strlit("created");
    reveal_strlit("modified");
    reveal_strlit("likes");
    reveal_strlit("dislikes");
    assert("id"@.len() == 2);
    assert("id"@ != "created"@);
    assert("id"@ != "modified"@);
    assert("id"@ != "likes"@);
    assert("id"@ != "dislikes"@);
}

//--------------------------------------------------------------------------------------------------
// Reply counts

/// Whether the comment at position `i` passes the shared filter and replies to `p` (is a root
/// comment when `p` is `None`).
pub open spec fn counted_at(
    store: Store,
    uri: Seq<char>,
    mask: i32,
    after: int,
    p: Option<i32>,
) -> spec_fn(usize) -> bool {
    |i: usize|
        visible(store.threads@, uri, mask, after, store.comments@[i as int]) && store.comments@[i
            as int].parent == p
}

/// How many of the first `i` comments of the table pass the shared filter and reply to `p`.
pub open spec fn replies_before(
    store: Store,
    uri: Seq<char>,
    mask: i32,
    after: int,
    p: Option<i32>,
    i: nat,
) -> nat {
    positions(i).filter(counted_at(store, uri, mask, after, p)).len()
}

/// How many comments of the table pass the shared filter and reply to `p`.
pub open spec fn reply_total(store: Store, uri: Seq<char>, mask: i32, after: int, p: Option<i32>) -> nat {
    replies_before(store, uri, mask, after, p, store.comments@.len())
}

/// `r` counts, over the first `i` comments, the ones that pass the shared filter, by parent:
/// one entry for each parent that has any, with its exact count.
pub open spec fn counts_before(
    store: Store,
    uri: Seq<char>,
    mask: i32,
    after: int,
    i: nat,
    r: Seq<(Option<i32>, i64)>,
) -> bool {
    &&& forall|a: int, b: int| 0 <= a < b < r.len() ==> #[trigger] r[a].0 != #[trigger] r[b].0
    &&& forall|k: int|
        0 <= k < r.len() ==> #[trigger] r[k].1 == replies_before(store, uri, mask, after, r[k].0, i)
            && r[k].1 > 0
    &&& forall|p: Option<i32>|
        #[trigger] replies_before(store, uri, mask, after, p, i) > 0 ==> exists|k: int|
            0 <= k < r.len() && r[k].0 == p
}

/// `r` maps each parent (the root bucket `None` included) to the number of comments of the
/// table that pass the shared filter and reply to it; parents with none are left out.
pub open spec fn is_reply_count(
    store: Store,
    uri: Seq<char>,
    mask: i32,
    after: int,
    r: Seq<(Option<i32>, i64)>,
) -> bool {
    counts_before(store, uri, mask, after, store.comments@.len(), r)
}

//--------------------------------------------------------------------------------------------------
// Evaluation

fn same_parent(a: Option<i32>, b: Option<i32>) -> (r: bool)
    ensures
        r == (a == b),
{
    match (a, b) {
        (Some(x), Some(y)) => x == y,
        (None, None) => true,
        _ => false,
    }
}

fn belongs(threads: &Vec<Thread>, c: &Comment, uri: &String) -> (r: bool)
    ensures
        r == belongs_to(threads@, *c, uri@),
{
    let mut t: usize = 0;
    while t < threads.len()
        invariant
            t <= threads@.len(),
            forall|u: int| 0 <= u < t ==> !(#[trigger] threads@[u].id == c.thread_id && threads@[u].uri@ == uri@),
        decreases threads.len() - t,
    {
        if threads[t].id == c.thread_id && threads[t].uri == *uri {
            return true;
        }
        t += 1;
    }
    false
}

fn is_visible(threads: &Vec<Thread>, uri: &String, mask: i32, after: &FloatDateTime, c: &Comment) -> (r: bool)
    ensures
        r == visible(threads@, uri@, mask, after@, *c),
{
    (mask | c.mode) == mask && c.created.is_after(after) && belongs(threads, c, uri)
}

fn is_under_parent(parent: Option<i32>, c: &Comment) -> (r: bool)
    ensures
        r == under_parent(parent, *c),
{
    match parent {
        None => c.parent.is_none(),
        Some(p) => p == 0 || (match c.parent {
            Some(q) => q == p,
            None => false,
        }),
    }
}

fn sort_value_of(key: OrderKey, c: &Comment) -> (r: i128)
    ensures
        r == sort_value(key, *c),
{
    match key {
        OrderKey::Id => c.id as i128,
        OrderKey::Created => c.created.total_nanos(),
        OrderKey::Modified => match &c.modified {
            Some(m) => m.total_nanos(),
            None => i64::MIN as i128 * NANOS_PER_SEC as i128 - 1,
        },
        OrderKey::Likes => c.likes as i128,
        OrderKey::Dislikes => c.dislikes as i128,
    }
}

fn precedes(cs: &Vec<Comment>, key: OrderKey, asc: bool, i: usize, j: usize) -> (r: bool)
    requires
        i < cs@.len(),
        j < cs@.len(),
    ensures
        r == comes_before(cs@, key, asc, i, j),
{
    let a = &cs[i];
    let b = &cs[j];
    let (va, vb) = if asc {
        (sort_value_of(key, a), sort_value_of(key, b))
    } else {
        (sort_value_of(key, b), sort_value_of(key, a))
    };
    va < vb || (va == vb && (a.id < b.id || (a.id == b.id && i <= j)))
}

/// Inserting `x` at `p` keeps `s` sorted when everything before `p` comes before `x` and `x`
/// comes before what stands at `p`.
proof fn lemma_insert_sorted(s: Seq<usize>, p: int, x: usize, rel: spec_fn(usize, usize) -> bool)
    requires
        total_ordering(rel),
        sorted_by(s, rel),
        0 <= p <= s.len(),
        forall|k: int| 0 <= k < p ==> #[trigger] rel(s[k], x),
        p < s.len() ==> rel(x, s[p]),
    ensures
        sorted_by(s.insert(p, x), rel),
{
    let w = s.insert(p, x);
    assert forall|a: int, b: int| 0 <= a < b < w.len() implies #[trigger] rel(w[a], w[b]) by {
        if b < p {
        } else if b == p {
        } else if a < p {
            assert(rel(s[a], s[b - 1]));
        } else if a == p {
            if b - 1 > p {
                assert(rel(s[p], s[b - 1]));
            }
        } else {
            assert(rel(s[a - 1], s[b - 1]));
        }
    }
}

impl Comment {
    /// The comments of the thread of `uri` that the mask `mode` (by default
    /// [`DEFAULT_MASK`]) selects, created strictly after `after`, under `parent` (see
    /// [`under_parent`]), ordered by the column `order_by` names (by default `id`), ascending
    /// or descending as `asc` says, ties broken by ascending id, and cut to `limit` when a
    /// non-negative one is given.
    pub fn fetch(
        store: &Store,
        uri: String,
        mode: Option<i32>,
        after: FloatDateTime,
        parent: Option<i32>,
        order_by: Option<String>,
        asc: bool,
        limit: Option<i64>,
    ) -> (r: Vec<Comment>)
        ensures
            is_listing(
                *store,
                uri@,
                mode.unwrap_or(DEFAULT_MASK),
                after@,
                parent,
                order_key_of(opt_view(order_by)),
                asc,
                limit,
                r@,
            ),
    {
        let mask = CommentMode::mask(mode).bits;
        let key = OrderKey::from_name(&order_by);
        let cs = &store.comments;
        let n = cs.len();
        let ghost pred = listed_at(*store, uri@, mask, after@, parent);
        let ghost rel = listing_order(cs@, key, asc);
        let mut v: Vec<usize> = Vec::new();
        proof {
            lemma_listing_order_total(cs@, key, asc);
            positions(0).lemma_filter_len(pred);
            assert(positions(0).filter(pred) =~= v@);
        }
        let mut i: usize = 0;
        while i < n
            invariant
                n == cs@.len(),
                i <= n,
                cs@ == store.comments@,
                pred == listed_at(*store, uri@, mask, after@, parent),
                rel == listing_order(cs@, key, asc),
                total_ordering(rel),
                sorted_by(v@, rel),
                forall|k: int| 0 <= k < v@.len() ==> #[trigger] v@[k] < n,
                v@.to_multiset() == positions(i as nat).filter(pred).to_multiset(),
            decreases n - i,
        {
            let listed = is_visible(&store.threads, &uri, mask, &after, &cs[i]) && is_under_parent(parent, &cs[i]);
            proof {
                assert(positions((i + 1) as nat) =~= positions(i as nat).push(i));
                positions(i as nat).lemma_filter_push(i, pred);
                assert(pred(i) == listed);
                vstd::seq_lib::to_multiset_build(positions(i as nat).filter(pred), i);
            }
            if listed {
                let mut p: usize = 0;
                while p < v.len() && precedes(cs, key, asc, v[p], i)
                    invariant
                        n == cs@.len(),
                        i < n,
                        rel == listing_order(cs@, key, asc),
                        p <= v@.len(),
                        forall|k: int| 0 <= k < v@.len() ==> #[trigger] v@[k] < n,
                        forall|k: int| 0 <= k < p ==> #[trigger] rel(v@[k], i),
                    decreases v@.len() - p,
                {
                    p += 1;
                }
                proof {
                    if p < v@.len() {
                        assert(!rel(v@[p as int], i));
                        assert(rel(v@[p as int], i) || rel(i, v@[p as int]));
                    }
                    lemma_insert_sorted(v@, p as int, i, rel);
                    to_multiset_insert(v@, p as int, i);
                }
                v.insert(p, i);
            }
            i += 1;
        }
        let ghost sorted = eligible(*store, uri@, mask, after@, parent).sort_by(rel);
        proof {
            eligible(*store, uri@, mask, after@, parent).lemma_sort_by_ensures(rel);
            vstd::seq_lib::lemma_sorted_unique(v@, sorted, rel);
        }
        match limit {
            Some(l) => {
                if l >= 0 && (l as u64) < (v.len() as u64) {
                    v.truncate(l as usize);
                }
            },
            None => {},
        }
        let mut out: Vec<Comment> = Vec::new();
        let mut k: usize = 0;
        while k < v.len()
            invariant
                k <= v@.len(),
                forall|j: int| 0 <= j < v@.len() ==> #[trigger] v@[j] < n,
                n == cs@.len(),
                out@.len() == k,
                forall|j: int| 0 <= j < k ==> #[trigger] out@[j].same(cs@[v@[j] as int]),
            decreases v@.len() - k,
        {
            out.push(cs[v[k]].duplicate());
            k += 1;
        }
        out
    }

    /// For the thread of `uri`, the number of comments under each parent (the root bucket
    /// included) that the mask `mode` (by default [`DEFAULT_MASK`]) selects and that were
    /// created strictly after `after`: the same filter as [`Comment::fetch`], without parent
    /// selection, order or limit.
    pub fn reply_count(store: &Store, uri: String, mode: Option<i32>, after: FloatDateTime) -> (r: Vec<
        (Option<i32>, i64),
    >)
        requires
            store.comments@.len() <= i64::MAX,
        ensures
            is_reply_count(*store, uri@, mode.unwrap_or(DEFAULT_MASK), after@, r@),
    {
        let mask = CommentMode::mask(mode).bits;
        let cs = &store.comments;
        let n = cs.len();
        let mut r: Vec<(Option<i32>, i64)> = Vec::new();
        let mut i: usize = 0;
        proof {
            assert forall|p: Option<i32>| #[trigger] replies_before(*store, uri@, mask, after@, p, 0) == 0 by {
                positions(0).lemma_filter_len(counted_at(*store, uri@, mask, after@, p));
            }
        }
        while i < n
            invariant
                n == cs@.len(),
                n <= i64::MAX,
                cs@ == store.comments@,
                i <= n,
                counts_before(*store, uri@, mask, after@, i as nat, r@),
                forall|p: Option<i32>| #[trigger] replies_before(*store, uri@, mask, after@, p, i as nat) <= i,
            decreases n - i,
        {
            let vis = is_visible(&store.threads, &uri, mask, &after, &cs[i]);
            let q = cs[i].parent;
            let ghost old_r = r@;
            proof {
                assert forall|p: Option<i32>|
                    #[trigger] replies_before(*store, uri@, mask, after@, p, (i + 1) as nat)
                        == replies_before(*store, uri@, mask, after@, p, i as nat) + if vis && q == p {
                        1int
                    } else {
                        0int
                    } by {
                    let f = counted_at(*store, uri@, mask, after@, p);
                    assert(positions((i + 1) as nat) =~= positions(i as nat).push(i));
                    positions(i as nat).lemma_filter_push(i, f);
                    assert(f(i) == (vis && q == p));
                }
            }
            if vis {
                let mut j: usize = 0;
                while j < r.len() && !same_parent(r[j].0, q)
                    invariant
                        j <= r@.len(),
                        forall|k: int| 0 <= k < j ==> #[trigger] r@[k].0 != q,
                    decreases r@.len() - j,
                {
                    j += 1;
                }
                if j < r.len() {
                    let m = r[j].1;
                    r.set(j, (q, m + 1));
                } else {
                    r.push((q, 1));
                }
                proof {
                    let i1 = (i + 1) as nat;
                    assert forall|p: Option<i32>| #[trigger]
                        replies_before(*store, uri@, mask, after@, p, i1) > 0 implies exists|k: int|
                        0 <= k < r@.len() && r@[k].0 == p by {
                        if p == q {
                            assert(r@[j as int].0 == p);
                        } else {
                            let k = choose|k: int| 0 <= k < old_r.len() && old_r[k].0 == p;
                            assert(r@[k].0 == p);
                        }
                    }
                    assert forall|k: int| 0 <= k < r@.len() implies #[trigger] r@[k].1
                        == replies_before(*store, uri@, mask, after@, r@[k].0, i1) && r@[k].1 > 0 by {
                        if k != j {
                            assert(old_r[k].0 != q);
                        }
                    }
                }
            } else {
                proof {
                    let i1 = (i + 1) as nat;
                    assert forall|k: int| 0 <= k < r@.len() implies #[trigger] r@[k].1
                        == replies_before(*store, uri@, mask, after@, r@[k].0, i1) && r@[k].1 > 0 by {
                    }
                    assert forall|p: Option<i32>| #[trigger]
                        replies_before(*store, uri@, mask, after@, p, i1) > 0 implies exists|k: int|
                        0 <= k < r@.len() && r@[k].0 == p by {
                        assert(replies_before(*store, uri@, mask, after@, p, i as nat) > 0);
                    }
                }
            }
            i += 1;
        }
        r
    }
}

} // verus!
