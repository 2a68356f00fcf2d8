use risso_api::models::{Comment, OrderKey, Store, Thread};
use risso_api::timestamp::FloatDateTime;

fn at(secs: i64) -> FloatDateTime {
    FloatDateTime { secs, nanos: 0 }
}

fn comment(thread_id: i32, id: i32, parent: Option<i32>, mode: i32, created: i64) -> Comment {
    Comment {
        thread_id,
        id,
        parent,
        created: at(created),
        modified: None,
        mode,
        remote_addr: String::from("127.0.0.1"),
        text: format!("comment {}", id),
        author: None,
        email: None,
        website: None,
        likes: 0,
        dislikes: 0,
        notification: false,
        voters: vec![0u8; 4],
    }
}

fn thread(id: i32, uri: &str) -> Thread {
    Thread { id, uri: String::from(uri), title: String::from("title") }
}

/// Thread "/post/1": 1 (root, valid, 100), 2 (reply to 1, pending, 150), 3 (reply to 1, valid, 200).
fn post_one() -> Store {
    Store {
        threads: vec![thread(1, "/post/1"), thread(2, "/post/2")],
        comments: vec![
            comment(1, 1, None, 1, 100),
            comment(1, 2, Some(1), 2, 150),
            comment(1, 3, Some(1), 1, 200),
            comment(2, 4, None, 1, 300),
        ],
    }
}

fn ids(list: &[Comment]) -> Vec<i32> {
    list.iter().map(|c| c.id).collect()
}

fn list(store: &Store, uri: &str, parent: Option<i32>, after: i64) -> Vec<i32> {
    ids(&Comment::fetch(store, String::from(uri), None, at(after), parent, None, true, None))
}

#[test]
fn replies_exclude_pending_by_default() {
    let store = post_one();
    assert_eq!(list(&store, "/post/1", Some(1), 0), vec![3]);
}

#[test]
fn after_is_a_strict_lower_bound() {
    let store = post_one();
    assert_eq!(list(&store, "/post/1", None, 150), Vec::<i32>::new());
    assert_eq!(list(&store, "/post/1", None, 99), vec![1]);
    assert_eq!(list(&store, "/post/1", None, 100), Vec::<i32>::new());
}

#[test]
fn parent_zero_selects_any_parent() {
    let store = post_one();
    assert_eq!(list(&store, "/post/1", Some(0), 0), vec![1, 3]);
    assert_eq!(list(&store, "/post/1", None, 0), vec![1]);
    assert_eq!(list(&store, "/post/1", Some(7), 0), Vec::<i32>::new());
}

#[test]
fn explicit_mask_selects_pending() {
    let store = post_one();
    let got = Comment::fetch(&store, String::from("/post/1"), Some(2), at(0), Some(0), None, true, None);
    assert_eq!(ids(&got), vec![2]);
    let got = Comment::fetch(&store, String::from("/post/1"), Some(7), at(0), Some(0), None, true, None);
    assert_eq!(ids(&got), vec![1, 2, 3]);
}

#[test]
fn unknown_uri_yields_nothing() {
    let store = post_one();
    assert_eq!(list(&store, "/nowhere", Some(0), 0), Vec::<i32>::new());
    assert_eq!(list(&store, "/post/2", Some(0), 0), vec![4]);
}

fn liked() -> Store {
    let mut cs = vec![
        comment(1, 10, None, 1, 500),
        comment(1, 11, None, 1, 400),
        comment(1, 12, None, 4, 300),
        comment(1, 13, None, 1, 200),
    ];
    cs[0].likes = 3;
    cs[1].likes = 5;
    cs[2].likes = 3;
    cs[3].likes = 1;
    cs[1].modified = Some(at(900));
    cs[3].modified = Some(at(800));
    Store { threads: vec![thread(1, "/liked")], comments: cs }
}

fn ordered(store: &Store, order: Option<&str>, asc: bool, limit: Option<i64>) -> Vec<i32> {
    ids(&Comment::fetch(
        store,
        String::from("/liked"),
        None,
        at(0),
        None,
        order.map(String::from),
        asc,
        limit,
    ))
}

#[test]
fn ties_break_by_ascending_id() {
    let store = liked();
    assert_eq!(ordered(&store, Some("likes"), true, None), vec![13, 10, 12, 11]);
    assert_eq!(ordered(&store, Some("likes"), false, None), vec![11, 10, 12, 13]);
}

#[test]
fn repeated_fetches_agree() {
    let store = liked();
    for asc in [true, false] {
        for key in [Some("likes"), Some("created"), Some("modified"), Some("dislikes"), None] {
            assert_eq!(ordered(&store, key, asc, None), ordered(&store, key, asc, None));
        }
    }
    assert_eq!(ordered(&store, Some("dislikes"), true, None), vec![10, 11, 12, 13]);
}

#[test]
fn bogus_order_key_orders_by_id() {
    let store = liked();
    assert_eq!(ordered(&store, Some("bogus"), true, None), ordered(&store, Some("id"), true, None));
    assert_eq!(ordered(&store, Some("bogus"), false, None), vec![13, 12, 11, 10]);
    assert_eq!(OrderKey::from_name(&Some(String::from("bogus"))), OrderKey::Id);
    assert_eq!(OrderKey::from_name(&Some(String::from("created"))), OrderKey::Created);
    assert_eq!(OrderKey::from_name(&Some(String::from("Likes"))), OrderKey::Id);
    assert_eq!(OrderKey::from_name(&None), OrderKey::Id);
}

#[test]
fn order_by_created_and_modified() {
    let store = liked();
    assert_eq!(ordered(&store, Some("created"), true, None), vec![13, 12, 11, 10]);
    assert_eq!(ordered(&store, Some("created"), false, None), vec![10, 11, 12, 13]);
    assert_eq!(ordered(&store, Some("modified"), true, None), vec![10, 12, 13, 11]);
    assert_eq!(ordered(&store, Some("modified"), false, None), vec![11, 13, 10, 12]);
}

#[test]
fn limit_cuts_after_ordering() {
    let store = liked();
    assert_eq!(ordered(&store, Some("likes"), false, Some(2)), vec![11, 10]);
    assert_eq!(ordered(&store, None, true, Some(0)), Vec::<i32>::new());
    assert_eq!(ordered(&store, None, true, Some(10)), vec![10, 11, 12, 13]);
    assert_eq!(ordered(&store, None, true, Some(-1)), vec![10, 11, 12, 13]);
}

#[test]
fn fetched_comments_are_copies() {
    let store = liked();
    let got = Comment::fetch(&store, String::from("/liked"), None, at(0), None, None, true, Some(1));
    assert_eq!(got.len(), 1);
    assert_eq!(got[0].text, "comment 10");
    assert_eq!(got[0].voters, vec![0u8; 4]);
    assert_eq!(got[0].created, at(500));
    let copy = store.comments[1].duplicate();
    assert_eq!(copy.modified, Some(at(900)));
    assert_eq!(copy.likes, 5);
}

fn counts(store: &Store, uri: &str, mode: Option<i32>, after: i64) -> Vec<(Option<i32>, i64)> {
    let mut r = Comment::reply_count(store, String::from(uri), mode, at(after));
    r.sort();
    r
}

#[test]
fn reply_counts_by_parent() {
    let mut store = post_one();
    store.comments.push(comment(1, 5, Some(3), 1, 250));
    store.comments.push(comment(1, 6, Some(1), 4, 260));
    store.comments.push(comment(1, 7, None, 1, 270));
    assert_eq!(counts(&store, "/post/1", None, 0), vec![(None, 2), (Some(1), 2), (Some(3), 1)]);
    assert_eq!(counts(&store, "/post/1", Some(7), 0), vec![(None, 2), (Some(1), 3), (Some(3), 1)]);
    assert_eq!(counts(&store, "/post/1", None, 200), vec![(None, 1), (Some(1), 1), (Some(3), 1)]);
    assert_eq!(counts(&store, "/post/2", None, 0), vec![(None, 1)]);
    assert_eq!(counts(&store, "/none", None, 0), vec![]);
}
