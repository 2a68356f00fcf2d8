use risso_api::api::{
    fetch, process_fetched_list, CommentResponse, FetchError, FetchRequest, GeneralConfig, StoreError,
    ValidationError,
};
use risso_api::models::{Comment, Store, Thread};
use risso_api::render::{fill_template, render_text, sanitize_html};
use risso_api::timestamp::FloatDateTime;

fn at(secs: i64) -> FloatDateTime {
    FloatDateTime { secs, nanos: 0 }
}

fn comment(id: i32, parent: Option<i32>, mode: i32, created: i64, text: &str, email: Option<&str>) -> Comment {
    Comment {
        thread_id: 1,
        id,
        parent,
        created: at(created),
        modified: None,
        mode,
        remote_addr: String::from("127.0.0.1"),
        text: String::from(text),
        author: Some(String::from("Ann")),
        email: email.map(String::from),
        website: None,
        likes: 2,
        dislikes: 1,
        notification: false,
        voters: Vec::new(),
    }
}

fn config() -> GeneralConfig {
    GeneralConfig { gravatar_url: String::from("https://www.gravatar.com/avatar/{}?d=identicon") }
}

fn request(uri: &str) -> FetchRequest {
    FetchRequest { uri: String::from(uri), parent: None, limit: None, nested_limit: None, after: None, plain: None }
}

fn store() -> Store {
    Store {
        threads: vec![Thread { id: 1, uri: String::from("/post/1"), title: String::from("Post") }],
        comments: vec![
            comment(1, None, 1, 100, "first", None),
            comment(2, Some(1), 2, 150, "second", None),
            comment(3, Some(1), 1, 200, "**bold**", Some("foo@bar.com")),
        ],
    }
}

#[test]
fn plain_flag() {
    let mut req = request("/post/1");
    assert!(!req.is_plain());
    req.plain = Some(1);
    assert!(req.is_plain());
    req.plain = Some(2);
    assert!(!req.is_plain());
    req.plain = Some(0);
    assert!(!req.is_plain());
}

#[test]
fn uri_length_is_validated() {
    assert_eq!(request(&"a".repeat(1024)).validate(), Ok(()));
    assert_eq!(request(&"a".repeat(1025)).validate(), Err(ValidationError::UriTooLong));
    assert_eq!(request(&"é".repeat(1024)).validate(), Ok(()));
    assert!(matches!(
        request(&"a".repeat(2000)).plan(),
        Err(FetchError::Validation(ValidationError::UriTooLong))
    ));
}

#[test]
fn plan_fixes_parameters() {
    let mut req = request("/post/1");
    req.parent = Some(1);
    req.limit = Some(10);
    req.plain = Some(1);
    let plan = req.plan().ok().unwrap();
    assert_eq!(plan.uri, "/post/1");
    assert_eq!(plan.after, FloatDateTime::epoch());
    assert_eq!(plan.parent, Some(1));
    assert_eq!(plan.limit, Some(10));
    assert!(plan.plain);
    req.after = Some(at(123));
    assert_eq!(req.plan().ok().unwrap().after, at(123));
}

#[test]
fn fetch_joins_both_operations() {
    let s = store();
    let mut req = request("/post/1");
    req.parent = Some(1);
    let plan = req.plan().ok().unwrap();
    let list = plan.list(&s);
    let counts = plan.count(&s);
    assert_eq!(list.iter().map(|c| c.id).collect::<Vec<_>>(), vec![3]);
    assert_eq!(counts.len(), 2);
    let out = fetch(&plan, &config(), Ok(list), Ok(counts)).ok().unwrap();
    assert_eq!(out.len(), 1);
    assert_eq!(out[0].id, 3);
    assert_eq!(out[0].parent, Some(1));
}

#[test]
fn fetch_fails_when_reply_counts_fail() {
    let s = store();
    let plan = request("/post/1").plan().ok().unwrap();
    let err = StoreError { message: String::from("count failed") };
    match fetch(&plan, &config(), Ok(plan.list(&s)), Err(err)) {
        Err(FetchError::Store(e)) => assert_eq!(e.message, "count failed"),
        _ => panic!("expected a store error"),
    }
}

#[test]
fn fetch_fails_when_listing_fails() {
    let s = store();
    let plan = request("/post/1").plan().ok().unwrap();
    let err = StoreError { message: String::from("list failed") };
    match fetch(&plan, &config(), Err(err), Ok(plan.count(&s))) {
        Err(FetchError::Store(e)) => assert_eq!(e.message, "list failed"),
        _ => panic!("expected a store error"),
    }
    let a = StoreError { message: String::from("a") };
    let b = StoreError { message: String::from("b") };
    match fetch(&plan, &config(), Err(a), Err(b)) {
        Err(FetchError::Store(e)) => assert_eq!(e.message, "b"),
        _ => panic!("expected a store error"),
    }
}

#[test]
fn response_hashes_email_or_address() {
    let list = vec![comment(3, Some(1), 1, 200, "x", Some("foo@bar.com")), comment(1, None, 1, 100, "y", None)];
    let out = process_fetched_list(&list, true, &config());
    assert_eq!(out[0].hash, "823776525776c8f23a87176c59d25759da7a52c4");
    assert_eq!(
        out[0].gravatar_image,
        "https://www.gravatar.com/avatar/f3ada405ce890b6f8204094deb12d8a8?d=identicon"
    );
    assert_eq!(out[1].hash, "4b84b15bff6ee5796152495a230e45e3d7e947d9");
    for view in out.iter() {
        assert_eq!(view.hash.len(), 40);
        assert!(view.hash.chars().all(|c| c.is_ascii_digit() || ('a'..='f').contains(&c)));
    }
    assert_eq!(
        out[1].gravatar_image,
        "https://www.gravatar.com/avatar/f528764d624db129b32c21fbca0cb8d6?d=identicon"
    );
}

#[test]
fn response_keeps_order_and_fields() {
    let list = vec![comment(3, Some(1), 4, 200, "x", None), comment(1, None, 1, 100, "y", None)];
    let out: Vec<CommentResponse> = process_fetched_list(&list, true, &config());
    assert_eq!(out.len(), 2);
    assert_eq!(out[0].id, 3);
    assert_eq!(out[1].id, 1);
    assert_eq!(out[0].mode, 4);
    assert_eq!(out[0].text, "x");
    assert_eq!(out[0].author, Some(String::from("Ann")));
    assert_eq!(out[0].website, None);
    assert_eq!(out[0].created, at(200));
    assert_eq!(out[0].modified, None);
    assert_eq!((out[0].likes, out[0].dislikes), (2, 1));
    assert!(process_fetched_list(&Vec::new(), false, &config()).is_empty());
}

#[test]
fn plain_text_versus_rendered_markup() {
    let list = vec![comment(3, Some(1), 1, 200, "**bold**", None)];
    let raw = process_fetched_list(&list, true, &config());
    assert_eq!(raw[0].text, "**bold**");
    let html = process_fetched_list(&list, false, &config());
    assert!(html[0].text.contains("<strong>bold</strong>"));
    assert_eq!(render_text("**bold**", false), "<p><strong>bold</strong></p>\n");
    assert_eq!(render_text("**bold**", true), "**bold**");
}

#[test]
fn sanitize_html_keeps_plain_text() {
    assert_eq!(sanitize_html("foo"), "foo".to_owned());
    assert_eq!(sanitize_html("<script>x</script><em>y</em>"), "<em>y</em>");
    assert_eq!(sanitize_html("<style>p{}</style><table></table>"), "<table></table>");
}

#[test]
fn template_substitution() {
    assert_eq!(fill_template("a{}b{}", "K"), "aKbK");
    assert_eq!(fill_template("{{}", "K"), "{K");
    assert_eq!(fill_template("{}}", "K"), "K}");
    assert_eq!(fill_template("no slot", "K"), "no slot");
    assert_eq!(fill_template("", "K"), "");
    assert_eq!(fill_template("{", "K"), "{");
    assert_eq!(fill_template("é{}ü", "K"), "éKü");
    assert_eq!(fill_template("x{}", "K"), "x{}".replace("{}", "K"));
}
