use routetable::fsmodel::FileSystem;
use routetable::request::{Method, Request};
use routetable::site::site_router;

fn get(uri: &str) -> (u16, String) {
    let router = site_router();
    let fs = FileSystem::new();
    let req = Request::parse(Method::Get, uri);
    let resp = router.dispatch(&req, &fs);
    (resp.status, resp.body)
}

#[test]
fn root() {
    let (status, body) = get("/");
    assert_eq!(status, 200);
    assert_eq!(body.as_str(), "Hello, world!");
}

#[test]
fn query_before() {
    let (status, body) = get("/query/?nonsense&name=me");
    assert_eq!(status, 200);
    assert_eq!(body.as_str(), "Hi, me!");
}

#[test]
fn query_after() {
    let (status, body) = get("/query/?name=me&nonsense");
    assert_eq!(status, 200);
    assert_eq!(body.as_str(), "Hi, me!");
}

#[test]
fn query_optional() {
    let (status, body) = get("/query_optional/?nonsense");
    assert_eq!(status, 200);
    assert_eq!(body.as_str(), "Hi!");
}

#[test]
fn hi() {
    let (status, body) = get("/hi/me");
    assert_eq!(status, 200);
    assert_eq!(body.as_str(), "Hi, me!");
}

#[test]
fn user_id_number() {
    let (status, body) = get("/user/123");
    assert_eq!(status, 200);
    assert_eq!(body.as_str(), "Hi, user#123!");
}

#[test]
fn user_id_string() {
    let (status, body) = get("/user/123a");
    assert_eq!(status, 200);
    assert_eq!(body.as_str(), "Hi, user 123a!");
}

#[test]
fn user_add_form() {
    let (status, body) = get("/user/add?id=100&name=sandal&account=400");
    assert_eq!(status, 200);
    assert_eq!(
        body.as_str(),
        "Hi, user 100 with Form(User { name: \"sandal\", account: 400 })!"
    );
}

#[test]
fn unknown_path_is_not_found() {
    let (status, body) = get("/nope");
    assert_eq!(status, 404);
    assert_eq!(body.as_str(), "");
}

#[test]
fn method_must_match() {
    let router = site_router();
    let fs = FileSystem::new();
    let req = Request::parse(Method::Post, "/");
    let resp = router.dispatch(&req, &fs);
    assert_eq!(resp.status, 404);
}

#[test]
fn query_missing_token_is_not_found() {
    let (status, _) = get("/query/?name=me");
    assert_eq!(status, 404);
}

#[test]
fn query_missing_name_is_not_found() {
    let (status, _) = get("/query/?nonsense");
    assert_eq!(status, 404);
}

#[test]
fn query_optional_with_name() {
    let (status, body) = get("/query_optional/?nonsense&name=bob");
    assert_eq!(status, 200);
    assert_eq!(body.as_str(), "Hi, bob!");
}

#[test]
fn user_id_overflow_forwards_to_string_route() {
    let (status, body) = get("/user/99999999999999999999999999");
    assert_eq!(status, 200);
    assert_eq!(body.as_str(), "Hi, user 99999999999999999999999999!");
}

#[test]
fn user_id_leading_zeros_decode_numerically() {
    let (status, body) = get("/user/007");
    assert_eq!(status, 200);
    assert_eq!(body.as_str(), "Hi, user#7!");
}

#[test]
fn user_add_missing_account_forwards_to_string_route() {
    let (status, body) = get("/user/add?id=100&name=x");
    assert_eq!(status, 200);
    assert_eq!(body.as_str(), "Hi, user add!");
}

#[test]
fn empty_path_segments_are_dropped() {
    let (status, body) = get("/hi//me/");
    assert_eq!(status, 200);
    assert_eq!(body.as_str(), "Hi, me!");
}

#[test]
fn dyn_segment_rejects_empty_text() {
    let router = site_router();
    let fs = FileSystem::new();
    let req = Request {
        method: Method::Get,
        path: vec!["hi".to_string(), "".to_string()],
        query: Vec::new(),
    };
    let resp = router.dispatch(&req, &fs);
    assert_eq!(resp.status, 404);
}

#[test]
fn dispatch_is_idempotent() {
    let router = site_router();
    let fs = FileSystem::new();
    let req = Request::parse(Method::Get, "/user/add?id=100&name=sandal&account=400");
    let first = router.dispatch(&req, &fs);
    let second = router.dispatch(&req, &fs);
    assert_eq!(first.status, second.status);
    assert_eq!(first.body, second.body);
}
