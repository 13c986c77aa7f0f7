use routetable::fsmodel::FileSystem;
use routetable::request::{Method, Request};
use routetable::route::{make_route, DynKind, HandlerId, SegPat};
use routetable::router::{ConfigError, Router};
use routetable::site::site_router;

fn sample_fs() -> FileSystem {
    let mut fs = FileSystem::new();
    fs.add_file(
        vec!["download".to_string(), "notes.txt".to_string()],
        "hello from notes".to_string(),
    );
    fs.add_file(
        vec!["static".to_string(), "css".to_string(), "app.css".to_string()],
        "body {}".to_string(),
    );
    fs.add_file(vec!["secret".to_string()], "top secret".to_string());
    fs
}

fn get(uri: &str) -> (u16, String) {
    let router = site_router();
    let fs = sample_fs();
    let req = Request::parse(Method::Get, uri);
    let resp = router.dispatch(&req, &fs);
    (resp.status, resp.body)
}

#[test]
fn download_serves_stored_file() {
    let (status, body) = get("/download/notes.txt");
    assert_eq!(status, 200);
    assert_eq!(body.as_str(), "hello from notes");
}

#[test]
fn download_missing_file_is_not_found() {
    let (status, _) = get("/download/other.txt");
    assert_eq!(status, 404);
}

#[test]
fn public_serves_static_area() {
    let (status, body) = get("/public/css/app.css");
    assert_eq!(status, 200);
    assert_eq!(body.as_str(), "body {}");
}

#[test]
fn download_traversal_is_not_found() {
    let (status, body) = get("/download/../secret");
    assert_eq!(status, 404);
    assert_eq!(body.as_str(), "");
}

#[test]
fn download_dot_segment_is_not_found() {
    let (status, _) = get("/download/./notes.txt");
    assert_eq!(status, 404);
}

fn dyn_route(rank: Option<usize>, kind: DynKind, handler: HandlerId) -> routetable::route::Route {
    make_route(
        Method::Get,
        vec!["user".to_string()],
        vec![SegPat::Dyn("id".to_string(), kind)],
        Vec::new(),
        handler,
        rank,
    )
}

#[test]
fn register_rejects_ambiguous_routes() {
    let mut router = Router::new();
    let first = router.register(dyn_route(None, DynKind::AsUInt, HandlerId::HUserInt));
    assert!(first.is_ok());
    let second = router.register(dyn_route(None, DynKind::AsString, HandlerId::HUser));
    assert!(matches!(second, Err(ConfigError::AmbiguousRoute)));
}

#[test]
fn register_explicit_rank_disambiguates() {
    let mut router = Router::new();
    let first = router.register(dyn_route(None, DynKind::AsUInt, HandlerId::HUserInt));
    assert!(first.is_ok());
    let second = router.register(dyn_route(Some(2), DynKind::AsString, HandlerId::HUser));
    assert!(second.is_ok());
}

#[test]
fn register_rejects_inner_multi_segment() {
    let mut router = Router::new();
    let res = router.register(make_route(
        Method::Get,
        vec!["user".to_string()],
        vec![
            SegPat::DynMulti("rest".to_string()),
            SegPat::Lit("tail".to_string()),
        ],
        Vec::new(),
        HandlerId::HUser,
        None,
    ));
    assert!(matches!(res, Err(ConfigError::MultiSegmentNotLast)));
}
