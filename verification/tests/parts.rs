use rok::errors::Error;
use rok::method::Method;
use rok::params::ParamSet;
use rok::paths::{join_from, split_path, str_eq};
use rok::pattern::parse_pattern;
use rok::request::{method_not_allowed, not_found_endpoint, Request, Response};
use rok::request_id::{RequestId, RequestIdValue};
use rok::router::{NextStep, Router, Terminal};
use rok::server::App;
use rok::server_id;

#[test]
fn split_drops_empty_segments() {
    let segs = split_path("/a//b/");
    let segs: Vec<&str> = segs.iter().map(|s| s.as_str()).collect();
    assert_eq!(segs, vec!["a", "b"]);
    assert!(split_path("/").is_empty());
    assert!(split_path("").is_empty());
    assert_eq!(split_path("ping"), vec!["ping".to_string()]);
}

#[test]
fn join_rebuilds_a_path_without_framing_separators() {
    let segs = vec!["a".to_string(), "b".to_string(), "c".to_string()];
    assert_eq!(join_from(&segs, 0).as_str(), "a/b/c");
    assert_eq!(join_from(&segs, 1).as_str(), "b/c");
    assert_eq!(join_from(&segs, 3).as_str(), "");
}

#[test]
fn str_eq_compares_by_characters() {
    assert!(str_eq("abc", "abc"));
    assert!(!str_eq("abc", "abd"));
    assert!(!str_eq("abc", "ab"));
    assert!(str_eq("", ""));
}

#[test]
fn params_last_binding_wins_and_merge_appends() {
    let mut a = ParamSet::new();
    a.push("k".to_string(), "v1".to_string());
    a.push("k".to_string(), "v2".to_string());
    assert_eq!(a.get("k").map(|s| s.as_str()), Some("v2"));
    assert!(a.get("missing").is_none());

    let mut b = ParamSet::new();
    b.push("k".to_string(), "v3".to_string());
    a.merge(&b);
    assert_eq!(a.len(), 3);
    assert_eq!(a.get("k").map(|s| s.as_str()), Some("v3"));
}

#[test]
fn pattern_parsing_rejects_malformed_segments() {
    assert!(parse_pattern("/hello/:echo").is_ok());
    assert!(parse_pattern("/files/*rest").is_ok());
    assert!(matches!(parse_pattern("/x/:"), Err(Error::Message(_))));
    assert!(matches!(parse_pattern("/a/*"), Err(Error::Message(_))));
    assert!(matches!(parse_pattern("/a/*r/b"), Err(Error::Message(_))));
}

#[test]
fn builtin_responders_carry_their_statuses() {
    assert_eq!(not_found_endpoint().status, 404);
    assert_eq!(method_not_allowed().status, 405);
    let r = Response::with_body(200, b"pong".to_vec());
    assert_eq!(r.status, 200);
    assert_eq!(r.body, b"pong".to_vec());
    let d = r.duplicate();
    assert_eq!(d.status, 200);
    assert_eq!(d.body, b"pong".to_vec());
}

#[test]
fn error_constructors_build_their_variants() {
    assert!(matches!(
        rok::errors::invalid_header("h".to_string()),
        Error::InvalidHeader { .. }
    ));
    assert!(matches!(
        rok::errors::missing_app_state("s".to_string()),
        Error::MissingAppState { .. }
    ));
    assert!(matches!(
        rok::errors::missing_param("p".to_string()),
        Error::MissingParam { .. }
    ));
    assert!(matches!(
        rok::errors::missing_cookie("c".to_string()),
        Error::MissingCookie { .. }
    ));
    assert!(matches!(
        rok::errors::missing_header("h".to_string()),
        Error::MissingHeader { .. }
    ));
    match rok::errors::invalid_params("e".to_string(), "m".to_string(), "u32".to_string()) {
        Error::InvalidParam { err, msg, expected } => {
            assert_eq!(err, "e");
            assert_eq!(msg, "m");
            assert_eq!(expected, "u32");
        }
        _ => panic!("expected the invalid-param variant"),
    }
}

#[test]
fn request_id_round_trips_through_the_extension_store() {
    let mut req = Request::new(Method::Get, "/".to_string(), None);
    assert!(RequestId::get(&req).is_none());
    RequestId::apply(&mut req, "abc123".to_string());
    assert_eq!(RequestId::get(&req).map(|s| s.as_str()), Some("abc123"));
    let v = RequestIdValue::new("abc123".to_string());
    assert_eq!(v.value, "abc123");
}

#[test]
fn server_id_names_the_server() {
    assert_eq!(server_id(), "rok");
}

#[test]
fn app_facade_registers_and_dispatches() {
    let mut app: App<u64, u8> = App::new();
    app.get("/ping", 1).unwrap();
    app.post("/ping", 2).unwrap();
    app.put("/ping", 3).unwrap();
    app.delete("/ping", 4).unwrap();
    app.head("/ping", 5).unwrap();
    app.options("/ping", 6).unwrap();
    app.trace("/ping", 7).unwrap();
    app.connect("/ping", 8).unwrap();
    app.patch("/ping", 9).unwrap();
    app.handle_not_found(0);
    app.middleware(1);

    let mut sub: Router<u64, u8> = Router::new();
    sub.register(Method::Get, "/deep", 42).unwrap();
    app.merge("/sub/", sub).unwrap();

    let router = app.finalize();
    let plan = router.route(Request::new(Method::Patch, "/ping".to_string(), None));
    let mut next = plan.next;
    let mut mids_seen = 0;
    loop {
        match next.step() {
            NextStep::Middleware(_, rest) => {
                mids_seen += 1;
                next = rest;
            }
            NextStep::Endpoint(t) => {
                assert!(matches!(t, Terminal::Handler(h) if *h == 9));
                break;
            }
        }
    }
    assert_eq!(mids_seen, 1);
}
