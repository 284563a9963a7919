use rok::method::Method;
use rok::request::Request;
use rok::router::{NextStep, RoutePlan, Router, Terminal};

fn req(method: Method, path: &str) -> Request {
    Request::new(method, path.to_string(), None)
}

fn terminal_of<H, M>(plan: RoutePlan<'_, H, M>) -> (Request, Terminal<'_, H, M>) {
    let mut next = plan.next;
    loop {
        match next.step() {
            NextStep::Middleware(_, rest) => next = rest,
            NextStep::Endpoint(t) => return (plan.request, t),
        }
    }
}

fn built_router() -> Router<u64, u8> {
    let mut r: Router<u64, u8> = Router::new();
    r.register(Method::Get, "/ping", 1).unwrap();
    r.register(Method::Post, "/ping", 2).unwrap();
    r.register(Method::Get, "/hello/:echo", 3).unwrap();
    r.finalize()
}

#[test]
fn registered_literal_dispatch_returns_its_handler() {
    let r = built_router();
    let (_, t) = terminal_of(r.route(req(Method::Get, "/ping")));
    match t {
        Terminal::Handler(h) => assert_eq!(*h, 1),
        _ => panic!("expected the registered handler"),
    }
    let (_, t) = terminal_of(r.route(req(Method::Post, "/ping")));
    match t {
        Terminal::Handler(h) => assert_eq!(*h, 2),
        _ => panic!("expected the registered handler"),
    }
}

#[test]
fn unmatched_path_is_not_found() {
    let r = built_router();
    let (_, t) = terminal_of(r.route(req(Method::Get, "/nope")));
    match t {
        Terminal::NotFound(opt) => assert!(opt.is_none()),
        _ => panic!("expected not-found"),
    }
}

#[test]
fn unregistered_method_on_known_path_is_method_not_allowed() {
    let r = built_router();
    let (_, t) = terminal_of(r.route(req(Method::Delete, "/ping")));
    assert!(matches!(t, Terminal::MethodNotAllowed));
}

#[test]
fn named_capture_binds_the_segment() {
    let r = built_router();
    let (request, t) = terminal_of(r.route(req(Method::Get, "/hello/world")));
    match t {
        Terminal::Handler(h) => assert_eq!(*h, 3),
        _ => panic!("expected the parameter route"),
    }
    assert_eq!(request.get_param("echo").map(|s| s.as_str()), Some("world"));
}

#[test]
fn literal_beats_capture_and_capture_beats_remainder() {
    let mut r: Router<u64, u8> = Router::new();
    r.register(Method::Get, "/a/:x", 10).unwrap();
    r.register(Method::Get, "/a/b", 11).unwrap();
    r.register(Method::Get, "/a/*rest", 12).unwrap();
    let r = r.finalize();
    let (_, t) = terminal_of(r.route(req(Method::Get, "/a/b")));
    match t {
        Terminal::Handler(h) => assert_eq!(*h, 11),
        _ => panic!("expected the literal route"),
    }
    let (_, t) = terminal_of(r.route(req(Method::Get, "/a/c")));
    match t {
        Terminal::Handler(h) => assert_eq!(*h, 10),
        _ => panic!("expected the capture route"),
    }
    let (_, t) = terminal_of(r.route(req(Method::Get, "/a/c/d")));
    match t {
        Terminal::Handler(h) => assert_eq!(*h, 12),
        _ => panic!("expected the remainder route"),
    }
}

#[test]
fn equal_priority_goes_to_the_first_registered() {
    let mut r: Router<u64, u8> = Router::new();
    r.register(Method::Get, "/x/:a", 20).unwrap();
    r.register(Method::Get, "/x/:b", 21).unwrap();
    let r = r.finalize();
    let (request, t) = terminal_of(r.route(req(Method::Get, "/x/v")));
    match t {
        Terminal::Handler(h) => assert_eq!(*h, 20),
        _ => panic!("expected a handler"),
    }
    assert_eq!(request.get_param("a").map(|s| s.as_str()), Some("v"));
}

#[test]
fn reregistering_a_pair_replaces_the_handler() {
    let mut r: Router<u64, u8> = Router::new();
    r.register(Method::Get, "/ping", 1).unwrap();
    r.register(Method::Get, "/ping", 9).unwrap();
    let r = r.finalize();
    let (_, t) = terminal_of(r.route(req(Method::Get, "/ping")));
    match t {
        Terminal::Handler(h) => assert_eq!(*h, 9),
        _ => panic!("expected a handler"),
    }
}

#[test]
fn custom_not_found_handler_is_selected() {
    let mut r: Router<u64, u8> = Router::new();
    r.register(Method::Get, "/ping", 1).unwrap();
    r.set_not_found_handler(99);
    let r = r.finalize();
    let (_, t) = terminal_of(r.route(req(Method::Get, "/gone")));
    match t {
        Terminal::NotFound(opt) => assert_eq!(opt.copied(), Some(99)),
        _ => panic!("expected the custom not-found handler"),
    }
}

#[test]
fn merged_subrouter_dispatch_equals_direct_dispatch() {
    let mut sub: Router<u64, u8> = Router::new();
    sub.register(Method::Get, "/ping", 7).unwrap();

    let mut parent: Router<u64, u8> = Router::new();
    parent.merge("/api/", sub).unwrap();
    let parent = parent.finalize();

    let plan = parent.route(req(Method::Get, "/api/ping"));
    let (request, t) = terminal_of(plan);
    let via_parent = match t {
        Terminal::Nested(sub_ref) => {
            assert_eq!(request.route_path().as_str(), "ping");
            let (_, t2) = terminal_of(sub_ref.route(request));
            match t2 {
                Terminal::Handler(h) => *h,
                _ => panic!("expected the sub-router's handler"),
            }
        }
        _ => panic!("expected the nested binding"),
    };

    let mut direct: Router<u64, u8> = Router::new();
    direct.register(Method::Get, "/ping", 7).unwrap();
    let direct = direct.finalize();
    let (_, t3) = terminal_of(direct.route(req(Method::Get, "/ping")));
    let directly = match t3 {
        Terminal::Handler(h) => *h,
        _ => panic!("expected the handler"),
    };

    assert_eq!(via_parent, directly);
    assert_eq!(via_parent, 7);
}

#[test]
fn merged_subrouter_uses_its_own_not_found() {
    let mut sub: Router<u64, u8> = Router::new();
    sub.register(Method::Get, "/ping", 7).unwrap();
    let mut parent: Router<u64, u8> = Router::new();
    parent.merge("/api/", sub).unwrap();
    let parent = parent.finalize();
    let (request, t) = terminal_of(parent.route(req(Method::Get, "/api/missing")));
    match t {
        Terminal::Nested(sub_ref) => {
            let (_, t2) = terminal_of(sub_ref.route(request));
            assert!(matches!(t2, Terminal::NotFound(None)));
        }
        _ => panic!("expected the nested binding"),
    }
}

#[test]
fn merged_subrouter_answers_every_method() {
    let mut sub: Router<u64, u8> = Router::new();
    sub.register(Method::Post, "/ping", 8).unwrap();
    let mut parent: Router<u64, u8> = Router::new();
    parent.merge("/api/", sub).unwrap();
    let parent = parent.finalize();
    let (request, t) = terminal_of(parent.route(req(Method::Post, "/api/ping")));
    match t {
        Terminal::Nested(sub_ref) => {
            let (_, t2) = terminal_of(sub_ref.route(request));
            assert!(matches!(t2, Terminal::Handler(h) if *h == 8));
        }
        _ => panic!("expected the nested binding for a non-GET method"),
    }
}

#[test]
fn extra_separators_do_not_change_the_segments() {
    let r = built_router();
    let (_, t) = terminal_of(r.route(req(Method::Get, "//ping/")));
    match t {
        Terminal::Handler(h) => assert_eq!(*h, 1),
        _ => panic!("expected the handler despite framing separators"),
    }
}

#[test]
fn parent_and_merged_subrouter_keep_separate_middleware_chains() {
    let mut sub: Router<u64, u8> = Router::new();
    sub.middleware(101);
    sub.middleware(102);
    sub.register(Method::Get, "/ping", 7).unwrap();
    let mut parent: Router<u64, u8> = Router::new();
    parent.middleware(1);
    parent.merge("/api/", sub).unwrap();
    let parent = parent.finalize();

    let plan = parent.route(req(Method::Get, "/api/ping"));
    let mut parent_mids: Vec<u8> = Vec::new();
    let mut next = plan.next;
    loop {
        match next.step() {
            NextStep::Middleware(m, rest) => {
                parent_mids.push(*m);
                next = rest;
            }
            NextStep::Endpoint(t) => {
                match t {
                    Terminal::Nested(sub_ref) => {
                        let sub_plan = sub_ref.route(plan.request);
                        let mut sub_mids: Vec<u8> = Vec::new();
                        let mut sn = sub_plan.next;
                        loop {
                            match sn.step() {
                                NextStep::Middleware(m, rest) => {
                                    sub_mids.push(*m);
                                    sn = rest;
                                }
                                NextStep::Endpoint(t2) => {
                                    assert!(matches!(t2, Terminal::Handler(h) if *h == 7));
                                    break;
                                }
                            }
                        }
                        assert_eq!(sub_mids, vec![101, 102]);
                    }
                    _ => panic!("expected the nested binding"),
                }
                break;
            }
        }
    }
    assert_eq!(parent_mids, vec![1]);
}

#[test]
fn merge_rejects_unframed_prefix() {
    let mut parent: Router<u64, u8> = Router::new();
    let sub: Router<u64, u8> = Router::new();
    assert!(parent.merge("api/", sub).is_err());
    let sub: Router<u64, u8> = Router::new();
    assert!(parent.merge("/api", sub).is_err());
    let sub: Router<u64, u8> = Router::new();
    assert!(parent.merge("/api/", sub).is_ok());
}

#[test]
fn finalize_is_idempotent_and_freezes_registration() {
    let mut r: Router<u64, u8> = Router::new();
    r.register(Method::Get, "/ping", 1).unwrap();
    let once = r.finalize();
    let mut twice = once.finalize();

    let (_, t) = terminal_of(twice.route(req(Method::Get, "/ping")));
    match t {
        Terminal::Handler(h) => assert_eq!(*h, 1),
        _ => panic!("expected the handler after a second finalize"),
    }

    assert!(twice.register(Method::Get, "/late", 2).is_err());
    twice.middleware(5);
    let frozen = twice.finalize();
    let (_, t) = terminal_of(frozen.route(req(Method::Get, "/late")));
    assert!(matches!(t, Terminal::NotFound(None)));
}

#[test]
fn concurrent_style_dispatches_keep_their_own_captures() {
    let mut r: Router<u64, u8> = Router::new();
    r.register(Method::Get, "/hello/:echo", 3).unwrap();
    let r = r.finalize();

    let plans: Vec<(Request, Terminal<'_, u64, u8>)> = vec![
        terminal_of(r.route(req(Method::Get, "/hello/one"))),
        terminal_of(r.route(req(Method::Get, "/hello/two"))),
        terminal_of(r.route(req(Method::Get, "/hello/three"))),
    ];
    let expected = ["one", "two", "three"];
    for (i, (request, t)) in plans.iter().enumerate() {
        assert!(matches!(t, Terminal::Handler(h) if **h == 3));
        assert_eq!(
            request.get_param("echo").map(|s| s.as_str()),
            Some(expected[i])
        );
    }
}

#[test]
fn register_rejects_the_any_sentinel_and_bad_patterns() {
    let mut r: Router<u64, u8> = Router::new();
    assert!(r.register(Method::Any, "/ping", 1).is_err());
    assert!(r.register(Method::Get, "/x/:", 1).is_err());
    assert!(r.register(Method::Get, "/a/*r/b", 1).is_err());
    assert!(r.register(Method::Get, "/ok", 1).is_ok());
}
