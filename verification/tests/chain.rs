use rok::method::Method;
use rok::middleware::{run_scripted, Endpoint, Event, Scripted, StatusEndpoint};
use rok::request::Request;
use rok::router::{Next, NextStep, Terminal};

#[test]
fn onion_order_two_middlewares() {
    let mids = vec![
        Scripted { label: 1, halt: None },
        Scripted { label: 2, halt: None },
    ];
    let mut log: Vec<Event> = Vec::new();
    let status = run_scripted(&mids, 0, 200, &mut log);
    assert_eq!(status, 200);
    assert_eq!(
        log,
        vec![
            Event::Enter(1),
            Event::Enter(2),
            Event::Terminal,
            Event::Exit(2),
            Event::Exit(1),
        ]
    );
}

#[test]
fn short_circuit_blocks_terminal_and_later_middleware() {
    let mids = vec![
        Scripted { label: 1, halt: None },
        Scripted {
            label: 2,
            halt: Some(403),
        },
        Scripted { label: 3, halt: None },
    ];
    let mut log: Vec<Event> = Vec::new();
    let status = run_scripted(&mids, 0, 200, &mut log);
    assert_eq!(status, 403);
    assert_eq!(log, vec![Event::Enter(1), Event::Enter(2), Event::Exit(1)]);
    assert!(!log.contains(&Event::Terminal));
    assert!(!log.contains(&Event::Enter(3)));
}

#[test]
fn empty_chain_goes_straight_to_the_terminal() {
    let mids: Vec<Scripted> = Vec::new();
    let mut log: Vec<Event> = Vec::new();
    let status = run_scripted(&mids, 0, 418, &mut log);
    assert_eq!(status, 418);
    assert_eq!(log, vec![Event::Terminal]);
}

#[test]
fn next_cursor_hands_out_middlewares_in_order() {
    let mids: Vec<u8> = vec![10, 20, 30];
    let handler: u64 = 1;
    let next: Next<'_, u64, u8> = Next::new(&mids, Terminal::Handler(&handler));
    let mut seen: Vec<u8> = Vec::new();
    let mut cur = next;
    loop {
        match cur.step() {
            NextStep::Middleware(m, rest) => {
                seen.push(*m);
                cur = rest;
            }
            NextStep::Endpoint(t) => {
                assert!(matches!(t, Terminal::Handler(h) if *h == 1));
                break;
            }
        }
    }
    assert_eq!(seen, vec![10, 20, 30]);
}

#[test]
fn status_endpoint_answers_its_status() {
    let ep = StatusEndpoint { status: 204 };
    let resp = ep.call(Request::new(Method::Get, "/".to_string(), None));
    assert_eq!(resp.status, 204);
    assert!(resp.body.is_empty());
}
