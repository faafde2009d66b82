use graphite_source::metric::Telemetry;
use graphite_source::number::Decimal;
use graphite_source::protocols::graphite::parse_graphite;
use graphite_source::util::{send, send_all, Channel, ClosedPolicy, SendStatus};

fn event(name: &str, time: i64) -> Telemetry {
    Telemetry::new().name(name).value(Decimal::from_text("1").unwrap()).timestamp(time)
}

fn drain(chans: &mut Channel, endpoint: usize) -> Vec<Telemetry> {
    let mut out = Vec::new();
    while let Some(e) = chans.recv(endpoint) {
        out.push(e);
    }
    out
}

#[test]
fn new_set_has_no_endpoints_and_takes_every_send() {
    let mut chans = Channel::new(ClosedPolicy::Fail);
    assert_eq!(chans.len(), 0);
    assert_eq!(chans.closed_policy(), ClosedPolicy::Fail);
    assert_eq!(send(&mut chans, event("a", 1)), SendStatus::Delivered);
    assert_eq!(chans.pending(0), 0);
    assert!(!chans.is_open(0));
    assert_eq!(chans.recv(0), None);
}

#[test]
fn every_endpoint_gets_every_event_in_order() {
    let mut chans = Channel::new(ClosedPolicy::Fail);
    assert_eq!(chans.add_endpoint(4), 0);
    assert_eq!(chans.add_endpoint(2), 1);
    assert_eq!(chans.len(), 2);
    assert!(chans.is_open(0) && chans.is_open(1));
    assert_eq!(send(&mut chans, event("a", 1)), SendStatus::Delivered);
    assert_eq!(send(&mut chans, event("b", 2)), SendStatus::Delivered);
    assert_eq!(chans.pending(0), 2);
    assert_eq!(chans.pending(1), 2);
    assert_eq!(drain(&mut chans, 0), vec![event("a", 1), event("b", 2)]);
    assert_eq!(drain(&mut chans, 1), vec![event("a", 1), event("b", 2)]);
    assert_eq!(chans.pending(0), 0);
}

#[test]
fn full_endpoint_blocks_and_nothing_is_delivered() {
    let mut chans = Channel::new(ClosedPolicy::Fail);
    chans.add_endpoint(3);
    chans.add_endpoint(1);
    chans.add_endpoint(1);
    assert_eq!(send(&mut chans, event("a", 1)), SendStatus::Delivered);
    assert_eq!(send(&mut chans, event("b", 2)), SendStatus::Blocked(1));
    assert_eq!(chans.pending(0), 1);
    assert_eq!(chans.pending(1), 1);
    assert_eq!(chans.pending(2), 1);
    assert_eq!(chans.recv(1), Some(event("a", 1)));
    assert_eq!(send(&mut chans, event("b", 2)), SendStatus::Blocked(2));
    assert_eq!(chans.pending(0), 1);
    assert_eq!(chans.pending(1), 0);
    assert_eq!(chans.recv(2), Some(event("a", 1)));
    assert_eq!(send(&mut chans, event("b", 2)), SendStatus::Delivered);
    assert_eq!(drain(&mut chans, 0), vec![event("a", 1), event("b", 2)]);
    assert_eq!(drain(&mut chans, 1), vec![event("b", 2)]);
    assert_eq!(drain(&mut chans, 2), vec![event("b", 2)]);
}

#[test]
fn endpoint_without_room_never_takes_an_event() {
    let mut chans = Channel::new(ClosedPolicy::Skip);
    chans.add_endpoint(0);
    assert_eq!(send(&mut chans, event("a", 1)), SendStatus::Blocked(0));
    assert_eq!(chans.pending(0), 0);
}

#[test]
fn closed_endpoint_fails_the_send_under_fail() {
    let mut chans = Channel::new(ClosedPolicy::Fail);
    chans.add_endpoint(1);
    chans.add_endpoint(1);
    chans.add_endpoint(1);
    assert_eq!(send(&mut chans, event("a", 1)), SendStatus::Delivered);
    chans.close(2);
    chans.close(1);
    assert!(chans.is_open(0));
    assert!(!chans.is_open(1));
    assert!(!chans.is_open(2));
    assert_eq!(send(&mut chans, event("b", 2)), SendStatus::Closed(1));
    assert_eq!(chans.recv(0), Some(event("a", 1)));
    assert_eq!(send(&mut chans, event("b", 2)), SendStatus::Closed(1));
    assert_eq!(chans.pending(0), 0);
    assert_eq!(chans.pending(1), 1);
}

#[test]
fn closed_endpoint_is_passed_over_under_skip() {
    let mut chans = Channel::new(ClosedPolicy::Skip);
    assert_eq!(chans.closed_policy(), ClosedPolicy::Skip);
    chans.add_endpoint(1);
    chans.add_endpoint(1);
    assert_eq!(send(&mut chans, event("a", 1)), SendStatus::Delivered);
    chans.close(1);
    chans.close(7);
    assert_eq!(chans.len(), 2);
    assert_eq!(chans.recv(0), Some(event("a", 1)));
    assert_eq!(send(&mut chans, event("b", 2)), SendStatus::Delivered);
    assert_eq!(drain(&mut chans, 0), vec![event("b", 2)]);
    assert_eq!(drain(&mut chans, 1), vec![event("a", 1)]);
}

#[test]
fn send_all_stops_at_the_first_event_that_does_not_go_and_resumes_there() {
    let mut chans = Channel::new(ClosedPolicy::Fail);
    chans.add_endpoint(2);
    let events = vec![event("a", 1), event("b", 2), event("c", 3), event("d", 4)];
    assert_eq!(send_all(&mut chans, &events, 0), (2, SendStatus::Blocked(0)));
    assert_eq!(chans.pending(0), 2);
    assert_eq!(send_all(&mut chans, &events, 2), (2, SendStatus::Blocked(0)));
    assert_eq!(chans.recv(0), Some(event("a", 1)));
    assert_eq!(send_all(&mut chans, &events, 2), (3, SendStatus::Blocked(0)));
    assert_eq!(drain(&mut chans, 0), vec![event("b", 2), event("c", 3)]);
    assert_eq!(send_all(&mut chans, &events, 3), (4, SendStatus::Delivered));
    assert_eq!(send_all(&mut chans, &events, 4), (4, SendStatus::Delivered));
    assert_eq!(send_all(&mut chans, &events, 9), (4, SendStatus::Delivered));
    assert_eq!(drain(&mut chans, 0), vec![event("d", 4)]);
    assert_eq!(send_all(&mut chans, &Vec::new(), 0), (0, SendStatus::Delivered));
}

#[test]
fn send_all_reports_a_closed_endpoint() {
    let mut chans = Channel::new(ClosedPolicy::Fail);
    chans.add_endpoint(8);
    chans.close(0);
    let events = vec![event("a", 1)];
    assert_eq!(send_all(&mut chans, &events, 0), (0, SendStatus::Closed(0)));
    assert_eq!(chans.pending(0), 0);
}

#[test]
fn connections_times_lines_events_arrive_in_the_order_of_each_connection() {
    let connections: usize = 3;
    let lines: usize = 5;
    let template = Telemetry::default();
    let mut chans = Channel::new(ClosedPolicy::Fail);
    chans.add_endpoint(2);
    chans.add_endpoint(3);
    let mut seen: Vec<Vec<Telemetry>> = vec![Vec::new(), Vec::new()];
    let mut blocked: usize = 0;
    for round in 0..lines {
        for conn in 0..connections {
            let line = format!("conn{} {} {}\n", conn, round, round);
            let mut events: Vec<Telemetry> = Vec::new();
            assert!(parse_graphite(&line, &mut events, &template));
            let mut from = 0;
            loop {
                let (next, status) = send_all(&mut chans, &events, from);
                from = next;
                match status {
                    SendStatus::Delivered => break,
                    SendStatus::Blocked(at) => {
                        blocked += 1;
                        let taken = chans.recv(at).unwrap();
                        seen[at].push(taken);
                    }
                    SendStatus::Closed(_) => unreachable!(),
                }
            }
        }
    }
    for (at, got) in seen.iter_mut().enumerate() {
        got.extend(drain(&mut chans, at));
    }
    assert!(blocked > 0);
    for got in &seen {
        assert_eq!(got.len(), connections * lines);
        for conn in 0..connections {
            let name = format!("conn{}", conn);
            let times: Vec<i64> = got
                .iter()
                .filter(|e| e.name.as_deref() == Some(name.as_str()))
                .map(|e| e.timestamp.unwrap())
                .collect();
            assert_eq!(times, vec![0, 1, 2, 3, 4]);
        }
    }
    assert_eq!(seen[0], seen[1]);
}
