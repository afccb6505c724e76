use print_dispatch::config::load_printers;
use print_dispatch::dispatch::Registry;
use print_dispatch::dispatch::RouteOutcome;

fn registry_from(config: &[u8]) -> Registry {
    let printers = load_printers(config).unwrap();
    Registry::build(&printers)
}

#[test]
fn build_one_worker_per_distinct_identifier() {
    let reg = registry_from(b"a,b:9100,a");
    assert_eq!(reg.workers.len(), 2);
    assert!(reg.lookup(&String::from("a:9001")).is_some());
    assert!(reg.lookup(&String::from("b:9100")).is_some());
    for w in &reg.workers {
        assert_eq!(w.queue.len(), 0);
    }
}

#[test]
fn lookup_miss_is_none() {
    let reg = registry_from(b"a");
    assert!(reg.lookup(&String::from("b:9001")).is_none());
    assert!(reg.lookup(&String::from("a:9100")).is_none());
}

#[test]
fn scenario_route_and_write_verbatim() {
    let mut reg = registry_from(b"192.168.1.5,192.168.1.6:9100");
    let raw = br#"{"host":"192.168.1.5","port":9001,"message":[94,88,65]}"#;
    let outcome = reg.route(raw);
    let index = match outcome {
        RouteOutcome::Delivered { index } => index,
        other => panic!("expected delivery, got {:?}", other),
    };
    assert_eq!(reg.workers[index].identifier, "192.168.1.5:9001");
    let req = reg.take_next_action(index).unwrap();
    assert_eq!(req.host, "192.168.1.5");
    assert_eq!(req.port, 9001);
    assert_eq!(req.payload, vec![0x5e, 0x58, 0x41]);
    assert!(reg.take_next_action(index).is_none());
}

#[test]
fn scenario_registry_miss_drops_without_connection() {
    let mut reg = registry_from(b"192.168.1.5,192.168.1.6:9100");
    let raw = br#"{"host":"10.0.0.9","port":9001,"message":[1]}"#;
    assert_eq!(reg.route(raw), RouteOutcome::NoWorker);
    // no worker owes a dial: every queue is still empty
    for i in 0..reg.workers.len() {
        assert_eq!(reg.worker_at(i).queue.len(), 0);
        assert!(reg.take_next_action(i).is_none());
    }
}

#[test]
fn rejected_payload_never_reaches_a_worker() {
    let mut reg = registry_from(b"a");
    assert_eq!(reg.route(b"not an envelope"), RouteOutcome::Rejected);
    assert_eq!(reg.route(br#"{"host":"a","port":9001}"#), RouteOutcome::Rejected);
    assert_eq!(reg.workers[0].queue.len(), 0);
}

#[test]
fn identifier_must_match_exactly() {
    let mut reg = registry_from(b"a:9001");
    // same host, other port: a miss, not a near-match
    assert_eq!(
        reg.route(br#"{"host":"a","port":9100,"message":[1]}"#),
        RouteOutcome::NoWorker
    );
    assert!(matches!(
        reg.route(br#"{"host":"a","port":9001,"message":[1]}"#),
        RouteOutcome::Delivered { .. }
    ));
}

#[test]
fn non_ascii_identifiers_route_end_to_end() {
    let host = "imprimante-caf\u{e9}";
    let mut reg = registry_from(host.as_bytes());
    let raw = format!("{}\"host\":\"{}\",\"port\":9001,\"message\":[5]{}", '{', host, '}');
    let index = match reg.route(raw.as_bytes()) {
        RouteOutcome::Delivered { index } => index,
        other => panic!("expected delivery, got {:?}", other),
    };
    let req = reg.take_next_action(index).unwrap();
    assert_eq!(req.host, host);
    assert_eq!(req.payload, vec![5]);
}

#[test]
fn jobs_for_different_identifiers_stay_apart() {
    let mut reg = registry_from(b"a,b");
    let to_a1 = br#"{"host":"a","port":9001,"message":[1]}"#;
    let to_b = br#"{"host":"b","port":9001,"message":[9]}"#;
    let to_a2 = br#"{"host":"a","port":9001,"message":[2]}"#;
    let ia = match reg.route(to_a1) {
        RouteOutcome::Delivered { index } => index,
        other => panic!("expected delivery, got {:?}", other),
    };
    let ib = match reg.route(to_b) {
        RouteOutcome::Delivered { index } => index,
        other => panic!("expected delivery, got {:?}", other),
    };
    assert_ne!(ia, ib);
    assert!(matches!(reg.route(to_a2), RouteOutcome::Delivered { index } if index == ia));
    // a's backlog does not hold b's job back
    let req_b = reg.take_next_action(ib).unwrap();
    assert_eq!(req_b.host, "b");
    assert_eq!(req_b.payload, vec![9]);
    // and a's own jobs come out in arrival order
    assert_eq!(reg.take_next_action(ia).unwrap().payload, vec![1]);
    assert_eq!(reg.take_next_action(ia).unwrap().payload, vec![2]);
    assert!(reg.take_next_action(ia).is_none());
}
