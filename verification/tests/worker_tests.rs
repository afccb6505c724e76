use print_dispatch::printer::PrintMessage;
use print_dispatch::printer::PrinterActor;
use print_dispatch::printer::Worker;

#[test]
fn printer_actor_identifier() {
    let p = PrinterActor::new("10.0.0.7", 9100);
    assert_eq!(p.host, "10.0.0.7");
    assert_eq!(p.port, 9100);
    assert_eq!(p.host_and_port(), "10.0.0.7:9100");
}

#[test]
fn worker_starts_empty_and_well_named() {
    let w = Worker::new(PrinterActor::new("h", 1));
    assert_eq!(w.identifier, "h:1");
    assert_eq!(w.queue.len(), 0);
}

#[test]
fn jobs_leave_in_arrival_order() {
    let mut w = Worker::new(PrinterActor::new("h", 1));
    w.accept(PrintMessage::Print { zpl: vec![1] });
    w.accept(PrintMessage::Print { zpl: vec![2] });
    w.accept(PrintMessage::Print { zpl: vec![3] });
    let first = w.take_next().unwrap();
    assert_eq!(first.payload(), &vec![1]);
    let second = w.take_next().unwrap();
    assert_eq!(second.payload(), &vec![2]);
    let third = w.take_next().unwrap();
    assert_eq!(third.payload(), &vec![3]);
    assert!(w.take_next().is_none());
}

#[test]
fn next_action_names_own_endpoint_and_payload_verbatim() {
    let mut w = Worker::new(PrinterActor::new("192.168.1.5", 9001));
    w.accept(PrintMessage::Print { zpl: vec![0x5e, 0x58, 0x41] });
    let req = w.next_action().unwrap();
    assert_eq!(req.host, "192.168.1.5");
    assert_eq!(req.port, 9001);
    assert_eq!(req.payload, vec![0x5e, 0x58, 0x41]);
    assert!(w.next_action().is_none());
}

#[test]
fn scenario_worker_survives_refused_connection() {
    let mut w = Worker::new(PrinterActor::new("h", 1));
    w.accept(PrintMessage::Print { zpl: vec![10] });
    // the action is owed regardless of how its dial will turn out
    let first = w.next_action().unwrap();
    assert_eq!(first.payload, vec![10]);
    // the dial was refused outside; nothing of it touches the worker, which
    // accepts and correctly processes the next job for the same identifier
    w.accept(PrintMessage::Print { zpl: vec![20] });
    let second = w.next_action().unwrap();
    assert_eq!(second.host, "h");
    assert_eq!(second.port, 1);
    assert_eq!(second.payload, vec![20]);
}

#[test]
fn empty_queue_owes_no_action() {
    let mut w = Worker::new(PrinterActor::new("h", 1));
    assert!(w.next_action().is_none());
    assert!(w.take_next().is_none());
}
