use ipmb::bus_controller::{
    same_text, Buffered, BusController, RoutePass, RouteStage, RouteStep, SendOutcome,
};
use ipmb::message::{ConnectMessage, ConnectMessageAck, EncodedMessage};
use ipmb::time::TimeSpan;
use ipmb::util::EndpointID;
use ipmb::{version, Error, Label, LabelOp, Message, MessageBox, Selector, Version};

#[derive(Debug, PartialEq)]
struct Raw(Vec<u8>);

impl MessageBox for Raw {
    fn decode(_uuid: [u8; 16], data: &[u8]) -> Result<Self, Error> {
        Ok(Raw(data.to_vec()))
    }

    fn encode(&self) -> Result<Vec<u8>, Error> {
        Ok(self.0.clone())
    }

    fn uuid(&self) -> [u8; 16] {
        [7; 16]
    }
}

type Bus = BusController<&'static str, i32, u64>;
type Wire = EncodedMessage<i32, u64>;

fn label(tags: &[&str]) -> Label {
    Label::from_tags(tags)
}

fn at(millis: u64) -> TimeSpan {
    TimeSpan::from_millis(millis)
}

fn bus(tags: &[&str]) -> Bus {
    BusController::new(EndpointID::from_bytes([0; 16]), label(tags), "token".to_string(), at(0))
}

fn wire(selector: Selector, payload: &[u8]) -> Wire {
    Message::<Raw, i32, u64>::new(selector, Raw(payload.to_vec()))
        .into_encoded(|_: &Selector| vec![])
        .unwrap()
}

/// Lets a client with the given transport join, as the controller's loop
/// does, and tells whether it was admitted.
fn join(bus: &mut Bus, name: &'static str, key: u64, tags: &[&str]) -> bool {
    let request = ConnectMessage::new("token", label(tags));
    let ack = bus.connect_ack(Some(&request));
    bus.insert_endpoint(ack, request.label, name, key, true)
}

/// One pass of a message over the table: `gone` are the transports that have
/// disconnected, `local_open` tells whether the controller's own endpoint
/// takes messages. Gives the names of the endpoints that got the message, with
/// `"<local>"` for the controller's own, and whether the message is left over.
fn route(bus: &mut Bus, msg: &Wire, gone: &[&str], local_open: bool) -> (Vec<&'static str>, bool) {
    let mut got = vec![];
    let mut pass = RoutePass::new();
    loop {
        match bus.route_next(&mut pass, msg.selector()) {
            RouteStep::Forward(i) => {
                let name = bus.endpoints()[i].remote;
                let outcome = if gone.contains(&name) {
                    SendOutcome::Disconnected
                } else {
                    got.push(name);
                    SendOutcome::Delivered
                };
                bus.route_sent(&mut pass, outcome);
            }
            RouteStep::Local => {
                if local_open {
                    got.push("<local>");
                }
                pass.route_local(local_open);
            }
            RouteStep::Finished => break,
        }
    }
    assert_eq!(pass.stage, RouteStage::Finished);
    (got, pass.remain)
}

/// What the controller's loop does with a message after it has routed it.
fn settle(bus: &mut Bus, msg: Wire, remain: bool, now: TimeSpan) -> bool {
    if remain {
        bus.buffer(now, msg)
    } else {
        false
    }
}

/// Routes the waiting messages again, as the loop does after an endpoint has
/// connected, and gives what each endpoint got.
fn replay(bus: &mut Bus, now: TimeSpan) -> Vec<(&'static str, Vec<u8>)> {
    let mut got = vec![];
    for Buffered { expire, message } in bus.take_buffer() {
        let (names, remain) = route(bus, &message, &[], true);
        for name in names {
            got.push((name, message.payload_data().to_vec()));
        }
        if remain {
            bus.rebuffer(Buffered { expire, message }, now);
        }
    }
    got
}

fn names(bus: &Bus) -> Vec<&'static str> {
    bus.endpoints().iter().map(|e| e.remote).collect()
}

#[test]
fn single_unicast() {
    // The controller's own endpoint is labelled `recv`, a client `send`.
    let mut bus = bus(&["recv"]);
    assert!(join(&mut bus, "b", 1, &["send"]));
    let msg = wire(Selector::unicast(LabelOp::leaf("recv")), &[1, 2, 3]);
    let (got, remain) = route(&mut bus, &msg, &[], true);
    assert_eq!(got, vec!["<local>"]);
    assert!(!remain);
    let back: Message<Raw, i32, u64> = msg.into_message(None).unwrap().unwrap();
    assert_eq!(back.payload, Raw(vec![1, 2, 3]));
    assert_eq!(back.selector.mode(), ipmb::SelectorMode::Unicast);
}

#[test]
fn unicast_goes_to_the_first_that_takes_it() {
    let mut bus = bus(&["x"]);
    assert!(join(&mut bus, "a", 1, &["x"]));
    assert!(join(&mut bus, "b", 2, &["x"]));
    assert!(join(&mut bus, "c", 3, &["x"]));
    let msg = wire(Selector::unicast(LabelOp::leaf("x")), &[1]);
    assert_eq!(route(&mut bus, &msg, &[], true), (vec!["a"], false));
    // An endpoint that has gone leaves the table, and the next one is tried.
    assert_eq!(route(&mut bus, &msg, &["a"], true), (vec!["b"], false));
    assert_eq!(names(&bus), vec!["b", "c"]);
    assert_eq!(route(&mut bus, &msg, &["b", "c"], true), (vec!["<local>"], false));
    assert!(names(&bus).is_empty());
}

#[test]
fn multicast_with_predicate() {
    let mut bus = bus(&["root"]);
    assert!(join(&mut bus, "a", 1, &["x", "a"]));
    assert!(join(&mut bus, "b", 2, &["x", "b"]));
    assert!(join(&mut bus, "c", 3, &["y"]));
    let msg = wire(Selector::multicast(LabelOp::leaf("x")), &[1]);
    assert_eq!(route(&mut bus, &msg, &[], true), (vec!["a", "b"], false));
    assert_eq!(names(&bus), vec!["a", "b", "c"]);
}

#[test]
fn multicast_reaches_the_controller_too() {
    let mut bus = bus(&["x"]);
    assert!(join(&mut bus, "a", 1, &["x"]));
    let msg = wire(Selector::multicast(LabelOp::leaf("x")), &[1]);
    assert_eq!(route(&mut bus, &msg, &[], true), (vec!["a", "<local>"], false));
    // Where the controller's own endpoint is closed, the message was routed
    // all the same.
    assert_eq!(route(&mut bus, &msg, &[], false), (vec!["a"], false));
    // Where nobody took it, it is left over.
    assert_eq!(route(&mut bus, &msg, &["a"], false), (vec![], true));
}

#[test]
fn not_predicate() {
    let mut bus = bus(&["a"]);
    assert!(join(&mut bus, "a", 1, &["a"]));
    assert!(join(&mut bus, "b", 2, &["b"]));
    let msg = wire(Selector::multicast(!LabelOp::leaf("a")), &[1]);
    assert_eq!(route(&mut bus, &msg, &[], true), (vec!["b"], false));
}

#[test]
fn a_failed_send_is_not_a_delivery() {
    let mut bus = bus(&[]);
    assert!(join(&mut bus, "a", 1, &["x"]));
    let msg = wire(Selector::unicast(LabelOp::leaf("x")), &[1]);
    let mut pass = RoutePass::new();
    assert_eq!(bus.route_next(&mut pass, msg.selector()), RouteStep::Forward(0));
    assert_eq!(pass.stage, RouteStage::Forwarding);
    bus.route_sent(&mut pass, SendOutcome::Failed);
    assert_eq!((pass.next, pass.routed, pass.stage), (1, false, RouteStage::Scanning));
    assert_eq!(bus.route_next(&mut pass, msg.selector()), RouteStep::Finished);
    assert!(pass.remain);
    assert_eq!(names(&bus), vec!["a"]);
}

#[test]
fn steps_out_of_turn_change_nothing() {
    let mut bus = bus(&["x"]);
    assert!(join(&mut bus, "a", 1, &["x"]));
    let msg = wire(Selector::unicast(LabelOp::leaf("x")), &[1]);
    let mut pass = RoutePass::new();
    let start = pass;
    bus.route_sent(&mut pass, SendOutcome::Disconnected);
    pass.route_local(true);
    assert_eq!(pass, start);
    assert_eq!(names(&bus), vec!["a"]);
    assert_eq!(bus.route_next(&mut pass, msg.selector()), RouteStep::Forward(0));
    let waiting = pass;
    assert_eq!(bus.route_next(&mut pass, msg.selector()), RouteStep::Finished);
    assert_eq!(pass, waiting);
}

#[test]
fn ttl_zero_is_dropped_not_buffered() {
    let mut bus = bus(&["root"]);
    let msg = wire(Selector::unicast(LabelOp::leaf("late")), &[9]);
    let (got, remain) = route(&mut bus, &msg, &[], true);
    assert!(got.is_empty());
    assert!(remain);
    assert!(!settle(&mut bus, msg, remain, at(0)));
    assert!(!bus.has_buffered());
    assert!(bus.take_buffer().is_empty());
}

#[test]
fn ttl_buffering() {
    let mut bus = bus(&["root"]);
    let mut selector = Selector::unicast(LabelOp::leaf("late"));
    selector.set_ttl(TimeSpan::from_secs(2));
    let msg = wire(selector, &[9]);
    let (got, remain) = route(&mut bus, &msg, &[], true);
    assert!(got.is_empty() && remain);
    assert!(settle(&mut bus, msg, remain, at(1_000)));
    assert!(bus.has_buffered());

    // Within the time to live a peer joins and gets the message first.
    assert!(join(&mut bus, "late", 1, &["late"]));
    assert_eq!(replay(&mut bus, at(1_900)), vec![("late", vec![9])]);
    assert!(!bus.has_buffered());
}

#[test]
fn a_buffered_message_expires() {
    let mut bus = bus(&["root"]);
    let mut selector = Selector::unicast(LabelOp::leaf("late"));
    selector.set_ttl(TimeSpan::from_secs(2));
    let msg = wire(selector, &[9]);
    assert!(bus.buffer(at(1_000), msg));

    // Another peer joins in time: the message finds nobody and is kept.
    assert!(join(&mut bus, "early", 1, &["early"]));
    assert!(replay(&mut bus, at(2_999)).is_empty());
    assert!(bus.has_buffered());

    // At its deadline it is dropped, and a late joiner never gets it.
    assert!(join(&mut bus, "other", 2, &["other"]));
    assert!(replay(&mut bus, at(3_000)).is_empty());
    assert!(!bus.has_buffered());
    assert!(join(&mut bus, "late", 3, &["late"]));
    assert!(replay(&mut bus, at(3_001)).is_empty());
}

#[test]
fn buffered_messages_replay_in_order() {
    let mut bus = bus(&[]);
    for n in 1..=3u8 {
        let mut selector = Selector::multicast(LabelOp::leaf("late"));
        selector.set_ttl(TimeSpan::from_secs(10));
        assert!(bus.buffer(at(n as u64), wire(selector, &[n])));
    }
    let waiting = bus.take_buffer();
    assert_eq!(
        waiting.iter().map(|b| b.expire).collect::<Vec<_>>(),
        vec![10_001_000_000, 10_002_000_000, 10_003_000_000]
    );
    for entry in waiting {
        assert!(bus.rebuffer(entry, at(5)));
    }
    assert!(join(&mut bus, "late", 1, &["late"]));
    assert_eq!(
        replay(&mut bus, at(6)),
        vec![("late", vec![1]), ("late", vec![2]), ("late", vec![3])]
    );
}

#[test]
fn the_handshake_checks_version_then_token() {
    let bus = bus(&[]);
    let id = EndpointID::from_bytes([5; 16]);
    let good = ConnectMessage::new("token", label(&["a"]));
    assert_eq!(bus.ack_for(Some(&good), id), ConnectMessageAck::Admitted(id));
    assert_eq!(bus.ack_for(None, id), ConnectMessageAck::ErrVersion(version()));
    let wrong_token = ConnectMessage::new("nekot", label(&["a"]));
    assert_eq!(bus.ack_for(Some(&wrong_token), id), ConnectMessageAck::ErrToken);
    let mut old = ConnectMessage::new("token", label(&["a"]));
    old.version = Version::new(0, 7, 0);
    assert_eq!(bus.ack_for(Some(&old), id), ConnectMessageAck::ErrVersion(version()));
    let mut both = ConnectMessage::new("nekot", label(&["a"]));
    both.version = Version::new(1, 0, 0);
    assert_eq!(bus.ack_for(Some(&both), id), ConnectMessageAck::ErrVersion(version()));
    let mut patch = ConnectMessage::new("token", label(&["a"]));
    patch.version = Version::new(0, 8, 200);
    assert_eq!(bus.ack_for(Some(&patch), id), ConnectMessageAck::Admitted(id));
}

#[test]
fn a_different_token_is_a_token_mismatch() {
    let mut bus = bus(&[]);
    let request = ConnectMessage::new("other", label(&["a"]));
    let ack = bus.connect_ack(Some(&request));
    assert_eq!(ack, ConnectMessageAck::ErrToken);
    assert!(matches!(ack.into_result(), Err(Error::TokenMismatch)));
    assert!(!bus.insert_endpoint(ack, request.label, "a", 1, true));
    assert!(names(&bus).is_empty());
}

#[test]
fn admitted_clients_get_random_ids() {
    let bus = bus(&[]);
    let request = ConnectMessage::new("token", label(&["a"]));
    let a = bus.connect_ack(Some(&request));
    let b = bus.connect_ack(Some(&request));
    match (a, b) {
        (ConnectMessageAck::Admitted(a), ConnectMessageAck::Admitted(b)) => {
            assert_ne!(a, b);
            assert_eq!(a.into_bytes()[6] & 0xf0, 0x40);
        }
        _ => panic!("both are admitted"),
    }
}

#[test]
fn an_endpoint_enters_the_table_once() {
    let mut bus = bus(&[]);
    assert!(join(&mut bus, "a", 1, &["x", "y"]));
    // The same tags in another order through the same transport: once.
    assert!(!join(&mut bus, "a again", 1, &["y", "x"]));
    // The same tags through another transport, or other tags: again.
    assert!(join(&mut bus, "b", 2, &["x", "y"]));
    assert!(join(&mut bus, "c", 1, &["x"]));
    assert_eq!(names(&bus), vec!["a", "b", "c"]);
    assert!(bus.connected(&label(&["y", "x"]), 2));
    assert!(!bus.connected(&label(&["y"]), 2));
    assert!(!bus.connected(&label(&["x"]), 3));
}

#[test]
fn an_answer_that_did_not_arrive_admits_nobody() {
    let mut bus = bus(&[]);
    let id = EndpointID::from_bytes([5; 16]);
    assert!(!bus.insert_endpoint(ConnectMessageAck::Admitted(id), label(&["a"]), "a", 1, false));
    assert!(names(&bus).is_empty());
    assert!(bus.insert_endpoint(ConnectMessageAck::Admitted(id), label(&["a"]), "a", 1, true));
    assert_eq!(bus.endpoints()[0].id, id);
    assert_eq!(bus.endpoints()[0].key, 1);
    assert!(bus.endpoints()[0].label == label(&["a"]));
    assert!(!bus.insert_endpoint(
        ConnectMessageAck::ErrVersion(version()),
        label(&["b"]),
        "b",
        2,
        true
    ));
    assert_eq!(names(&bus), vec!["a"]);
}

#[test]
fn the_dead_are_dropped_every_thirty_seconds() {
    let mut bus = bus(&[]);
    for (name, key) in [("a", 1), ("b", 2), ("c", 3), ("d", 4)] {
        assert!(join(&mut bus, name, key, &[name]));
    }
    let dead = vec![false, true, false, true];
    assert!(!bus.probe_due(at(30_000)));
    bus.drop_dead(at(30_000), &dead);
    assert_eq!(names(&bus), vec!["a", "b", "c", "d"]);
    assert!(bus.probe_due(at(30_001)));
    bus.drop_dead(at(30_001), &dead);
    assert_eq!(names(&bus), vec!["a", "c"]);
    // The thirty seconds start over.
    assert!(!bus.probe_due(at(60_001)));
    bus.drop_dead(at(60_001), &vec![true, true]);
    assert_eq!(names(&bus), vec!["a", "c"]);
    assert!(bus.probe_due(at(60_002)));
    // A place without a flag is not dropped.
    bus.drop_dead(at(60_002), &vec![true]);
    assert_eq!(names(&bus), vec!["c"]);
}

#[test]
fn same_text_compares_strings() {
    assert!(same_text("", ""));
    assert!(same_text("token", "token"));
    assert!(!same_text("token", "tokem"));
    assert!(!same_text("token", "toke"));
    assert!(!same_text("", "a"));
    assert!(same_text("päß", "päß"));
    assert!(!same_text("päß", "pas"));
}

/// Forwards to every endpoint but those named in `gone`, and notes who got
/// the message.
fn sender<'a>(
    gone: &'a [&'static str],
    got: &'a std::cell::RefCell<Vec<&'static str>>,
) -> impl Fn(&Wire, &&'static str) -> SendOutcome + 'a {
    move |_msg, name| {
        if gone.contains(name) {
            SendOutcome::Disconnected
        } else {
            got.borrow_mut().push(*name);
            SendOutcome::Delivered
        }
    }
}

#[test]
fn handle_message_makes_the_whole_pass() {
    let mut bus = bus(&["x"]);
    for (name, key, tags) in [("a", 1, &["x"][..]), ("b", 2, &["y"][..]), ("c", 3, &["x", "y"][..])] {
        assert!(join(&mut bus, name, key, tags));
    }
    let got = std::cell::RefCell::new(vec![]);
    let local = std::cell::RefCell::new(vec![]);
    let take = |m: Wire| {
        local.borrow_mut().push(m.payload_data().to_vec());
        None
    };
    let refuse = |m: Wire| Some(m);

    let multicast = wire(Selector::multicast(LabelOp::leaf("x")), &[1]);
    assert!(bus.handle_message(multicast, &sender(&[], &got), &take).is_none());
    assert_eq!(got.take(), vec!["a", "c"]);
    assert_eq!(local.take(), vec![vec![1]]);

    let unicast = wire(Selector::unicast(LabelOp::leaf("y")), &[2]);
    assert!(bus.handle_message(unicast, &sender(&["b"], &got), &take).is_none());
    assert_eq!(got.take(), vec!["c"]);
    assert!(local.take().is_empty());
    assert_eq!(names(&bus), vec!["a", "c"]);

    // Nobody takes it: it comes back.
    let lost = wire(Selector::unicast(LabelOp::leaf("x")), &[3]);
    let back = bus.handle_message(lost, &sender(&["a", "c"], &got), &refuse).unwrap();
    assert_eq!(back.payload_data(), &[3]);
    assert!(got.take().is_empty());
    assert!(names(&bus).is_empty());

    let nobody = wire(Selector::multicast(LabelOp::leaf("z")), &[4]);
    let back = bus.handle_message(nobody, &sender(&[], &got), &take).unwrap();
    assert_eq!(back.payload_data(), &[4]);
    assert!(local.take().is_empty());
}

#[test]
fn a_multicast_that_an_endpoint_took_is_not_left_over() {
    let mut bus = bus(&["x"]);
    assert!(join(&mut bus, "a", 1, &["x"]));
    let got = std::cell::RefCell::new(vec![]);
    let refuse = |m: Wire| Some(m);
    let msg = wire(Selector::multicast(LabelOp::leaf("x")), &[1]);
    assert!(bus.handle_message(msg, &sender(&[], &got), &refuse).is_none());
    assert_eq!(got.take(), vec!["a"]);
}

#[test]
fn replay_routes_what_waits() {
    let mut bus = bus(&[]);
    for (n, tag, ttl) in [(1u8, "a", 10u64), (2, "b", 1), (3, "a", 10), (4, "c", 10)] {
        let mut selector = Selector::unicast(LabelOp::leaf(tag));
        selector.set_ttl(TimeSpan::from_secs(ttl));
        assert!(bus.buffer(at(0), wire(selector, &[n])));
    }
    assert!(join(&mut bus, "a", 1, &["a"]));
    let got = std::cell::RefCell::new(vec![]);
    let refuse = |m: Wire| Some(m);
    bus.replay(at(2_000), &sender(&[], &got), &refuse);
    // Both messages for `a` went out, in their order.
    assert_eq!(got.take(), vec!["a", "a"]);
    // The message for `b` has expired, the one for `c` waits on.
    let waiting = bus.take_buffer();
    assert_eq!(waiting.len(), 1);
    assert_eq!(waiting[0].message.payload_data(), &[4]);
    assert_eq!(waiting[0].expire, 10_000_000_000);
}

#[test]
fn endpoint_connect_makes_the_handshake() {
    let mut bus = bus(&[]);
    let answers = std::cell::RefCell::new(vec![]);
    let wrap = |handle: i32| ("client", handle as u64);
    let decode = |payload: &[u8]| match payload {
        [1] => Some(ConnectMessage::new("token", label(&["a"]))),
        [2] => Some(ConnectMessage::new("nekot", label(&["a"]))),
        _ => None,
    };
    let answer = |_remote: &&'static str, _selector: &Selector, ack: ConnectMessageAck| {
        answers.borrow_mut().push(ack);
        true
    };
    let connect = |payload: &[u8], objects: Vec<i32>| {
        let mut msg: Message<Raw, i32, u64> =
            Message::new(Selector::unicast(LabelOp::True), Raw(payload.to_vec()));
        msg.objects = objects;
        msg.into_encoded(|_: &Selector| vec![]).unwrap()
    };

    // Without a handle to answer through, nothing happens.
    assert!(!bus.endpoint_connect(connect(&[1], vec![]), wrap, decode, answer));
    assert!(answers.borrow().is_empty());

    assert!(!bus.endpoint_connect(connect(&[2], vec![7]), wrap, decode, answer));
    assert_eq!(answers.take(), vec![ConnectMessageAck::ErrToken]);
    assert!(!bus.endpoint_connect(connect(&[9], vec![7]), wrap, decode, answer));
    assert_eq!(answers.take(), vec![ConnectMessageAck::ErrVersion(version())]);
    assert!(names(&bus).is_empty());

    assert!(bus.endpoint_connect(connect(&[1], vec![5, 7]), wrap, decode, answer));
    let id = match answers.take()[..] {
        [ConnectMessageAck::Admitted(id)] => id,
        _ => panic!("the client is admitted"),
    };
    assert_eq!(bus.endpoints().len(), 1);
    assert_eq!(bus.endpoints()[0].id, id);
    assert_eq!(bus.endpoints()[0].key, 7);
    assert_eq!(bus.endpoints()[0].remote, "client");

    // The same client again is answered, but enters the table once.
    assert!(!bus.endpoint_connect(connect(&[1], vec![7]), wrap, decode, answer));
    assert!(matches!(answers.take()[..], [ConnectMessageAck::Admitted(_)]));
    assert_eq!(bus.endpoints().len(), 1);

    // An answer that does not get through admits nobody.
    let lost = |_: &&'static str, _: &Selector, _: ConnectMessageAck| false;
    assert!(!bus.endpoint_connect(connect(&[1], vec![8]), wrap, decode, lost));
    assert_eq!(bus.endpoints().len(), 1);
}

#[test]
fn detect_reachable_probes_when_it_is_due() {
    let mut bus = bus(&[]);
    for (name, key) in [("a", 1), ("b", 2), ("c", 3)] {
        assert!(join(&mut bus, name, key, &[name]));
    }
    let probed = std::cell::RefCell::new(vec![]);
    let is_dead = |name: &&'static str| {
        probed.borrow_mut().push(*name);
        *name == "b"
    };
    bus.detect_reachable(at(30_000), &is_dead);
    assert!(probed.borrow().is_empty());
    assert_eq!(names(&bus), vec!["a", "b", "c"]);
    bus.detect_reachable(at(30_001), &is_dead);
    assert_eq!(probed.take(), vec!["a", "b", "c"]);
    assert_eq!(names(&bus), vec!["a", "c"]);
    bus.detect_reachable(at(60_001), &is_dead);
    assert!(probed.borrow().is_empty());
    bus.detect_reachable(at(60_002), &is_dead);
    assert_eq!(probed.take(), vec!["a", "c"]);
}

#[test]
fn on_message_runs_the_bus() {
    let mut bus = bus(&["root"]);
    let got = std::cell::RefCell::new(vec![]);
    let local = std::cell::RefCell::new(vec![]);
    let answers = std::cell::RefCell::new(vec![]);
    let wrap = |handle: i32| (if handle == 1 { "late" } else { "other" }, handle as u64);
    let decode = |payload: &[u8]| match payload {
        [1] => Some(ConnectMessage::new("token", label(&["late"]))),
        [2] => Some(ConnectMessage::new("token", label(&["other"]))),
        _ => None,
    };
    let answer = |_: &&'static str, _: &Selector, ack: ConnectMessageAck| {
        answers.borrow_mut().push(ack);
        true
    };
    let send = |msg: &Wire, name: &&'static str| {
        got.borrow_mut().push((*name, msg.payload_data().to_vec()));
        SendOutcome::Delivered
    };
    let deliver = |msg: Wire| {
        local.borrow_mut().push(msg.payload_data().to_vec());
        None
    };
    let is_dead = |name: &&'static str| *name == "other";
    let connect = |payload: u8, handle: i32| {
        let mut msg: Message<Connect, i32, u64> =
            Message::new(Selector::unicast(LabelOp::True), Connect(payload));
        msg.objects = vec![handle];
        msg.into_encoded(|_: &Selector| vec![]).unwrap()
    };
    let late = |ttl: u64, payload: u8| {
        let mut selector = Selector::unicast(LabelOp::leaf("late"));
        selector.set_ttl(TimeSpan::from_secs(ttl));
        wire(selector, &[payload])
    };

    // Nobody is there for the first messages: one waits, one is dropped.
    bus.on_message(late(2, 9), at(0), wrap, decode, answer, &send, &deliver, &is_dead);
    bus.on_message(late(0, 8), at(0), wrap, decode, answer, &send, &deliver, &is_dead);
    assert!(got.borrow().is_empty());
    assert!(bus.has_buffered());

    // A message for the controller itself goes to its own endpoint.
    let own = wire(Selector::unicast(LabelOp::leaf("root")), &[7]);
    bus.on_message(own, at(100), wrap, decode, answer, &send, &deliver, &is_dead);
    assert_eq!(local.take(), vec![vec![7]]);

    // Another endpoint connects: the waiting message stays.
    bus.on_message(connect(2, 2), at(500), wrap, decode, answer, &send, &deliver, &is_dead);
    assert!(matches!(answers.take()[..], [ConnectMessageAck::Admitted(_)]));
    assert_eq!(names(&bus), vec!["other"]);
    assert!(bus.has_buffered());

    // The endpoint it waits for connects within its time, and gets it.
    bus.on_message(connect(1, 1), at(1_000), wrap, decode, answer, &send, &deliver, &is_dead);
    assert_eq!(got.take(), vec![("late", vec![9])]);
    assert!(!bus.has_buffered());
    assert_eq!(names(&bus), vec!["other", "late"]);

    // Later messages reach it at once, and the dead are dropped in time.
    bus.on_message(late(0, 5), at(30_001), wrap, decode, answer, &send, &deliver, &is_dead);
    assert_eq!(got.take(), vec![("late", vec![5])]);
    assert_eq!(names(&bus), vec!["late"]);
}

/// A payload that travels under the tag of connect messages.
#[derive(Debug)]
struct Connect(u8);

impl MessageBox for Connect {
    fn decode(_uuid: [u8; 16], data: &[u8]) -> Result<Self, Error> {
        Ok(Connect(data[0]))
    }

    fn encode(&self) -> Result<Vec<u8>, Error> {
        Ok(vec![self.0])
    }

    fn uuid(&self) -> [u8; 16] {
        ipmb::message::CONNECT_MESSAGE_UUID
    }
}
