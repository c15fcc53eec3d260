use ipmb::endpoint::{
    look_up_outcome, on_received, recv_step, register_outcome, Attempt, Election, JoinAction,
    LookUpOutcome, Received, RecvPlan, RecvStep, RegisterOutcome, Rule,
};
use ipmb::message::EncodedMessage;
use ipmb::time::TimeSpan;
use ipmb::util::EndpointID;
use ipmb::{
    Error, JoinError, Label, LabelOp, Message, MessageBox, RecvError, Selector, SendError, Version,
};

/// A payload of raw bytes with a tag of its own.
#[derive(Debug, PartialEq)]
struct Raw(Vec<u8>);

impl MessageBox for Raw {
    fn decode(uuid: [u8; 16], data: &[u8]) -> Result<Self, Error> {
        if uuid == [7; 16] {
            Ok(Raw(data.to_vec()))
        } else {
            Err(Error::TypeUuidNotFound)
        }
    }

    fn encode(&self) -> Result<Vec<u8>, Error> {
        Ok(self.0.clone())
    }

    fn uuid(&self) -> [u8; 16] {
        [7; 16]
    }
}

fn at(millis: u64) -> TimeSpan {
    TimeSpan::from_millis(millis)
}

#[test]
fn an_absent_identifier_without_affinity_times_out() {
    let e = Election::new(false, at(0), Some(at(5_000)));
    assert_eq!(e.on_look_up(LookUpOutcome::NotInUse, at(0)), JoinAction::Sleep(at(2_000)));
    assert_eq!(e.on_look_up(LookUpOutcome::NotInUse, at(2_000)), JoinAction::Sleep(at(2_000)));
    assert_eq!(e.on_look_up(LookUpOutcome::NotInUse, at(4_000)), JoinAction::Sleep(at(1_000)));
    assert_eq!(
        e.on_look_up(LookUpOutcome::NotInUse, at(5_000)),
        JoinAction::Fail(JoinError::Timeout)
    );
    assert_eq!(
        e.on_look_up(LookUpOutcome::NotInUse, at(9_000)),
        JoinAction::Fail(JoinError::Timeout)
    );
}

#[test]
fn a_timeout_of_nothing_gives_up_at_once() {
    let e = Election::new(false, at(700), Some(TimeSpan::zero()));
    assert_eq!(
        e.on_look_up(LookUpOutcome::NotInUse, at(700)),
        JoinAction::Fail(JoinError::Timeout)
    );
}

#[test]
fn without_a_timeout_an_endpoint_waits_for_ever() {
    let e = Election::new(false, at(0), None);
    assert_eq!(e.end, None);
    for step in 0..100u64 {
        assert_eq!(
            e.on_look_up(LookUpOutcome::NotInUse, at(step * 2_000)),
            JoinAction::Sleep(TimeSpan::from_secs(2))
        );
    }
    assert_eq!(e.wait(at(u64::MAX)), Some(TimeSpan::from_secs(2)));
}

#[test]
fn an_occupied_identifier_with_another_token_is_a_token_mismatch() {
    let e = Election::new(true, at(0), Some(at(5_000)));
    assert_eq!(
        e.on_look_up(LookUpOutcome::TokenMismatch, at(10)),
        JoinAction::Fail(JoinError::TokenMismatch)
    );
    assert_eq!(
        look_up_outcome(Some(&Error::TokenMismatch)),
        LookUpOutcome::TokenMismatch
    );
}

#[test]
fn affinity_registers_an_unused_identifier() {
    let e = Election::new(true, at(0), None);
    assert_eq!(e.on_look_up(LookUpOutcome::NotInUse, at(0)), JoinAction::Register);
    assert_eq!(e.on_register(RegisterOutcome::Registered, at(1)), JoinAction::Server);
}

#[test]
fn a_lost_race_looks_up_again() {
    let e = Election::new(true, at(0), Some(at(3_000)));
    assert_eq!(e.on_look_up(LookUpOutcome::NotInUse, at(0)), JoinAction::Register);
    assert_eq!(e.on_register(RegisterOutcome::InUse, at(500)), JoinAction::Sleep(at(2_000)));
    assert_eq!(e.on_look_up(LookUpOutcome::Connected, at(2_500)), JoinAction::Client);
    assert_eq!(e.on_register(RegisterOutcome::InUse, at(2_999)), JoinAction::Sleep(at(1)));
    assert_eq!(
        e.on_register(RegisterOutcome::Failed, at(3_000)),
        JoinAction::Fail(JoinError::Timeout)
    );
    assert_eq!(e.on_register(RegisterOutcome::Failed, at(100)), JoinAction::Sleep(at(2_000)));
}

#[test]
fn what_cannot_be_mended_ends_the_attempt() {
    let e = Election::new(true, at(0), None);
    assert_eq!(
        e.on_look_up(LookUpOutcome::VersionMismatch(Version::new(9, 9, 9)), at(0)),
        JoinAction::Fail(JoinError::VersionMismatch(Version::new(9, 9, 9)))
    );
    assert_eq!(
        e.on_look_up(LookUpOutcome::PermissionDenied, at(0)),
        JoinAction::Fail(JoinError::PermissionDenied)
    );
    assert_eq!(
        e.on_register(RegisterOutcome::PermissionDenied, at(0)),
        JoinAction::Fail(JoinError::PermissionDenied)
    );
    assert_eq!(e.on_look_up(LookUpOutcome::Failed, at(0)), JoinAction::Sleep(at(2_000)));
}

#[test]
fn a_controller_that_stays_silent_ends_in_a_timeout() {
    // Every look-up waits its two seconds for the answer and gets none.
    let e = Election::new(true, at(0), Some(at(21_000)));
    for n in 1..=10u64 {
        assert_eq!(
            e.on_look_up(LookUpOutcome::Timeout, at(n * 2_000)),
            JoinAction::Sleep(if n == 10 { at(1_000) } else { at(2_000) })
        );
    }
    assert_eq!(
        e.on_look_up(LookUpOutcome::Timeout, at(21_000)),
        JoinAction::Fail(JoinError::Timeout)
    );
    assert_eq!(
        e.on_look_up(LookUpOutcome::Timeout, at(30_000)),
        JoinAction::Fail(JoinError::Timeout)
    );
    // Without a deadline the endpoint goes on asking.
    let e = Election::new(true, at(0), None);
    for n in 0..100u64 {
        assert_eq!(
            e.on_look_up(LookUpOutcome::Timeout, at(n * 4_000)),
            JoinAction::Sleep(TimeSpan::from_secs(2))
        );
    }
}

#[test]
fn a_silent_controller_ends_an_attempt_in_a_timeout() {
    let clock = std::cell::Cell::new(0u64);
    let now = || TimeSpan::from_millis(clock.get());
    let silent = || -> Result<u8, Error> { Err(Error::Timeout) };
    let never = || -> Result<u16, Error> { panic!("nothing is registered") };
    let e = Election::new(true, now(), Some(at(5_000)));
    for step in 1..=7u64 {
        clock.set(step * 700);
        assert!(matches!(e.attempt(&silent, &never, &now), Attempt::Sleep(_)));
    }
    clock.set(5_000);
    assert!(matches!(e.attempt(&silent, &never, &now), Attempt::Fail(JoinError::Timeout)));
}

#[test]
fn sleeps_end_with_the_time_for_joining() {
    let e = Election::new(false, at(1_000), Some(at(2_500)));
    assert_eq!(e.end, Some(3_500_000_000));
    assert_eq!(e.wait(at(1_000)), Some(at(2_000)));
    assert_eq!(e.wait(at(1_500)), Some(at(2_000)));
    assert_eq!(e.wait(at(1_501)), Some(at(1_999)));
    assert_eq!(e.wait(at(3_499)), Some(at(1)));
    assert_eq!(e.wait(at(3_500)), None);
    assert_eq!(e.wait(at(4_000)), None);
}

#[test]
fn outcomes_are_told_from_errors() {
    assert_eq!(look_up_outcome(None), LookUpOutcome::Connected);
    assert_eq!(look_up_outcome(Some(&Error::IdentifierNotInUse)), LookUpOutcome::NotInUse);
    assert_eq!(
        look_up_outcome(Some(&Error::VersionMismatch(Version::new(1, 2, 3)))),
        LookUpOutcome::VersionMismatch(Version::new(1, 2, 3))
    );
    assert_eq!(look_up_outcome(Some(&Error::Timeout)), LookUpOutcome::Timeout);
    assert_eq!(
        look_up_outcome(Some(&Error::PermissionDenied)),
        LookUpOutcome::PermissionDenied
    );
    assert_eq!(look_up_outcome(Some(&Error::Disconnect)), LookUpOutcome::Failed);
    assert_eq!(look_up_outcome(Some(&Error::Unknown)), LookUpOutcome::Failed);
    assert_eq!(register_outcome(None), RegisterOutcome::Registered);
    assert_eq!(register_outcome(Some(&Error::IdentifierInUse)), RegisterOutcome::InUse);
    assert_eq!(
        register_outcome(Some(&Error::PermissionDenied)),
        RegisterOutcome::PermissionDenied
    );
    assert_eq!(register_outcome(Some(&Error::Unknown)), RegisterOutcome::Failed);
}

type TestRule = Rule<&'static str, u8, &'static str, u16>;

fn id() -> EndpointID {
    EndpointID::from_bytes([1; 16])
}

#[test]
fn a_client_reads_from_its_reader() {
    let rule = TestRule::client(id(), "remote", 7, 3);
    assert_eq!(rule.recv_plan(), RecvPlan::ReadClient);
    assert_eq!(rule.epoch(), Some(3));
    assert!(matches!(
        rule,
        Rule::Client { remote: "remote", reader: Some(7), reader_closed: false, epoch: 3, .. }
    ));
    let server = TestRule::server(id(), "bus", 9);
    assert_eq!(server.recv_plan(), RecvPlan::ReadServer);
    assert_eq!(server.epoch(), None);
}

#[test]
fn closing_the_reader_leaves_the_sender() {
    let mut rule = TestRule::client(id(), "remote", 7, 0);
    rule.reader_close();
    assert!(matches!(
        rule,
        Rule::Client { remote: "remote", reader: None, reader_closed: true, epoch: 0, .. }
    ));
    assert_eq!(rule.recv_plan(), RecvPlan::Closed);
    let mut server = TestRule::server(id(), "bus", 9);
    server.reader_close();
    assert!(matches!(server, Rule::Server { bus_sender: "bus", receiver: None, .. }));
    assert_eq!(server.recv_plan(), RecvPlan::Closed);
}

#[test]
fn only_the_first_caller_rebuilds() {
    let mut rule = TestRule::client(id(), "old", 7, 4);
    assert_eq!(rule.begin_rebuild(4), Some(5));
    assert!(matches!(rule, Rule::Client { reader: None, reader_closed: false, epoch: 4, .. }));
    assert_eq!(rule.recv_plan(), RecvPlan::Rebuild(4));
    rule.finish_rebuild(TestRule::client(id(), "new", 8, 5));
    assert!(matches!(
        rule,
        Rule::Client { remote: "new", reader: Some(8), reader_closed: false, epoch: 5, .. }
    ));
    // A caller that saw the old transport break finds the new one in place.
    assert_eq!(rule.begin_rebuild(4), None);
    assert!(matches!(rule, Rule::Client { remote: "new", reader: Some(8), epoch: 5, .. }));
}

#[test]
fn the_epoch_starts_over() {
    let mut rule = TestRule::client(id(), "old", 7, u32::MAX);
    assert_eq!(rule.begin_rebuild(u32::MAX), Some(0));
}

#[test]
fn a_closed_reader_stays_closed() {
    let mut rule = TestRule::client(id(), "old", 7, 0);
    rule.reader_close();
    assert_eq!(rule.begin_rebuild(0), Some(1));
    rule.finish_rebuild(TestRule::client(id(), "new", 8, 1));
    assert!(matches!(
        rule,
        Rule::Client { remote: "new", reader: None, reader_closed: true, epoch: 1, .. }
    ));
    assert_eq!(rule.recv_plan(), RecvPlan::Closed);
}

#[test]
fn a_client_may_come_back_as_the_controller() {
    let mut rule = TestRule::client(id(), "old", 7, 0);
    assert_eq!(rule.begin_rebuild(0), Some(1));
    rule.finish_rebuild(TestRule::server(id(), "bus", 9));
    assert!(matches!(rule, Rule::Server { bus_sender: "bus", receiver: Some(9), .. }));
    assert_eq!(rule.begin_rebuild(0), None);
    assert_eq!(rule.begin_rebuild(1), None);
}

#[test]
fn an_empty_endpoint_times_out() {
    assert!(matches!(recv_step(Error::Timeout), RecvStep::Fail(RecvError::Timeout)));
}

#[test]
fn recv_errors_are_mapped() {
    assert!(matches!(recv_step(Error::Disconnect), RecvStep::Rebuild));
    assert!(matches!(
        recv_step(Error::VersionMismatch(Version::new(0, 0, 0))),
        RecvStep::Fail(RecvError::VersionMismatch(v)) if v == Version::new(0, 0, 0)
    ));
    assert!(matches!(
        recv_step(Error::TokenMismatch),
        RecvStep::Fail(RecvError::TokenMismatch)
    ));
    assert!(matches!(
        recv_step(Error::PermissionDenied),
        RecvStep::Fail(RecvError::PermissionDenied)
    ));
    let broken = bincode::decode_from_slice::<u32, _>(&[], bincode::config::standard()).unwrap_err();
    assert!(matches!(
        recv_step(Error::Decode(broken)),
        RecvStep::Fail(RecvError::Decode(_))
    ));
    for other in [
        Error::TypeUuidNotFound,
        Error::IdentifierInUse,
        Error::IdentifierNotInUse,
        Error::MemoryRegionMapping,
        Error::FrameTooLarge,
        Error::Unknown,
    ] {
        assert!(matches!(recv_step(other), RecvStep::Skip));
    }
}

#[test]
fn join_errors_become_send_and_recv_errors() {
    let v = Version::new(1, 2, 3);
    assert_eq!(SendError::from(JoinError::VersionMismatch(v)), SendError::VersionMismatch(v));
    assert_eq!(SendError::from(JoinError::TokenMismatch), SendError::TokenMismatch);
    assert_eq!(SendError::from(JoinError::Timeout), SendError::Timeout);
    assert_eq!(SendError::from(JoinError::PermissionDenied), SendError::PermissionDenied);
    assert!(matches!(
        RecvError::from(JoinError::VersionMismatch(v)),
        RecvError::VersionMismatch(w) if w == v
    ));
    assert!(matches!(RecvError::from(JoinError::TokenMismatch), RecvError::TokenMismatch));
    assert!(matches!(RecvError::from(JoinError::Timeout), RecvError::Timeout));
    assert!(matches!(
        RecvError::from(JoinError::PermissionDenied),
        RecvError::PermissionDenied
    ));
}

#[test]
fn an_attempt_looks_up_and_registers() {
    let clock = std::cell::Cell::new(0u64);
    let now = || TimeSpan::from_millis(clock.get());
    let calls = std::cell::RefCell::new(vec![]);
    let absent = || -> Result<u8, Error> {
        calls.borrow_mut().push("look_up");
        Err(Error::IdentifierNotInUse)
    };
    let present = || -> Result<u8, Error> {
        calls.borrow_mut().push("look_up");
        Ok(7)
    };
    let win = || -> Result<u16, Error> {
        calls.borrow_mut().push("register");
        Ok(9)
    };
    let lose = || -> Result<u16, Error> {
        calls.borrow_mut().push("register");
        Err(Error::IdentifierInUse)
    };

    let e = Election::new(true, now(), Some(at(3_000)));
    assert!(matches!(e.attempt(&present, &win, &now), Attempt::Client(7)));
    assert_eq!(calls.take(), vec!["look_up"]);
    assert!(matches!(e.attempt(&absent, &win, &now), Attempt::Server(9)));
    assert_eq!(calls.take(), vec!["look_up", "register"]);
    clock.set(2_000);
    assert!(matches!(e.attempt(&absent, &lose, &now), Attempt::Sleep(s) if s == at(1_000)));
    assert_eq!(calls.take(), vec!["look_up", "register"]);
    clock.set(3_000);
    assert!(matches!(e.attempt(&absent, &lose, &now), Attempt::Fail(JoinError::Timeout)));
    assert_eq!(calls.take(), vec!["look_up", "register"]);

    // Without affinity nothing is registered.
    clock.set(0);
    let e = Election::new(false, now(), Some(at(3_000)));
    assert!(matches!(e.attempt(&absent, &win, &now), Attempt::Sleep(s) if s == at(2_000)));
    assert_eq!(calls.take(), vec!["look_up"]);
    clock.set(3_000);
    assert!(matches!(e.attempt(&absent, &win, &now), Attempt::Fail(JoinError::Timeout)));
    let wrong = || -> Result<u8, Error> { Err(Error::TokenMismatch) };
    assert!(matches!(e.attempt(&wrong, &win, &now), Attempt::Fail(JoinError::TokenMismatch)));
}

#[test]
fn rebuild_joins_again_in_the_next_epoch() {
    let epochs = std::cell::RefCell::new(vec![]);
    let join = |epoch: u32| -> Result<TestRule, JoinError> {
        epochs.borrow_mut().push(epoch);
        Ok(TestRule::client(id(), "new", 8, epoch))
    };
    let mut rule = TestRule::client(id(), "old", 7, 4);
    assert_eq!(rule.rebuild(4, &join), Ok(()));
    assert_eq!(epochs.take(), vec![5]);
    assert!(matches!(rule, Rule::Client { remote: "new", reader: Some(8), epoch: 5, .. }));
    // A caller that comes late joins nothing.
    assert_eq!(rule.rebuild(4, &join), Ok(()));
    assert!(epochs.borrow().is_empty());
    assert!(matches!(rule, Rule::Client { remote: "new", reader: Some(8), epoch: 5, .. }));

    let fail = |_: u32| -> Result<TestRule, JoinError> { Err(JoinError::Timeout) };
    assert_eq!(rule.rebuild(5, &fail), Err(JoinError::Timeout));
    assert!(matches!(rule, Rule::Client { remote: "new", reader: None, epoch: 5, .. }));
    assert_eq!(rule.recv_plan(), RecvPlan::Rebuild(5));

    let mut server = TestRule::server(id(), "bus", 9);
    assert_eq!(server.rebuild(0, &join), Ok(()));
    assert!(epochs.borrow().is_empty());
}

#[test]
fn on_received_tells_the_receiver_what_to_do() {
    let wire = |tag: &str| -> Result<EncodedMessage<i32, u64>, Error> {
        Message::<Raw, i32, u64>::new(Selector::unicast(LabelOp::leaf(tag)), Raw(vec![1, 2, 3]))
            .into_encoded(|_: &Selector| vec![])
    };
    let own = Label::from_tags(&["recv"]);

    match on_received::<Raw, _, _>(wire("recv"), Some(&own)) {
        Received::Message(msg) => assert_eq!(msg.payload, Raw(vec![1, 2, 3])),
        _ => panic!("the message is for this endpoint"),
    }
    assert!(matches!(on_received::<Raw, _, _>(wire("other"), Some(&own)), Received::Skip));
    assert!(matches!(on_received::<Raw, _, _>(wire("other"), None), Received::Message(_)));
    let none: Result<EncodedMessage<i32, u64>, Error> = Err(Error::Timeout);
    assert!(matches!(
        on_received::<Raw, _, _>(none, Some(&own)),
        Received::Fail(RecvError::Timeout)
    ));
    let gone: Result<EncodedMessage<i32, u64>, Error> = Err(Error::Disconnect);
    assert!(matches!(on_received::<Raw, _, _>(gone, Some(&own)), Received::Rebuild));
    let odd: Result<EncodedMessage<i32, u64>, Error> = Err(Error::Unknown);
    assert!(matches!(on_received::<Raw, _, _>(odd, Some(&own)), Received::Skip));
}
