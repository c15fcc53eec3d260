//! The decisions of an endpoint: how it joins a bus, and what it does when
//! its transport breaks.
//!
//! Looking an identifier up, registering it, sleeping, sending and
//! receiving are the caller's part. The caller reports how each ended and
//! is told here what to do next.

use crate::errors::{Error, JoinError, RecvError};
use crate::label::Label;
use crate::message::{EncodedMessage, Message, MessageBox};
use crate::time::TimeSpan;
use crate::util::EndpointID;
use crate::version::Version;
use vstd::prelude::*;

verus! {

/// For how long a client waits for the controller's answer to its connect
/// message: two seconds.
pub const ACK_WAIT_SECS: u64 = 2;

/// The longest sleep between two attempts to join: two seconds.
pub const RETRY_SECS: u64 = 2;

/// How looking up a bus identifier ended.
#[derive(Debug, Copy, Clone, PartialEq, Eq)]
pub enum LookUpOutcome {
    /// The controller has admitted the endpoint.
    Connected,
    /// Nobody has registered the identifier.
    NotInUse,
    /// The controller speaks the given version, which is not compatible.
    VersionMismatch(Version),
    TokenMismatch,
    /// The controller did not answer in time.
    Timeout,
    PermissionDenied,
    /// Anything else went wrong.
    Failed,
}

/// How registering a bus identifier ended.
#[derive(Debug, Copy, Clone, PartialEq, Eq)]
pub enum RegisterOutcome {
    /// The identifier is this endpoint's: it is the controller now.
    Registered,
    /// Another endpoint was faster.
    InUse,
    PermissionDenied,
    /// Anything else went wrong.
    Failed,
}

/// What an endpoint that wants to join does next.
#[derive(Debug, Copy, Clone, PartialEq, Eq)]
pub enum JoinAction {
    /// Register the identifier.
    Register,
    /// Sleep for the given time, then look the identifier up again.
    Sleep(TimeSpan),
    /// The endpoint has joined as a client.
    Client,
    /// The endpoint has joined as the controller.
    Server,
    /// The endpoint gives up.
    Fail(JoinError),
}

/// What an endpoint that is joining a bus goes by: whether it may become the
/// controller, and its one deadline, which spans all its attempts and the
/// sleeps between them.
#[derive(Debug, Copy, Clone, PartialEq, Eq)]
pub struct Election {
    /// Whether the endpoint may become the controller.
    pub controller_affinity: bool,
    /// The point in time, in nanoseconds, at which joining is given up;
    /// `None` where it never is.
    pub end: Option<u128>,
}

/// For how long a joining endpoint sleeps at `now` before it tries again:
/// two seconds, or what is left until `end` where that is less. `None`
/// where nothing is left.
pub open spec fn wait_of(end: Option<u128>, now: nat) -> Option<nat> {
    match end {
        None => Some(RETRY_SECS as nat * 1_000_000_000),
        Some(end) => if end <= now {
            None
        } else if end - now < RETRY_SECS as nat * 1_000_000_000 {
            Some((end - now) as nat)
        } else {
            Some(RETRY_SECS as nat * 1_000_000_000)
        },
    }
}

/// Sleeping and trying again, or giving up where the time is over.
pub open spec fn retry_of(end: Option<u128>, now: nat, action: JoinAction) -> bool {
    match wait_of(end, now) {
        None => action == JoinAction::Fail(JoinError::Timeout),
        Some(wait) => action matches JoinAction::Sleep(span) && span@ == wait,
    }
}

/// What follows a look-up that ended with `outcome`, for an election in the
/// state `election` at the time `now`.
pub open spec fn after_look_up(
    election: Election,
    outcome: LookUpOutcome,
    now: nat,
    action: JoinAction,
) -> bool {
    match outcome {
        LookUpOutcome::Connected => action == JoinAction::Client,
        LookUpOutcome::NotInUse => if election.controller_affinity {
            action == JoinAction::Register
        } else {
            retry_of(election.end, now, action)
        },
        LookUpOutcome::VersionMismatch(v) => action == JoinAction::Fail(
            JoinError::VersionMismatch(v),
        ),
        LookUpOutcome::TokenMismatch => action == JoinAction::Fail(JoinError::TokenMismatch),
        LookUpOutcome::PermissionDenied => action == JoinAction::Fail(JoinError::PermissionDenied),
        LookUpOutcome::Timeout => retry_of(election.end, now, action),
        LookUpOutcome::Failed => retry_of(election.end, now, action),
    }
}

/// What follows an attempt to register that ended with `outcome`.
pub open spec fn after_register(
    election: Election,
    outcome: RegisterOutcome,
    now: nat,
    action: JoinAction,
) -> bool {
    match outcome {
        RegisterOutcome::Registered => action == JoinAction::Server,
        RegisterOutcome::PermissionDenied => action == JoinAction::Fail(
            JoinError::PermissionDenied,
        ),
        RegisterOutcome::InUse => retry_of(election.end, now, action),
        RegisterOutcome::Failed => retry_of(election.end, now, action),
    }
}

impl Election {
    /// The election of an endpoint that starts to join at `now` and gives up
    /// after `timeout`, if there is one.
    pub fn new(controller_affinity: bool, now: TimeSpan, timeout: Option<TimeSpan>) -> (e: Election)
        ensures
            e.controller_affinity == controller_affinity,
            match timeout {
                Some(t) => e.end == Some((now@ + t@) as u128),
                None => e.end is None,
            },
    {
        let end = match timeout {
            Some(t) => Some(now.as_nanos() + t.as_nanos()),
            None => None,
        };
        Election { controller_affinity, end }
    }

    /// For how long to sleep at `now` before the next attempt; `None` where
    /// the time for joining is over.
    pub fn wait(&self, now: TimeSpan) -> (wait: Option<TimeSpan>)
        ensures
            match wait_of(self.end, now@) {
                Some(nanos) => wait matches Some(span) && span@ == nanos,
                None => wait is None,
            },
    {
        let retry = TimeSpan::from_secs(RETRY_SECS);
        match self.end {
            None => Some(retry),
            Some(end) => {
                let now = now.as_nanos();
                if end <= now {
                    None
                } else if end - now < retry.as_nanos() {
                    TimeSpan::from_nanos(end - now)
                } else {
                    Some(retry)
                }
            },
        }
    }

    /// Sleep and try again, or give up where the time is over.
    fn retry(&self, now: TimeSpan) -> (action: JoinAction)
        ensures
            retry_of(self.end, now@, action),
    {
        match self.wait(now) {
            Some(span) => JoinAction::Sleep(span),
            None => JoinAction::Fail(JoinError::Timeout),
        }
    }

    /// What to do after a look-up that ended with `outcome`.
    ///
    /// An endpoint that is admitted has joined. Where nobody has the
    /// identifier, an endpoint with controller affinity registers it and any
    /// other sleeps and looks up again. A version that the controller
    /// reports as not compatible, a wrong token and a refusal by the system
    /// end the attempt. A controller that does not answer in time is asked
    /// again after a sleep, however often that happens, until the time for
    /// joining is over: then the attempt ends with `Timeout`.
    pub fn on_look_up(&self, outcome: LookUpOutcome, now: TimeSpan) -> (action: JoinAction)
        ensures
            after_look_up(*self, outcome, now@, action),
    {
        match outcome {
            LookUpOutcome::Connected => JoinAction::Client,
            LookUpOutcome::NotInUse => {
                if self.controller_affinity {
                    JoinAction::Register
                } else {
                    self.retry(now)
                }
            },
            LookUpOutcome::VersionMismatch(v) => JoinAction::Fail(JoinError::VersionMismatch(v)),
            LookUpOutcome::TokenMismatch => JoinAction::Fail(JoinError::TokenMismatch),
            LookUpOutcome::PermissionDenied => JoinAction::Fail(JoinError::PermissionDenied),
            LookUpOutcome::Timeout => self.retry(now),
            LookUpOutcome::Failed => self.retry(now),
        }
    }

    /// What to do after an attempt to register that ended with `outcome`:
    /// the endpoint that got the identifier is the controller; one that lost
    /// the race, or failed otherwise, sleeps and looks up again; a refusal
    /// by the system ends the attempt.
    pub fn on_register(&self, outcome: RegisterOutcome, now: TimeSpan) -> (action: JoinAction)
        ensures
            after_register(*self, outcome, now@, action),
    {
        match outcome {
            RegisterOutcome::Registered => JoinAction::Server,
            RegisterOutcome::PermissionDenied => JoinAction::Fail(JoinError::PermissionDenied),
            RegisterOutcome::InUse => self.retry(now),
            RegisterOutcome::Failed => self.retry(now),
        }
    }
}

/// How a look-up ended, told from its error; `None` stands for success.
pub open spec fn look_up_told(error: Option<Error>) -> LookUpOutcome {
    match error {
        None => LookUpOutcome::Connected,
        Some(Error::IdentifierNotInUse) => LookUpOutcome::NotInUse,
        Some(Error::VersionMismatch(v)) => LookUpOutcome::VersionMismatch(v),
        Some(Error::TokenMismatch) => LookUpOutcome::TokenMismatch,
        Some(Error::Timeout) => LookUpOutcome::Timeout,
        Some(Error::PermissionDenied) => LookUpOutcome::PermissionDenied,
        Some(_) => LookUpOutcome::Failed,
    }
}

/// How an attempt to register ended, told from its error; `None` stands for
/// success.
pub open spec fn register_told(error: Option<Error>) -> RegisterOutcome {
    match error {
        None => RegisterOutcome::Registered,
        Some(Error::IdentifierInUse) => RegisterOutcome::InUse,
        Some(Error::PermissionDenied) => RegisterOutcome::PermissionDenied,
        Some(_) => RegisterOutcome::Failed,
    }
}

/// The error behind a reference, if there is one.
pub open spec fn error_behind(error: Option<&Error>) -> Option<Error> {
    match error {
        Some(e) => Some(*e),
        None => None,
    }
}

/// The error of a result, if it has one.
pub open spec fn error_of<T>(result: Result<T, Error>) -> Option<Error> {
    match result {
        Ok(_) => None,
        Err(e) => Some(e),
    }
}

/// How a look-up ended, told from its error; `None` stands for success.
pub fn look_up_outcome(error: Option<&Error>) -> (outcome: LookUpOutcome)
    ensures
        outcome == look_up_told(error_behind(error)),
{
    match error {
        None => LookUpOutcome::Connected,
        Some(Error::IdentifierNotInUse) => LookUpOutcome::NotInUse,
        Some(Error::VersionMismatch(v)) => LookUpOutcome::VersionMismatch(*v),
        Some(Error::TokenMismatch) => LookUpOutcome::TokenMismatch,
        Some(Error::Timeout) => LookUpOutcome::Timeout,
        Some(Error::PermissionDenied) => LookUpOutcome::PermissionDenied,
        Some(_) => LookUpOutcome::Failed,
    }
}

/// How an attempt to register ended, told from its error; `None` stands for
/// success.
pub fn register_outcome(error: Option<&Error>) -> (outcome: RegisterOutcome)
    ensures
        outcome == register_told(error_behind(error)),
{
    match error {
        None => RegisterOutcome::Registered,
        Some(Error::IdentifierInUse) => RegisterOutcome::InUse,
        Some(Error::PermissionDenied) => RegisterOutcome::PermissionDenied,
        Some(_) => RegisterOutcome::Failed,
    }
}

/// How one attempt to join ended. `C` is what a client gets from a look-up
/// that succeeds, `S` what the controller gets from registering.
pub enum Attempt<C, S> {
    /// The endpoint has joined as a client.
    Client(C),
    /// The endpoint has joined as the controller.
    Server(S),
    /// Sleep for the given time, then try again.
    Sleep(TimeSpan),
    /// The endpoint gives up.
    Fail(JoinError),
}

/// Whether a look-up by `look_up`, read at the time that `now` told as `at`,
/// gave `found` and leads the election to `action`.
pub open spec fn looked_up<C, LU: Fn() -> Result<C, Error>, NW: Fn() -> TimeSpan>(
    election: Election,
    look_up: LU,
    now: NW,
    found: Result<C, Error>,
    at: TimeSpan,
    action: JoinAction,
) -> bool {
    &&& call_ensures(look_up, (), found)
    &&& call_ensures(now, (), at)
    &&& after_look_up(election, look_up_told(error_of(found)), at@, action)
}

/// Whether registering by `register`, read at the time that `now` told as
/// `at`, gave `made` and leads the election to `action`.
pub open spec fn registered<S, RG: Fn() -> Result<S, Error>, NW: Fn() -> TimeSpan>(
    election: Election,
    register: RG,
    now: NW,
    made: Result<S, Error>,
    at: TimeSpan,
    action: JoinAction,
) -> bool {
    &&& call_ensures(register, (), made)
    &&& call_ensures(now, (), at)
    &&& after_register(election, register_told(error_of(made)), at@, action)
}

/// Whether `attempt` is how an attempt ends whose last action is `action`,
/// where `made` is what registering gave.
pub open spec fn ends_as<C, S>(action: JoinAction, made: Result<S, Error>, attempt: Attempt<C, S>)
    -> bool {
    match action {
        JoinAction::Server => made matches Ok(s) && attempt == Attempt::<C, S>::Server(s),
        JoinAction::Sleep(span) => attempt == Attempt::<C, S>::Sleep(span),
        JoinAction::Fail(e) => attempt == Attempt::<C, S>::Fail(e),
        _ => false,
    }
}

/// Whether one attempt to join can end as `attempt`.
///
/// The identifier is looked up. An endpoint that is admitted has joined as
/// a client. Where the look-up says to register, the identifier is
/// registered, and the endpoint that gets it has joined as the controller.
/// Else the endpoint sleeps or gives up as the election says.
pub open spec fn is_attempt<
    C,
    S,
    LU: Fn() -> Result<C, Error>,
    RG: Fn() -> Result<S, Error>,
    NW: Fn() -> TimeSpan,
>(election: Election, look_up: LU, register: RG, now: NW, attempt: Attempt<C, S>) -> bool {
    exists|found: Result<C, Error>, at: TimeSpan, action: JoinAction| #[trigger]
        looked_up(election, look_up, now, found, at, action) && match action {
            JoinAction::Client => found matches Ok(c) && attempt == Attempt::<C, S>::Client(c),
            JoinAction::Register => exists|made: Result<S, Error>, then: TimeSpan, last: JoinAction|
             #[trigger]
                registered(election, register, now, made, then, last) && ends_as(
                    last,
                    made,
                    attempt,
                ),
            JoinAction::Sleep(span) => attempt == Attempt::<C, S>::Sleep(span),
            JoinAction::Fail(e) => attempt == Attempt::<C, S>::Fail(e),
            JoinAction::Server => false,
        }
}

impl Election {
    /// Makes one attempt to join: looks the identifier up with `look_up`,
    /// and registers it with `register` where the look-up found it unused
    /// and the endpoint may become the controller. The time is read from
    /// `now` after each of the two.
    pub fn attempt<
        C,
        S,
        LU: Fn() -> Result<C, Error>,
        RG: Fn() -> Result<S, Error>,
        NW: Fn() -> TimeSpan,
    >(&self, look_up: &LU, register: &RG, now: &NW) -> (attempt: Attempt<C, S>)
        requires
            call_requires(*look_up, ()),
            call_requires(*register, ()),
            call_requires(*now, ()),
        ensures
            is_attempt(*self, *look_up, *register, *now, attempt),
    {
        let found = look_up();
        let at = now();
        let outcome = match &found {
            Ok(_) => look_up_outcome(None),
            Err(e) => look_up_outcome(Some(e)),
        };
        let action = self.on_look_up(outcome, at);
        proof {
            assert(looked_up(*self, *look_up, *now, found, at, action));
        }
        match action {
            JoinAction::Client => match found {
                Ok(joined) => Attempt::Client(joined),
                Err(_) => {
                    proof {
                        assert(false);
                    }
                    vstd::pervasive::unreached()
                },
            },
            JoinAction::Register => {
                let made = register();
                let then = now();
                let outcome = match &made {
                    Ok(_) => register_outcome(None),
                    Err(e) => register_outcome(Some(e)),
                };
                let last = self.on_register(outcome, then);
                proof {
                    assert(registered(*self, *register, *now, made, then, last));
                }
                match last {
                    JoinAction::Server => match made {
                        Ok(joined) => Attempt::Server(joined),
                        Err(_) => {
                            proof {
                                assert(false);
                            }
                            vstd::pervasive::unreached()
                        },
                    },
                    JoinAction::Sleep(span) => Attempt::Sleep(span),
                    JoinAction::Fail(e) => Attempt::Fail(e),
                    _ => {
                        proof {
                            assert(false);
                        }
                        vstd::pervasive::unreached()
                    },
                }
            },
            JoinAction::Sleep(span) => Attempt::Sleep(span),
            JoinAction::Fail(e) => Attempt::Fail(e),
            JoinAction::Server => {
                proof {
                    assert(false);
                }
                vstd::pervasive::unreached()
            },
        }
    }
}

/// An endpoint without controller affinity that finds the identifier unused
/// when its time is over gives up with `Timeout`.
pub proof fn lemma_absent_identifier_times_out(
    election: Election,
    now: TimeSpan,
    action: JoinAction,
)
    requires
        !election.controller_affinity,
        election.end matches Some(end) && end <= now@,
        after_look_up(election, LookUpOutcome::NotInUse, now@, action),
    ensures
        action == JoinAction::Fail(JoinError::Timeout),
{
}

/// A controller that holds the identifier but does not answer is asked
/// again, after a sleep of no more than two seconds, as long as the time for
/// joining is not over; once it is over the endpoint gives up with
/// `Timeout`. A silent controller is never taken for one of another version.
pub proof fn lemma_silent_controller_times_out(
    election: Election,
    now: TimeSpan,
    action: JoinAction,
)
    requires
        after_look_up(election, LookUpOutcome::Timeout, now@, action),
    ensures
        !(action matches JoinAction::Fail(JoinError::VersionMismatch(_))),
        election.end matches Some(end) && end <= now@ ==> action == JoinAction::Fail(
            JoinError::Timeout,
        ),
        !(election.end matches Some(end) && end <= now@) ==> (action matches JoinAction::Sleep(
            span,
        ) && 0 < span@ <= RETRY_SECS as nat * 1_000_000_000),
{
}

/// An endpoint never sleeps longer than two seconds, nor beyond the end of
/// its time.
pub proof fn lemma_sleep_is_bounded(end: Option<u128>, now: nat)
    ensures
        wait_of(end, now) matches Some(wait) ==> 0 < wait <= RETRY_SECS as nat * 1_000_000_000 && (
        end matches Some(e) ==> now + wait <= e),
{
}

/// What an endpoint is on its bus. `C` is what a client holds of its
/// connection to the controller and `Rd` what it reads from; `S` is what the
/// controller's own endpoint sends through and `In` what it receives from.
pub enum Rule<C, Rd, S, In> {
    /// A client of the controller.
    Client {
        endpoint_id: EndpointID,
        remote: C,
        /// The receiving side of the transport; `None` once it is closed or
        /// lost.
        reader: Option<Rd>,
        /// Whether the receiving half of the endpoint was dropped.
        reader_closed: bool,
        /// How often the transport was built.
        epoch: u32,
    },
    /// The controller itself.
    Server {
        endpoint_id: EndpointID,
        bus_sender: S,
        /// What the routing loop hands to the controller's own endpoint;
        /// `None` once the receiving half was dropped.
        receiver: Option<In>,
    },
}

/// What a receiver does before it waits for a message.
#[derive(Debug, Copy, Clone, PartialEq, Eq, Structural)]
pub enum RecvPlan {
    /// The reader was lost: build the transport anew, if the epoch is still
    /// the given one, then plan again.
    Rebuild(u32),
    /// Wait on the client's reader.
    ReadClient,
    /// Wait on the controller's own inbox.
    ReadServer,
    /// The receiving half is closed: there is nothing to wait on.
    Closed,
}

/// What a receiver does with an error of its transport.
#[derive(Debug)]
pub enum RecvStep {
    /// The controller has gone: build the transport anew.
    Rebuild,
    /// Hand the error to the caller.
    Fail(RecvError),
    /// Go on with the next message.
    Skip,
}

/// The epoch after `epoch`; the count starts over after the largest.
pub open spec fn epoch_after(epoch: u32) -> u32 {
    if epoch == u32::MAX {
        0
    } else {
        (epoch + 1) as u32
    }
}

impl<C, Rd, S, In> Rule<C, Rd, S, In> {
    /// Whether the receiving side is open.
    pub open spec fn has_reader(&self) -> bool {
        match self {
            Rule::Client { reader, .. } => reader is Some,
            Rule::Server { receiver, .. } => receiver is Some,
        }
    }

    /// Whether the receiving half of the endpoint was dropped.
    pub open spec fn is_reader_closed(&self) -> bool {
        match self {
            Rule::Client { reader_closed, .. } => *reader_closed,
            Rule::Server { receiver, .. } => receiver is None,
        }
    }

    /// The rule with its receiving side closed for good.
    pub open spec fn closed(self) -> Self {
        match self {
            Rule::Client { endpoint_id, remote, reader, reader_closed, epoch } => Rule::Client {
                endpoint_id,
                remote,
                reader: None,
                reader_closed: true,
                epoch,
            },
            Rule::Server { endpoint_id, bus_sender, receiver } => Rule::Server {
                endpoint_id,
                bus_sender,
                receiver: None,
            },
        }
    }

    /// The rule of a client whose transport was built for the `epoch`-th
    /// time, with its reader open.
    pub fn client(endpoint_id: EndpointID, remote: C, reader: Rd, epoch: u32) -> (rule: Self)
        ensures
            rule == (Rule::<C, Rd, S, In>::Client {
                endpoint_id,
                remote,
                reader: Some(reader),
                reader_closed: false,
                epoch,
            }),
    {
        Rule::Client { endpoint_id, remote, reader: Some(reader), reader_closed: false, epoch }
    }

    /// The rule of the controller's own endpoint, with its inbox open.
    pub fn server(endpoint_id: EndpointID, bus_sender: S, receiver: In) -> (rule: Self)
        ensures
            rule == (Rule::<C, Rd, S, In>::Server {
                endpoint_id,
                bus_sender,
                receiver: Some(receiver),
            }),
    {
        Rule::Server { endpoint_id, bus_sender, receiver: Some(receiver) }
    }

    /// Closes the receiving side, as dropping the receiving half of the
    /// endpoint does. The sending side stays as it is.
    pub fn reader_close(&mut self)
        ensures
            *final(self) == old(self).closed(),
    {
        match self {
            Rule::Client { reader, reader_closed, .. } => {
                *reader = None;
                *reader_closed = true;
            },
            Rule::Server { receiver, .. } => {
                *receiver = None;
            },
        }
    }

    /// What a receiver does before it waits: a client that has lost its
    /// reader without closing it builds its transport anew.
    pub fn recv_plan(&self) -> (plan: RecvPlan)
        ensures
            plan == match *self {
                Rule::Client { reader, reader_closed, epoch, .. } => if !reader_closed
                    && reader is None {
                    RecvPlan::Rebuild(epoch)
                } else if reader is Some {
                    RecvPlan::ReadClient
                } else {
                    RecvPlan::Closed
                },
                Rule::Server { receiver, .. } => if receiver is Some {
                    RecvPlan::ReadServer
                } else {
                    RecvPlan::Closed
                },
            },
    {
        match self {
            Rule::Client { reader, reader_closed, epoch, .. } => {
                if !*reader_closed && reader.is_none() {
                    RecvPlan::Rebuild(*epoch)
                } else if reader.is_some() {
                    RecvPlan::ReadClient
                } else {
                    RecvPlan::Closed
                }
            },
            Rule::Server { receiver, .. } => {
                if receiver.is_some() {
                    RecvPlan::ReadServer
                } else {
                    RecvPlan::Closed
                }
            },
        }
    }

    /// The epoch of a client; `None` for the controller.
    pub fn epoch(&self) -> (epoch: Option<u32>)
        ensures
            epoch == match *self {
                Rule::Client { epoch, .. } => Some(epoch),
                Rule::Server { .. } => None::<u32>,
            },
    {
        match self {
            Rule::Client { epoch, .. } => Some(*epoch),
            Rule::Server { .. } => None,
        }
    }

    /// Starts to build the transport anew, for a caller that saw it break
    /// in the epoch `seen`. Where the rule is still a client's in that
    /// epoch, its reader is given up and the caller is told the next epoch,
    /// in which it joins again. Where another caller was faster, or the
    /// endpoint is the controller, nothing changes and the caller tries its
    /// operation again.
    pub fn begin_rebuild(&mut self, seen: u32) -> (next: Option<u32>)
        ensures
            match *old(self) {
                Rule::Client { endpoint_id, remote, reader, reader_closed, epoch } => if epoch
                    == seen {
                    next == Some(epoch_after(epoch)) && *final(self) == (Rule::<
                        C,
                        Rd,
                        S,
                        In,
                    >::Client { endpoint_id, remote, reader: None, reader_closed, epoch })
                } else {
                    next is None && *final(self) == *old(self)
                },
                Rule::Server { .. } => next is None && *final(self) == *old(self),
            },
    {
        match self {
            Rule::Client { reader, epoch, .. } => {
                if *epoch == seen {
                    *reader = None;
                    Some(epoch.wrapping_add(1))
                } else {
                    None
                }
            },
            Rule::Server { .. } => None,
        }
    }

    /// Ends building the transport anew: `joined` takes the place of the
    /// rule, and where the receiving half of the endpoint had been dropped
    /// before, it stays closed.
    pub fn finish_rebuild(&mut self, joined: Self)
        ensures
            *final(self) == if old(self).is_reader_closed() {
                joined.closed()
            } else {
                joined
            },
    {
        let was_closed = match self {
            Rule::Client { reader_closed, .. } => *reader_closed,
            Rule::Server { receiver, .. } => receiver.is_none(),
        };
        *self = joined;
        if was_closed {
            self.reader_close();
        }
    }
}

/// The rule with its reader given up and all else as it is.
pub open spec fn without_reader<C, Rd, S, In>(rule: Rule<C, Rd, S, In>) -> Rule<C, Rd, S, In> {
    match rule {
        Rule::Client { endpoint_id, remote, reader, reader_closed, epoch } => Rule::Client {
            endpoint_id,
            remote,
            reader: None,
            reader_closed,
            epoch,
        },
        other => other,
    }
}

/// Whether a caller that saw the transport of `before` break in the epoch
/// `seen` can, by building it anew, come to the rule `after` and the result
/// `done`.
///
/// Where the rule is a client's in that epoch, the reader is given up and
/// the endpoint joins again with `join`, in the next epoch. The rule that
/// joining gives takes the place of the old one, with its receiving side
/// closed where that of the old one had been closed. Where joining fails,
/// the rule stays without its reader and the error is the caller's. Where
/// another caller was faster, or the endpoint is the controller, nothing is
/// done.
pub open spec fn is_rebuild<C, Rd, S, In, J: Fn(u32) -> Result<Rule<C, Rd, S, In>, JoinError>>(
    before: Rule<C, Rd, S, In>,
    seen: u32,
    join: J,
    after: Rule<C, Rd, S, In>,
    done: Result<(), JoinError>,
) -> bool {
    if before matches Rule::Client { epoch, .. } && epoch == seen {
        exists|joined: Result<Rule<C, Rd, S, In>, JoinError>| #[trigger]
            call_ensures(join, (epoch_after(seen),), joined) && match joined {
                Ok(rule) => done is Ok && after == if before.is_reader_closed() {
                    rule.closed()
                } else {
                    rule
                },
                Err(e) => done == Err::<(), JoinError>(e) && after == without_reader(before),
            }
    } else {
        done is Ok && after == before
    }
}

impl<C, Rd, S, In> Rule<C, Rd, S, In> {
    /// Builds the transport anew for a caller that saw it break in the
    /// epoch `seen`, unless another caller has done so in the meantime.
    /// `join` joins the bus again, in the epoch it is given.
    pub fn rebuild<J: Fn(u32) -> Result<Rule<C, Rd, S, In>, JoinError>>(
        &mut self,
        seen: u32,
        join: &J,
    ) -> (done: Result<(), JoinError>)
        requires
            forall|epoch: u32| call_requires(*join, (epoch,)),
        ensures
            is_rebuild(*old(self), seen, *join, *final(self), done),
    {
        match self.begin_rebuild(seen) {
            Some(next) => {
                let joined = join(next);
                match joined {
                    Ok(rule) => {
                        self.finish_rebuild(rule);
                        Ok(())
                    },
                    Err(e) => Err(e),
                }
            },
            None => Ok(()),
        }
    }
}

/// What a receiver does with an error of its transport: where the
/// controller has gone it builds the transport anew; a timeout, a frame of
/// another version and bytes that cannot be read are the caller's to know;
/// anything else is passed over.
pub fn recv_step(error: Error) -> (step: RecvStep)
    ensures
        match error {
            Error::Disconnect => step is Rebuild,
            Error::Timeout => step matches RecvStep::Fail(RecvError::Timeout),
            Error::VersionMismatch(v) => step matches RecvStep::Fail(RecvError::VersionMismatch(w))
                && w == v,
            Error::TokenMismatch => step matches RecvStep::Fail(RecvError::TokenMismatch),
            Error::PermissionDenied => step matches RecvStep::Fail(RecvError::PermissionDenied),
            Error::Decode(e) => step matches RecvStep::Fail(RecvError::Decode(f)) && f == e,
            _ => step is Skip,
        },
{
    match error {
        Error::Disconnect => RecvStep::Rebuild,
        Error::Timeout => RecvStep::Fail(RecvError::Timeout),
        Error::VersionMismatch(v) => RecvStep::Fail(RecvError::VersionMismatch(v)),
        Error::TokenMismatch => RecvStep::Fail(RecvError::TokenMismatch),
        Error::PermissionDenied => RecvStep::Fail(RecvError::PermissionDenied),
        Error::Decode(e) => RecvStep::Fail(RecvError::Decode(e)),
        _ => RecvStep::Skip,
    }
}

/// What a receiver does after it has waited for a message.
pub enum Received<T, H, R> {
    /// Hand the message to the caller.
    Message(Message<T, H, R>),
    /// Wait for the next message.
    Skip,
    /// The controller has gone: build the transport anew, then wait again.
    Rebuild,
    /// Hand the error to the caller.
    Fail(RecvError),
}

/// What a receiver does with what came of decoding a message.
pub open spec fn told_by<T, H, R>(msg: Result<Option<Message<T, H, R>>, RecvError>) -> Received<
    T,
    H,
    R,
> {
    match msg {
        Ok(Some(m)) => Received::Message(m),
        Ok(None) => Received::Skip,
        Err(e) => Received::Fail(e),
    }
}

/// What a receiver does with an error of its transport.
pub open spec fn told_by_error<T, H, R>(error: Error) -> Received<T, H, R> {
    match error {
        Error::Disconnect => Received::Rebuild,
        Error::Timeout => Received::Fail(RecvError::Timeout),
        Error::VersionMismatch(v) => Received::Fail(RecvError::VersionMismatch(v)),
        Error::TokenMismatch => Received::Fail(RecvError::TokenMismatch),
        Error::PermissionDenied => Received::Fail(RecvError::PermissionDenied),
        Error::Decode(e) => Received::Fail(RecvError::Decode(e)),
        _ => Received::Skip,
    }
}

/// What a receiver whose label is `own_label` does with what its transport
/// gave it. A message that was not meant for the endpoint, or whose payload
/// type the receiver does not know, is passed over; so is an error that is
/// neither the caller's to know nor a sign that the controller has gone. A
/// controller, to which only messages for its own label are handed, passes no
/// label.
pub fn on_received<T: MessageBox, H, R>(
    received: Result<EncodedMessage<H, R>, Error>,
    own_label: Option<&Label>,
) -> (next: Received<T, H, R>)
    ensures
        match received {
            Ok(m) => exists|msg: Result<Option<Message<T, H, R>>, RecvError>| #[trigger]
                m.is_decoded(own_label, msg) && next == told_by(msg),
            Err(e) => next == told_by_error::<T, H, R>(e),
        },
{
    match received {
        Ok(encoded) => {
            let msg = encoded.into_message::<T>(own_label);
            match msg {
                Ok(Some(msg)) => Received::Message(msg),
                Ok(None) => Received::Skip,
                Err(e) => Received::Fail(e),
            }
        },
        Err(e) => match recv_step(e) {
            RecvStep::Rebuild => Received::Rebuild,
            RecvStep::Fail(e) => Received::Fail(e),
            RecvStep::Skip => Received::Skip,
        },
    }
}

/// Once the receiving half of an endpoint was dropped, building the
/// transport anew does not open it again: whatever rule takes the place of
/// the old one, its receiving side is closed.
pub proof fn lemma_reader_stays_closed<C, Rd, S, In>(joined: Rule<C, Rd, S, In>)
    ensures
        joined.closed().is_reader_closed(),
        !joined.closed().has_reader(),
{
}

} // verus!
