//! The decisions of a bus controller: whom it admits, to whom a message
//! goes, which messages wait for a recipient, and when endpoints are probed.
//!
//! The controller's loop takes one message after the other. What it does
//! with the system, sending a frame or probing a transport, is the caller's
//! part; every decision in between is made here, from what the caller
//! reports.

use crate::label::Label;
use crate::message::{ConnectMessage, ConnectMessageAck, EncodedMessage};
use crate::selector::{Selector, SelectorMode};
use crate::time::TimeSpan;
use crate::util::{is_random_id, EndpointID};
use crate::version::{compatible_triples, own_version, version};
use vstd::prelude::*;

verus! {

/// An endpoint as the controller knows it. `Rm` is the transport through
/// which messages reach it; `key` is the raw value of that transport in the
/// controller's process, by which two transports are told apart.
pub struct Endpoint<Rm> {
    pub id: EndpointID,
    pub label: Label,
    pub remote: Rm,
    pub key: u64,
}

/// A message that found no recipient, kept until `expire`.
pub struct Buffered<H, R> {
    /// The point in time, in nanoseconds, after which the message is
    /// dropped.
    pub expire: u128,
    pub message: EncodedMessage<H, R>,
}

/// How often the endpoints are probed: every thirty seconds.
pub const LIVENESS_INTERVAL_SECS: u64 = 30;

/// The state of a bus controller.
pub struct BusController<Rm, H, R> {
    label: Label,
    token: String,
    endpoint_id: EndpointID,
    endpoints: Vec<Endpoint<Rm>>,
    message_buffer: Vec<Buffered<H, R>>,
    last_detect_reachable: TimeSpan,
}

/// Whether some endpoint of `endpoints` has the tags of `label` and the
/// transport `key`.
pub open spec fn is_connected<Rm>(endpoints: Seq<Endpoint<Rm>>, label: Seq<Seq<char>>, key: u64)
    -> bool {
    exists|i: int|
        0 <= i < endpoints.len() && (#[trigger] endpoints[i]).label@.to_set() == label.to_set()
            && endpoints[i].key == key
}

/// Whether no two endpoints have the same tags and the same transport.
pub open spec fn no_endpoint_twice<Rm>(endpoints: Seq<Endpoint<Rm>>) -> bool {
    forall|i: int, j: int|
        0 <= i < j < endpoints.len() ==> !((#[trigger] endpoints[i]).label@.to_set() == (
        #[trigger] endpoints[j]).label@.to_set() && endpoints[i].key == endpoints[j].key)
}

/// What a controller with the secret `token` answers to a connect message,
/// `None` standing for one that could not be read. The first thing wrong
/// decides: a message that cannot be read or that comes from an incompatible
/// version is answered with the controller's own version, a wrong token with
/// `ErrToken`. A client that passes is admitted under the identifier
/// `fresh`.
pub open spec fn ack_of(request: Option<ConnectMessage>, token: Seq<char>, fresh: EndpointID)
    -> ConnectMessageAck {
    match request {
        None => ConnectMessageAck::ErrVersion(crate::version::own_version_value()),
        Some(request) => if !compatible_triples(request.version@, own_version()) {
            ConnectMessageAck::ErrVersion(crate::version::own_version_value())
        } else if request.token@ != token {
            ConnectMessageAck::ErrToken
        } else {
            ConnectMessageAck::Admitted(fresh)
        },
    }
}

/// The connect message behind a reference, if there is one.
pub open spec fn request_of(request: Option<&ConnectMessage>) -> Option<ConnectMessage> {
    match request {
        Some(r) => Some(*r),
        None => None,
    }
}

/// Whether a client enters the table at the end of its handshake: it does
/// where it was admitted, the answer has reached it, and no endpoint with the
/// same tags and the same transport is connected already.
pub open spec fn is_admitted<Rm>(
    endpoints: Seq<Endpoint<Rm>>,
    ack: ConnectMessageAck,
    label: Seq<Seq<char>>,
    key: u64,
    ack_delivered: bool,
) -> bool {
    ack is Admitted && ack_delivered && !is_connected(endpoints, label, key)
}

impl<Rm, H, R> BusController<Rm, H, R> {
    /// The endpoints that are connected, in the order in which they were
    /// admitted.
    pub closed spec fn endpoints_view(&self) -> Seq<Endpoint<Rm>> {
        self.endpoints@
    }

    /// The messages that wait for a recipient, oldest first.
    pub closed spec fn buffer_view(&self) -> Seq<Buffered<H, R>> {
        self.message_buffer@
    }

    /// The tags of the controller's own endpoint.
    pub closed spec fn label_view(&self) -> Seq<Seq<char>> {
        self.label@
    }

    /// The secret that a client must show.
    pub closed spec fn token_view(&self) -> Seq<char> {
        self.token@
    }

    /// When the endpoints were last probed, in nanoseconds.
    pub closed spec fn last_probe(&self) -> nat {
        self.last_detect_reachable@
    }

    /// The identifier of the controller's own endpoint.
    pub closed spec fn id_view(&self) -> EndpointID {
        self.endpoint_id
    }

    /// A controller with no endpoints and no waiting messages, started at
    /// `now`.
    pub fn new(endpoint_id: EndpointID, label: Label, token: String, now: TimeSpan) -> (c: Self)
        ensures
            c.id_view() == endpoint_id,
            c.label_view() == label@,
            c.token_view() == token@,
            c.endpoints_view().len() == 0,
            c.buffer_view().len() == 0,
            c.last_probe() == now@,
    {
        BusController {
            label,
            token,
            endpoint_id,
            endpoints: Vec::new(),
            message_buffer: Vec::new(),
            last_detect_reachable: now,
        }
    }

    /// The connected endpoints.
    pub fn endpoints(&self) -> (endpoints: &Vec<Endpoint<Rm>>)
        ensures
            endpoints@ == self.endpoints_view(),
    {
        &self.endpoints
    }

    /// The tags of the controller's own endpoint.
    pub fn label(&self) -> (label: &Label)
        ensures
            label@ == self.label_view(),
    {
        &self.label
    }

    /// The answer to a connect message, under the identifier `fresh` where
    /// the client is admitted.
    pub fn ack_for(&self, request: Option<&ConnectMessage>, fresh: EndpointID) -> (ack:
        ConnectMessageAck)
        ensures
            ack == ack_of(request_of(request), self.token_view(), fresh),
    {
        match request {
            None => ConnectMessageAck::ErrVersion(version()),
            Some(request) => {
                if !request.version.compatible(version()) {
                    ConnectMessageAck::ErrVersion(version())
                } else if !same_text(request.token.as_str(), self.token.as_str()) {
                    ConnectMessageAck::ErrToken
                } else {
                    ConnectMessageAck::Admitted(fresh)
                }
            },
        }
    }

    /// The answer to a connect message; `None` stands for a message that
    /// could not be read. A client that is admitted gets a new random
    /// identifier.
    pub fn connect_ack(&self, request: Option<&ConnectMessage>) -> (ack: ConnectMessageAck)
        ensures
            exists|fresh: EndpointID|
                #[trigger] is_random_id(fresh@) && ack == ack_of(
                    request_of(request),
                    self.token_view(),
                    fresh,
                ),
    {
        let fresh = EndpointID::new();
        self.ack_for(request, fresh)
    }

    /// Whether an endpoint with the tags of `label` and the transport `key`
    /// is connected.
    pub fn connected(&self, label: &Label, key: u64) -> (found: bool)
        ensures
            found == is_connected(self.endpoints_view(), label@, key),
    {
        let mut i: usize = 0;
        while i < self.endpoints.len()
            invariant
                i <= self.endpoints@.len(),
                forall|j: int|
                    0 <= j < i ==> !((#[trigger] self.endpoints@[j]).label@.to_set()
                        == label@.to_set() && self.endpoints@[j].key == key),
            decreases self.endpoints@.len() - i,
        {
            if self.endpoints[i].key == key && self.endpoints[i].label == *label {
                return true;
            }
            i += 1;
        }
        false
    }

    /// Ends a handshake. The client enters the table, at its end, where it
    /// was admitted, the answer reached it, and no endpoint with the same
    /// tags and transport is there already. Otherwise the table stays as it
    /// is and `remote` is given up.
    pub fn insert_endpoint(
        &mut self,
        ack: ConnectMessageAck,
        label: Label,
        remote: Rm,
        key: u64,
        ack_delivered: bool,
    ) -> (connected: bool)
        ensures
            connected == is_admitted(old(self).endpoints_view(), ack, label@, key, ack_delivered),
            connected ==> (ack matches ConnectMessageAck::Admitted(id) && final(
                self).endpoints_view() == old(self).endpoints_view().push(
                (Endpoint { id, label, remote, key }),
            )),
            !connected ==> final(self).endpoints_view() == old(self).endpoints_view(),
            no_endpoint_twice(old(self).endpoints_view()) ==> no_endpoint_twice(
                final(self).endpoints_view(),
            ),
            final(self).buffer_view() == old(self).buffer_view(),
            final(self).label_view() == old(self).label_view(),
            final(self).token_view() == old(self).token_view(),
            final(self).last_probe() == old(self).last_probe(),
            final(self).id_view() == old(self).id_view(),
    {
        let id = match ack {
            ConnectMessageAck::Admitted(id) => id,
            _ => {
                return false;
            },
        };
        if !ack_delivered {
            return false;
        }
        if self.connected(&label, key) {
            return false;
        }
        self.endpoints.push(Endpoint { id, label, remote, key });
        true
    }
}

/// One course of a handshake over the connect message `msg`, for a
/// controller whose table is `before`.
///
/// `wrap` made of the last handle of the message the transport `remote` to
/// the client, with the raw value `key`; `decode` read `request` from the
/// payload; the answer that `ack_of` tells, under the identifier `fresh`
/// where the client is admitted, was sent with `answer`, and `delivered`
/// tells whether it got through. The client enters the table as
/// `is_admitted` tells.
pub open spec fn handshake_went<
    Rm,
    H,
    R,
    Wrap: Fn(H) -> (Rm, u64),
    Dec: Fn(&[u8]) -> Option<ConnectMessage>,
    Ans: Fn(&Rm, &Selector, ConnectMessageAck) -> bool,
>(
    before: Seq<Endpoint<Rm>>,
    token: Seq<char>,
    msg: EncodedMessage<H, R>,
    wrap: Wrap,
    decode: Dec,
    answer: Ans,
    after: Seq<Endpoint<Rm>>,
    connected: bool,
    remote: Rm,
    key: u64,
    payload: &[u8],
    request: Option<ConnectMessage>,
    fresh: EndpointID,
    selector: &Selector,
    delivered: bool,
) -> bool {
    let ack = ack_of(request, token, fresh);
    &&& msg.objects_view().len() > 0
    &&& call_ensures(wrap, (msg.objects_view().last(),), (remote, key))
    &&& payload@ == msg.payload_view()
    &&& call_ensures(decode, (payload,), request)
    &&& is_random_id(fresh@)
    &&& selector@ == msg.selector_view()
    &&& call_ensures(answer, (&remote, selector, ack), delivered)
    &&& match request {
        Some(request) => {
            &&& connected == is_admitted(before, ack, request.label@, key, delivered)
            &&& after == if connected {
                before.push(Endpoint { id: fresh, label: request.label, remote, key })
            } else {
                before
            }
        },
        None => !connected && after == before,
    }
}

/// Whether a handshake over the connect message `msg` with a controller
/// whose table is `before` can end with the table `after`, and with
/// `connected` telling whether the client has entered it. A message without
/// a handle is passed over.
pub open spec fn is_handshake<
    Rm,
    H,
    R,
    Wrap: Fn(H) -> (Rm, u64),
    Dec: Fn(&[u8]) -> Option<ConnectMessage>,
    Ans: Fn(&Rm, &Selector, ConnectMessageAck) -> bool,
>(
    before: Seq<Endpoint<Rm>>,
    token: Seq<char>,
    msg: EncodedMessage<H, R>,
    wrap: Wrap,
    decode: Dec,
    answer: Ans,
    after: Seq<Endpoint<Rm>>,
    connected: bool,
) -> bool {
    if msg.objects_view().len() == 0 {
        !connected && after == before
    } else {
        exists|
            remote: Rm,
            key: u64,
            payload: &[u8],
            request: Option<ConnectMessage>,
            fresh: EndpointID,
            selector: &Selector,
            delivered: bool,
        | #[trigger]
            handshake_went(
                before,
                token,
                msg,
                wrap,
                decode,
                answer,
                after,
                connected,
                remote,
                key,
                payload,
                request,
                fresh,
                selector,
                delivered,
            )
    }
}

/// How an attempt to forward a message to an endpoint ended.
#[derive(Debug, Copy, Clone, PartialEq, Eq, Structural)]
pub enum SendOutcome {
    /// The endpoint has the message.
    Delivered,
    /// The endpoint has gone.
    Disconnected,
    /// The message did not get through, for another reason.
    Failed,
}

/// What the controller does next with the message it routes.
#[derive(Debug, Copy, Clone, PartialEq, Eq, Structural)]
pub enum RouteStep {
    /// Forward the message to the endpoint at this place of the table, and
    /// report with `route_sent` how that ended.
    Forward(usize),
    /// Hand the message to the controller's own endpoint, and report with
    /// `route_local` whether it took it.
    Local,
    /// Nothing more is to be done with the message.
    Finished,
}

/// Where a pass over the table stands.
#[derive(Debug, Copy, Clone, PartialEq, Eq, Structural)]
pub enum RouteStage {
    /// Looking for the next endpoint.
    Scanning,
    /// Waiting to hear how forwarding to the endpoint at `next` ended.
    Forwarding,
    /// Waiting to hear whether the controller's own endpoint took the
    /// message.
    Local,
    /// The pass is over.
    Finished,
}

/// One pass of a message over the table of endpoints.
#[derive(Debug, Copy, Clone, PartialEq, Eq, Structural)]
pub struct RoutePass {
    /// The place in the table at which the pass stands.
    pub next: usize,
    /// Whether an endpoint has taken the message.
    pub routed: bool,
    pub stage: RouteStage,
    /// Whether the message is left over. It is told when the pass is over.
    pub remain: bool,
}

/// The place of the first endpoint from `from` on whose label satisfies
/// `op`; the length of the table where there is none.
pub open spec fn next_match<Rm>(endpoints: Seq<Endpoint<Rm>>, op: crate::label::OpTree, from: int)
    -> int
    decreases endpoints.len() - from,
{
    if from < 0 || from >= endpoints.len() {
        endpoints.len() as int
    } else if op.holds(endpoints[from].label@) {
        from
    } else {
        next_match(endpoints, op, from + 1)
    }
}

/// Whether a pass that has got as far as `routed` says goes on looking for
/// endpoints: a unicast message that has been taken goes to no other.
pub open spec fn goes_on(mode: SelectorMode, routed: bool) -> bool {
    !(routed && mode == SelectorMode::Unicast)
}

/// Whether the controller's own endpoint is offered the message once the
/// table is done: it is where its label satisfies the predicate, unless the
/// message is unicast and taken.
pub open spec fn offers_local(
    own_label: Seq<Seq<char>>,
    op: crate::label::OpTree,
    mode: SelectorMode,
    routed: bool,
) -> bool {
    (!routed || mode == SelectorMode::Multicast) && op.holds(own_label)
}

/// The step that a scanning pass takes, and the pass after it.
pub open spec fn scan<Rm>(
    endpoints: Seq<Endpoint<Rm>>,
    own_label: Seq<Seq<char>>,
    op: crate::label::OpTree,
    mode: SelectorMode,
    pass: RoutePass,
) -> (RouteStep, RoutePass) {
    let found = next_match(endpoints, op, pass.next as int);
    if goes_on(mode, pass.routed) && found < endpoints.len() {
        (
            RouteStep::Forward(found as usize),
            RoutePass { next: found as usize, stage: RouteStage::Forwarding, ..pass },
        )
    } else if offers_local(own_label, op, mode, pass.routed) {
        (RouteStep::Local, RoutePass { stage: RouteStage::Local, ..pass })
    } else {
        (
            RouteStep::Finished,
            RoutePass { stage: RouteStage::Finished, remain: !pass.routed, ..pass },
        )
    }
}

/// The table after an attempt to forward to the endpoint at `at`: an
/// endpoint that has gone leaves the table, and the others keep their order.
pub open spec fn after_send<Rm>(endpoints: Seq<Endpoint<Rm>>, at: int, outcome: SendOutcome)
    -> Seq<Endpoint<Rm>> {
    if outcome == SendOutcome::Disconnected {
        endpoints.remove(at)
    } else {
        endpoints
    }
}

/// The pass after an attempt to forward to the endpoint at `pass.next`.
pub open spec fn pass_after_send(pass: RoutePass, outcome: SendOutcome) -> RoutePass {
    RoutePass {
        next: if outcome == SendOutcome::Disconnected {
            pass.next
        } else {
            (pass.next + 1) as usize
        },
        routed: pass.routed || outcome == SendOutcome::Delivered,
        stage: RouteStage::Scanning,
        remain: pass.remain,
    }
}

impl RoutePass {
    /// A pass that starts at the first endpoint.
    pub fn new() -> (pass: RoutePass)
        ensures
            pass == (RoutePass {
                next: 0,
                routed: false,
                stage: RouteStage::Scanning,
                remain: false,
            }),
    {
        RoutePass { next: 0, routed: false, stage: RouteStage::Scanning, remain: false }
    }

    /// Tells the pass whether the controller's own endpoint took the
    /// message, which ends the pass. A message that nobody took is left
    /// over. Outside the stage `Local` nothing changes.
    pub fn route_local(&mut self, delivered: bool)
        ensures
            old(self).stage == RouteStage::Local ==> *final(self) == (RoutePass {
                stage: RouteStage::Finished,
                remain: !delivered && !old(self).routed,
                ..*old(self)
            }),
            old(self).stage != RouteStage::Local ==> *final(self) == *old(self),
    {
        if self.stage == RouteStage::Local {
            self.remain = !delivered && !self.routed;
            self.stage = RouteStage::Finished;
        }
    }
}

impl<Rm, H, R> BusController<Rm, H, R> {
    /// The next step of a pass that routes a message with `selector`. The
    /// endpoints are tried in the order of the table, each whose label
    /// satisfies the predicate, until the table is done or a unicast message
    /// is taken. Then the controller's own endpoint is offered the message.
    /// A pass that is not scanning is over.
    pub fn route_next(&self, pass: &mut RoutePass, selector: &Selector) -> (step: RouteStep)
        ensures
            old(pass).stage == RouteStage::Scanning ==> (step, *final(pass)) == scan(
                self.endpoints_view(),
                self.label_view(),
                selector@.label_op,
                selector@.mode,
                *old(pass),
            ),
            old(pass).stage != RouteStage::Scanning ==> step == RouteStep::Finished && *final(pass)
                == *old(pass),
            step matches RouteStep::Forward(at) ==> at < self.endpoints_view().len()
                && selector@.label_op.holds(self.endpoints_view()[at as int].label@),
    {
        if pass.stage != RouteStage::Scanning {
            return RouteStep::Finished;
        }
        let ghost start = pass.next as int;
        let ghost op = selector@.label_op;
        if !(pass.routed && selector.mode() == SelectorMode::Unicast) {
            let mut i: usize = pass.next;
            while i < self.endpoints.len()
                invariant
                    *pass == *old(pass),
                    pass.stage == RouteStage::Scanning,
                    goes_on(selector@.mode, pass.routed),
                    pass.next <= i,
                    op == selector@.label_op,
                    start == pass.next,
                    next_match(self.endpoints@, op, start) == next_match(
                        self.endpoints@,
                        op,
                        i as int,
                    ),
                decreases self.endpoints@.len() - i,
            {
                if selector.label_op().validate(&self.endpoints[i].label) {
                    pass.next = i;
                    pass.stage = RouteStage::Forwarding;
                    return RouteStep::Forward(i);
                }
                i += 1;
            }
        }
        if (!pass.routed || selector.mode() == SelectorMode::Multicast)
            && selector.label_op().validate(&self.label) {
            pass.stage = RouteStage::Local;
            RouteStep::Local
        } else {
            pass.stage = RouteStage::Finished;
            pass.remain = !pass.routed;
            RouteStep::Finished
        }
    }

    /// Tells the pass how forwarding to the endpoint at `pass.next` ended.
    /// An endpoint that has gone leaves the table at once. Outside the
    /// stage `Forwarding`, or with a place beyond the table, nothing
    /// changes.
    pub fn route_sent(&mut self, pass: &mut RoutePass, outcome: SendOutcome)
        ensures
            old(pass).stage == RouteStage::Forwarding && old(pass).next < old(
                self).endpoints_view().len() ==> *final(pass) == pass_after_send(
                *old(pass),
                outcome,
            ) && final(self).endpoints_view() == after_send(
                old(self).endpoints_view(),
                old(pass).next as int,
                outcome,
            ),
            !(old(pass).stage == RouteStage::Forwarding && old(pass).next < old(
                self).endpoints_view().len()) ==> *final(pass) == *old(pass) && final(
                self).endpoints_view() == old(self).endpoints_view(),
            no_endpoint_twice(old(self).endpoints_view()) ==> no_endpoint_twice(
                final(self).endpoints_view(),
            ),
            final(self).buffer_view() == old(self).buffer_view(),
            final(self).label_view() == old(self).label_view(),
            final(self).token_view() == old(self).token_view(),
            final(self).last_probe() == old(self).last_probe(),
            final(self).id_view() == old(self).id_view(),
    {
        if pass.stage != RouteStage::Forwarding || pass.next >= self.endpoints.len() {
            return;
        }
        match outcome {
            SendOutcome::Delivered => {
                pass.routed = true;
                pass.next = pass.next + 1;
            },
            SendOutcome::Disconnected => {
                let _ = self.endpoints.remove(pass.next);
            },
            SendOutcome::Failed => {
                pass.next = pass.next + 1;
            },
        }
        pass.stage = RouteStage::Scanning;
    }
}

/// The table and the pass after the attempts to forward whose outcomes
/// `outcomes` tells, in their order, from the start of a pass on.
pub open spec fn after_attempts<Rm>(
    endpoints: Seq<Endpoint<Rm>>,
    own_label: Seq<Seq<char>>,
    op: crate::label::OpTree,
    mode: SelectorMode,
    outcomes: Seq<SendOutcome>,
) -> (Seq<Endpoint<Rm>>, RoutePass)
    decreases outcomes.len(),
{
    if outcomes.len() == 0 {
        (
            endpoints,
            RoutePass { next: 0, routed: false, stage: RouteStage::Scanning, remain: false },
        )
    } else {
        let (table, pass) = after_attempts(endpoints, own_label, op, mode, outcomes.drop_last());
        let (step, waiting) = scan(table, own_label, op, mode, pass);
        match step {
            RouteStep::Forward(at) => (
                after_send(table, at as int, outcomes.last()),
                pass_after_send(waiting, outcomes.last()),
            ),
            _ => (table, pass),
        }
    }
}

/// Whether the `k`-th of the attempts whose outcomes `outcomes` tells was
/// due, and its outcome `allowed` for the endpoint it went to.
pub open spec fn attempt_fits<Rm>(
    endpoints: Seq<Endpoint<Rm>>,
    own_label: Seq<Seq<char>>,
    op: crate::label::OpTree,
    mode: SelectorMode,
    outcomes: Seq<SendOutcome>,
    allowed: spec_fn(Endpoint<Rm>, SendOutcome) -> bool,
    k: int,
) -> bool {
    let state = after_attempts(endpoints, own_label, op, mode, outcomes.take(k));
    scan(state.0, own_label, op, mode, state.1).0 matches RouteStep::Forward(at) && at
        < state.0.len() && allowed(state.0[at as int], outcomes[k])
}

/// Whether `outcomes` can be the outcomes of the attempts of one pass:
/// each of them was due, and `allowed` for the endpoint it went to.
pub open spec fn attempts_fit<Rm>(
    endpoints: Seq<Endpoint<Rm>>,
    own_label: Seq<Seq<char>>,
    op: crate::label::OpTree,
    mode: SelectorMode,
    outcomes: Seq<SendOutcome>,
    allowed: spec_fn(Endpoint<Rm>, SendOutcome) -> bool,
) -> bool {
    forall|k: int|
        0 <= k < outcomes.len() ==> #[trigger] attempt_fits(
            endpoints,
            own_label,
            op,
            mode,
            outcomes,
            allowed,
            k,
        )
}

/// One more attempt that was due and whose outcome is allowed extends the
/// outcomes of a pass.
proof fn lemma_one_more_attempt<Rm>(
    endpoints: Seq<Endpoint<Rm>>,
    own_label: Seq<Seq<char>>,
    op: crate::label::OpTree,
    mode: SelectorMode,
    done: Seq<SendOutcome>,
    outcome: SendOutcome,
    allowed: spec_fn(Endpoint<Rm>, SendOutcome) -> bool,
)
    requires
        attempts_fit(endpoints, own_label, op, mode, done, allowed),
        ({
            let (table, pass) = after_attempts(endpoints, own_label, op, mode, done);
            scan(table, own_label, op, mode, pass).0 matches RouteStep::Forward(at) && at
                < table.len() && allowed(table[at as int], outcome)
        }),
    ensures
        attempts_fit(endpoints, own_label, op, mode, done.push(outcome), allowed),
        ({
            let (table, pass) = after_attempts(endpoints, own_label, op, mode, done);
            let (step, waiting) = scan(table, own_label, op, mode, pass);
            step matches RouteStep::Forward(at) && after_attempts(
                endpoints,
                own_label,
                op,
                mode,
                done.push(outcome),
            ) == (after_send(table, at as int, outcome), pass_after_send(waiting, outcome))
        }),
{
    let longer = done.push(outcome);
    assert(longer.drop_last() =~= done);
    assert forall|k: int| 0 <= k < longer.len() implies #[trigger] attempt_fits(
        endpoints,
        own_label,
        op,
        mode,
        longer,
        allowed,
        k,
    ) by {
        if k < done.len() {
            assert(attempt_fits(endpoints, own_label, op, mode, done, allowed, k));
            assert(longer.take(k) =~= done.take(k));
        }
    }
}

/// What `send` may report of forwarding `msg` to an endpoint.
pub open spec fn may_report<Rm, H, R, S: Fn(&EncodedMessage<H, R>, &Rm) -> SendOutcome>(
    send: S,
    msg: EncodedMessage<H, R>,
) -> spec_fn(Endpoint<Rm>, SendOutcome) -> bool {
    |endpoint: Endpoint<Rm>, outcome: SendOutcome|
        call_ensures(send, (&msg, &endpoint.remote), outcome)
}

/// Whether routing `msg` over the table `before`, with the attempts to
/// forward ending as `outcomes` tells, leaves the table `after` and the
/// message `remain` over.
///
/// Every outcome is one that `send` may report for the endpoint the attempt
/// went to. When no attempt is due any more, the controller's own endpoint
/// is offered the message where the pass says so, and `deliver` tells
/// whether it took it: a message that it gives back is left over unless an
/// endpoint has taken it before. Where the own endpoint is not asked, the
/// message is left over if nobody took it.
pub open spec fn is_pass<
    Rm,
    H,
    R,
    S: Fn(&EncodedMessage<H, R>, &Rm) -> SendOutcome,
    D: Fn(EncodedMessage<H, R>) -> Option<EncodedMessage<H, R>>,
>(
    before: Seq<Endpoint<Rm>>,
    own_label: Seq<Seq<char>>,
    msg: EncodedMessage<H, R>,
    send: S,
    deliver: D,
    outcomes: Seq<SendOutcome>,
    after: Seq<Endpoint<Rm>>,
    remain: Option<EncodedMessage<H, R>>,
) -> bool {
    let op = msg.selector_view().label_op;
    let mode = msg.selector_view().mode;
    let (table, pass) = after_attempts(before, own_label, op, mode, outcomes);
    &&& attempts_fit(before, own_label, op, mode, outcomes, may_report(send, msg))
    &&& after == table
    &&& match scan(table, own_label, op, mode, pass).0 {
        RouteStep::Forward(_) => false,
        RouteStep::Local => exists|back: Option<EncodedMessage<H, R>>| #[trigger]
            call_ensures(deliver, (msg,), back) && remain == if pass.routed {
                None
            } else {
                back
            },
        RouteStep::Finished => remain == if pass.routed {
            None
        } else {
            Some(msg)
        },
    }
}

impl<Rm, H, R> BusController<Rm, H, R> {
    /// Routes a message: forwards it with `send` to the endpoints whose
    /// label satisfies its predicate, in the order of the table, until the
    /// table is done or a unicast message is taken; drops the endpoints that
    /// have gone; and then offers it to the controller's own endpoint with
    /// `deliver`, which gives the message back where that one does not take
    /// it. A message that nobody took is handed back.
    #[verifier::spinoff_prover]
    pub fn handle_message<
        S: Fn(&EncodedMessage<H, R>, &Rm) -> SendOutcome,
        D: Fn(EncodedMessage<H, R>) -> Option<EncodedMessage<H, R>>,
    >(&mut self, msg: EncodedMessage<H, R>, send: &S, deliver: &D) -> (remain: Option<
        EncodedMessage<H, R>,
    >)
        requires
            forall|m: &EncodedMessage<H, R>, r: &Rm| call_requires(*send, (m, r)),
            forall|m: EncodedMessage<H, R>| call_requires(*deliver, (m,)),
        ensures
            exists|outcomes: Seq<SendOutcome>| #[trigger]
                is_pass(
                    old(self).endpoints_view(),
                    old(self).label_view(),
                    msg,
                    *send,
                    *deliver,
                    outcomes,
                    final(self).endpoints_view(),
                    remain,
                ),
            no_endpoint_twice(old(self).endpoints_view()) ==> no_endpoint_twice(
                final(self).endpoints_view(),
            ),
            final(self).buffer_view() == old(self).buffer_view(),
            final(self).label_view() == old(self).label_view(),
            final(self).token_view() == old(self).token_view(),
            final(self).last_probe() == old(self).last_probe(),
            final(self).id_view() == old(self).id_view(),
    {
        let ghost op = msg.selector_view().label_op;
        let ghost mode = msg.selector_view().mode;
        let ghost start = self.endpoints@;
        let ghost own = self.label@;
        let ghost allowed = may_report(*send, msg);
        let ghost mut done: Seq<SendOutcome> = Seq::empty();
        let mut pass = RoutePass::new();
        loop
            invariant
                forall|m: &EncodedMessage<H, R>, r: &Rm| call_requires(*send, (m, r)),
                forall|m: EncodedMessage<H, R>| call_requires(*deliver, (m,)),
                op == msg.selector_view().label_op,
                mode == msg.selector_view().mode,
                own == self.label@,
                allowed == may_report(*send, msg),
                pass.stage == RouteStage::Scanning,
                pass.next <= self.endpoints@.len(),
                (self.endpoints@, pass) == after_attempts(start, own, op, mode, done),
                attempts_fit(start, own, op, mode, done, allowed),
                no_endpoint_twice(start) ==> no_endpoint_twice(self.endpoints@),
                self.message_buffer@ == old(self).message_buffer@,
                self.token@ == old(self).token@,
                self.last_detect_reachable@ == old(self).last_detect_reachable@,
                self.endpoint_id == old(self).endpoint_id,
                self.label@ == old(self).label@,
                start == old(self).endpoints@,
            decreases self.endpoints@.len() - pass.next,
        {
            proof {
                assert(self.endpoints@.len() == self.endpoints.len());
                lemma_forward_is_match(self.endpoints@, op, pass.next as int);
            }
            match self.route_next(&mut pass, msg.selector()) {
                RouteStep::Forward(at) => {
                    let outcome = send(&msg, &self.endpoints[at].remote);
                    self.route_sent(&mut pass, outcome);
                    proof {
                        lemma_one_more_attempt(start, own, op, mode, done, outcome, allowed);
                        done = done.push(outcome);
                    }
                },
                RouteStep::Local => {
                    let back = deliver(msg);
                    let remain = match back {
                        Some(m) => if pass.routed {
                            None
                        } else {
                            Some(m)
                        },
                        None => None,
                    };
                    proof {
                        assert(is_pass(
                            old(self).endpoints_view(),
                            old(self).label_view(),
                            msg,
                            *send,
                            *deliver,
                            done,
                            self.endpoints_view(),
                            remain,
                        ));
                    }
                    return remain;
                },
                RouteStep::Finished => {
                    let remain = if pass.remain {
                        Some(msg)
                    } else {
                        None
                    };
                    proof {
                        assert(is_pass(
                            old(self).endpoints_view(),
                            old(self).label_view(),
                            msg,
                            *send,
                            *deliver,
                            done,
                            self.endpoints_view(),
                            remain,
                        ));
                    }
                    return remain;
                },
            }
        }
    }
}

/// What is kept of a waiting message after it was routed again at `now`:
/// the message, if it was left over and its time is not over.
pub open spec fn kept_of<H, R>(expire: u128, remain: Option<EncodedMessage<H, R>>, now: nat)
    -> Seq<Buffered<H, R>> {
    match remain {
        Some(message) => if expire > now {
            seq![Buffered { expire, message }]
        } else {
            Seq::empty()
        },
        None => Seq::empty(),
    }
}

/// Whether `kept` is what waits after a message was routed again: the
/// messages `earlier` that were kept before, and the message itself where
/// it stays.
pub open spec fn stays<H, R>(
    kept: Seq<Buffered<H, R>>,
    earlier: Seq<Buffered<H, R>>,
    expire: u128,
    remain: Option<EncodedMessage<H, R>>,
    now: nat,
) -> bool {
    kept == earlier + kept_of(expire, remain, now)
}

/// Whether routing the messages `waiting` again, oldest first, over the
/// table `before` can leave the table `after` and the messages `kept`
/// waiting. Each message makes one pass over the table as the messages
/// before it have left it, and stays where it is left over and its time is
/// not over at `now`.
pub open spec fn is_replay<
    Rm,
    H,
    R,
    S: Fn(&EncodedMessage<H, R>, &Rm) -> SendOutcome,
    D: Fn(EncodedMessage<H, R>) -> Option<EncodedMessage<H, R>>,
>(
    before: Seq<Endpoint<Rm>>,
    own_label: Seq<Seq<char>>,
    waiting: Seq<Buffered<H, R>>,
    now: nat,
    send: S,
    deliver: D,
    after: Seq<Endpoint<Rm>>,
    kept: Seq<Buffered<H, R>>,
) -> bool
    decreases waiting.len(),
{
    if waiting.len() == 0 {
        after == before && kept.len() == 0
    } else {
        exists|
            table: Seq<Endpoint<Rm>>,
            earlier: Seq<Buffered<H, R>>,
            outcomes: Seq<SendOutcome>,
            remain: Option<EncodedMessage<H, R>>,
        |
            {
                &&& is_replay(
                    before,
                    own_label,
                    waiting.drop_last(),
                    now,
                    send,
                    deliver,
                    table,
                    earlier,
                )
                &&& #[trigger] is_pass(
                    table,
                    own_label,
                    waiting.last().message,
                    send,
                    deliver,
                    outcomes,
                    after,
                    remain,
                )
                &&& #[trigger] stays(kept, earlier, waiting.last().expire, remain, now)
            }
    }
}

/// One more message that made its pass extends a replay.
proof fn lemma_replay_one_more<
    Rm,
    H,
    R,
    S: Fn(&EncodedMessage<H, R>, &Rm) -> SendOutcome,
    D: Fn(EncodedMessage<H, R>) -> Option<EncodedMessage<H, R>>,
>(
    before: Seq<Endpoint<Rm>>,
    own_label: Seq<Seq<char>>,
    waiting: Seq<Buffered<H, R>>,
    now: nat,
    send: S,
    deliver: D,
    table: Seq<Endpoint<Rm>>,
    earlier: Seq<Buffered<H, R>>,
    outcomes: Seq<SendOutcome>,
    remain: Option<EncodedMessage<H, R>>,
    after: Seq<Endpoint<Rm>>,
    kept: Seq<Buffered<H, R>>,
)
    requires
        waiting.len() > 0,
        is_replay(before, own_label, waiting.drop_last(), now, send, deliver, table, earlier),
        is_pass(table, own_label, waiting.last().message, send, deliver, outcomes, after, remain),
        kept == earlier + kept_of(waiting.last().expire, remain, now),
    ensures
        is_replay(before, own_label, waiting, now, send, deliver, after, kept),
{
    assert(stays(kept, earlier, waiting.last().expire, remain, now));
}

impl<Rm, H, R> BusController<Rm, H, R> {
    /// Routes the waiting messages again, oldest first, as is due when an
    /// endpoint has connected. A message that is taken leaves the buffer; one
    /// that is left over again stays, in its place among the others, unless
    /// its time is over at `now`.
    pub fn replay<
        S: Fn(&EncodedMessage<H, R>, &Rm) -> SendOutcome,
        D: Fn(EncodedMessage<H, R>) -> Option<EncodedMessage<H, R>>,
    >(&mut self, now: TimeSpan, send: &S, deliver: &D)
        requires
            forall|m: &EncodedMessage<H, R>, r: &Rm| call_requires(*send, (m, r)),
            forall|m: EncodedMessage<H, R>| call_requires(*deliver, (m,)),
        ensures
            is_replay(
                old(self).endpoints_view(),
                old(self).label_view(),
                old(self).buffer_view(),
                now@,
                *send,
                *deliver,
                final(self).endpoints_view(),
                final(self).buffer_view(),
            ),
            no_endpoint_twice(old(self).endpoints_view()) ==> no_endpoint_twice(
                final(self).endpoints_view(),
            ),
            final(self).label_view() == old(self).label_view(),
            final(self).token_view() == old(self).token_view(),
            final(self).last_probe() == old(self).last_probe(),
            final(self).id_view() == old(self).id_view(),
    {
        let ghost start = self.endpoints@;
        let ghost own = self.label@;
        let ghost all = self.message_buffer@;
        let mut rest = self.take_buffer();
        let mut turned: Vec<Buffered<H, R>> = Vec::new();
        assert(rest@ =~= all.take(rest@.len() as int));
        while rest.len() > 0
            invariant
                rest@.len() + turned@.len() == all.len(),
                rest@ == all.take(rest@.len() as int),
                forall|i: int|
                    0 <= i < turned@.len() ==> #[trigger] turned@[i] == all[all.len() - 1 - i],
            decreases rest@.len(),
        {
            let entry = rest.pop().unwrap();
            turned.push(entry);
        }
        let ghost mut done: int = 0;
        while turned.len() > 0
            invariant
                forall|m: &EncodedMessage<H, R>, r: &Rm| call_requires(*send, (m, r)),
                forall|m: EncodedMessage<H, R>| call_requires(*deliver, (m,)),
                0 <= done <= all.len(),
                done + turned@.len() == all.len(),
                forall|i: int|
                    0 <= i < turned@.len() ==> #[trigger] turned@[i] == all[all.len() - 1 - i],
                is_replay(
                    start,
                    own,
                    all.take(done),
                    now@,
                    *send,
                    *deliver,
                    self.endpoints@,
                    self.message_buffer@,
                ),
                own == self.label@,
                no_endpoint_twice(start) ==> no_endpoint_twice(self.endpoints@),
                self.label@ == old(self).label@,
                self.token@ == old(self).token@,
                self.last_detect_reachable@ == old(self).last_detect_reachable@,
                self.endpoint_id == old(self).endpoint_id,
            decreases turned@.len(),
        {
            let ghost table = self.endpoints@;
            let ghost earlier = self.message_buffer@;
            let entry = turned.pop().unwrap();
            let Buffered { expire, message } = entry;
            let remain = self.handle_message(message, send, deliver);
            let ghost left = remain;
            if let Some(message) = remain {
                let _ = self.rebuffer(Buffered { expire, message }, now);
            }
            proof {
                let longer = all.take(done + 1);
                assert(longer.drop_last() =~= all.take(done));
                assert(self.message_buffer@ =~= earlier + kept_of(expire, left, now@));
                let outcomes = choose|outcomes: Seq<SendOutcome>| #[trigger]
                    is_pass(table, own, message, *send, *deliver, outcomes, self.endpoints@, left);
                lemma_replay_one_more(
                    start,
                    own,
                    longer,
                    now@,
                    *send,
                    *deliver,
                    table,
                    earlier,
                    outcomes,
                    left,
                    self.endpoints@,
                    self.message_buffer@,
                );
                done = done + 1;
            }
        }
    }
}

/// A unicast message that an endpoint has taken is forwarded to no other,
/// nor handed to the controller's own endpoint: the pass is over.
pub proof fn lemma_unicast_goes_to_one<Rm>(
    endpoints: Seq<Endpoint<Rm>>,
    own_label: Seq<Seq<char>>,
    op: crate::label::OpTree,
    pass: RoutePass,
)
    requires
        pass.routed,
    ensures
        scan(endpoints, own_label, op, SelectorMode::Unicast, pass).0 == RouteStep::Finished,
        !scan(endpoints, own_label, op, SelectorMode::Unicast, pass).1.remain,
{
}

/// A message is forwarded only to endpoints whose label satisfies its
/// predicate, and no such endpoint between two steps is passed over.
pub proof fn lemma_forward_is_match<Rm>(
    endpoints: Seq<Endpoint<Rm>>,
    op: crate::label::OpTree,
    from: int,
)
    requires
        0 <= from <= endpoints.len(),
    ensures
        from <= next_match(endpoints, op, from) <= endpoints.len(),
        next_match(endpoints, op, from) < endpoints.len() ==> op.holds(
            endpoints[next_match(endpoints, op, from)].label@,
        ),
        forall|j: int|
            from <= j < next_match(endpoints, op, from) ==> !op.holds(
                (#[trigger] endpoints[j]).label@,
            ),
    decreases endpoints.len() - from,
{
    if from < endpoints.len() && !op.holds(endpoints[from].label@) {
        lemma_forward_is_match(endpoints, op, from + 1);
    }
}

/// A message that nobody takes is left over, and one that somebody has
/// taken is not: when a pass ends without the controller's own endpoint
/// being asked, what is left over is told by whether the message was
/// routed.
pub proof fn lemma_left_over<Rm>(
    endpoints: Seq<Endpoint<Rm>>,
    own_label: Seq<Seq<char>>,
    op: crate::label::OpTree,
    mode: SelectorMode,
    pass: RoutePass,
)
    requires
        scan(endpoints, own_label, op, mode, pass).0 == RouteStep::Finished,
    ensures
        scan(endpoints, own_label, op, mode, pass).1.remain == !pass.routed,
{
}

/// Whether the flags `dead` mark the item at place `i`. A place for which
/// there is no flag is not marked.
pub open spec fn marked(dead: Seq<bool>, i: int) -> bool {
    0 <= i < dead.len() && dead[i]
}

/// The items of `items` whose place the flags `dead` do not mark, in their
/// order.
pub open spec fn alive<T>(items: Seq<T>, dead: Seq<bool>) -> Seq<T>
    decreases items.len(),
{
    if items.len() == 0 {
        items
    } else if marked(dead, items.len() - 1) {
        alive(items.drop_last(), dead)
    } else {
        alive(items.drop_last(), dead).push(items.last())
    }
}

/// Every item that is left was there before, at a place that is not marked,
/// and items that are left stand in the order in which they stood.
pub proof fn lemma_alive_places<T>(items: Seq<T>, dead: Seq<bool>) -> (places: Seq<int>)
    ensures
        places.len() == alive(items, dead).len(),
        forall|k: int|
            0 <= k < places.len() ==> 0 <= #[trigger] places[k] < items.len() && !marked(
                dead,
                places[k],
            ) && alive(items, dead)[k] == items[places[k]],
        forall|k: int, l: int| 0 <= k < l < places.len() ==> places[k] < places[l],
    decreases items.len(),
{
    if items.len() == 0 {
        Seq::empty()
    } else {
        let init = lemma_alive_places(items.drop_last(), dead);
        if marked(dead, items.len() - 1) {
            init
        } else {
            init.push(items.len() - 1)
        }
    }
}

/// Taking endpoints out of a table in which no endpoint stands twice leaves
/// such a table.
pub proof fn lemma_alive_no_endpoint_twice<Rm>(endpoints: Seq<Endpoint<Rm>>, dead: Seq<bool>)
    requires
        no_endpoint_twice(endpoints),
    ensures
        no_endpoint_twice(alive(endpoints, dead)),
{
    let places = lemma_alive_places(endpoints, dead);
    let left = alive(endpoints, dead);
    assert forall|i: int, j: int| 0 <= i < j < left.len() implies !((
    #[trigger] left[i]).label@.to_set() == (#[trigger] left[j]).label@.to_set() && left[i].key
        == left[j].key) by {
        assert(places[i] < places[j]);
    }
}

/// Takes the marked items out of `items`.
fn remove_marked<T>(items: &mut Vec<T>, dead: &Vec<bool>)
    ensures
        final(items)@ == alive(old(items)@, dead@),
{
    let ghost before = items@;
    let mut i: usize = 0;
    let mut k: usize = 0;
    assert(before.len() == items.len());
    while i < items.len()
        invariant
            before.len() <= usize::MAX,
            i <= items@.len(),
            k == i + (before.len() - items@.len()),
            k <= before.len(),
            items@.take(i as int) == alive(before.take(k as int), dead@),
            items@.skip(i as int) == before.skip(k as int),
        decreases items@.len() - i,
    {
        let ghost current = items@;
        proof {
            assert(current[i as int] == current.skip(i as int)[0]);
            assert(before.take(k + 1).drop_last() =~= before.take(k as int));
            assert(before.skip(k + 1) =~= before.skip(k as int).skip(1));
        }
        if k < dead.len() && dead[k] {
            let _ = items.remove(i);
        } else {
            i += 1;
        }
        k += 1;
    }
    proof {
        assert(before.take(k as int) =~= before);
    }
}

/// Whether it is time to probe the endpoints: more than thirty seconds
/// after the last time.
pub open spec fn probe_is_due(last: nat, now: nat) -> bool {
    now - last > LIVENESS_INTERVAL_SECS as nat * 1_000_000_000
}

impl<Rm, H, R> BusController<Rm, H, R> {
    /// Whether messages wait for a recipient.
    pub fn has_buffered(&self) -> (waiting: bool)
        ensures
            waiting == (self.buffer_view().len() > 0),
    {
        self.message_buffer.len() > 0
    }

    /// Keeps a message that found no recipient, if it has a time to live:
    /// it goes to the end of the buffer, to be dropped after `now` plus that
    /// time. A message without a time to live is dropped at once.
    pub fn buffer(&mut self, now: TimeSpan, message: EncodedMessage<H, R>) -> (kept: bool)
        ensures
            kept == (message.selector_view().ttl != 0),
            kept ==> final(self).buffer_view() == old(self).buffer_view().push(
                (Buffered { expire: (now@ + message.selector_view().ttl) as u128, message }),
            ),
            !kept ==> final(self).buffer_view() == old(self).buffer_view(),
            final(self).endpoints_view() == old(self).endpoints_view(),
            final(self).label_view() == old(self).label_view(),
            final(self).token_view() == old(self).token_view(),
            final(self).last_probe() == old(self).last_probe(),
            final(self).id_view() == old(self).id_view(),
    {
        let ttl = message.selector().ttl();
        if ttl.is_zero() {
            return false;
        }
        let expire: u128 = now.as_nanos() + ttl.as_nanos();
        self.message_buffer.push(Buffered { expire, message });
        true
    }

    /// Takes the waiting messages out of the buffer, oldest first, to route
    /// them again after an endpoint has connected.
    pub fn take_buffer(&mut self) -> (waiting: Vec<Buffered<H, R>>)
        ensures
            waiting@ == old(self).buffer_view(),
            final(self).buffer_view().len() == 0,
            final(self).endpoints_view() == old(self).endpoints_view(),
            final(self).label_view() == old(self).label_view(),
            final(self).token_view() == old(self).token_view(),
            final(self).last_probe() == old(self).last_probe(),
            final(self).id_view() == old(self).id_view(),
    {
        let mut waiting: Vec<Buffered<H, R>> = Vec::new();
        core::mem::swap(&mut self.message_buffer, &mut waiting);
        waiting
    }

    /// Puts a message that was routed again and still found no recipient
    /// back at the end of the buffer, unless its time is over at `now`.
    pub fn rebuffer(&mut self, entry: Buffered<H, R>, now: TimeSpan) -> (kept: bool)
        ensures
            kept == (entry.expire > now@),
            kept ==> final(self).buffer_view() == old(self).buffer_view().push(entry),
            !kept ==> final(self).buffer_view() == old(self).buffer_view(),
            final(self).endpoints_view() == old(self).endpoints_view(),
            final(self).label_view() == old(self).label_view(),
            final(self).token_view() == old(self).token_view(),
            final(self).last_probe() == old(self).last_probe(),
            final(self).id_view() == old(self).id_view(),
    {
        if entry.expire > now.as_nanos() {
            self.message_buffer.push(entry);
            true
        } else {
            false
        }
    }

    /// Whether it is time to probe the endpoints.
    pub fn probe_due(&self, now: TimeSpan) -> (due: bool)
        ensures
            due == probe_is_due(self.last_probe(), now@),
    {
        let now = now.as_nanos();
        let last = self.last_detect_reachable.as_nanos();
        now > last && now - last > (LIVENESS_INTERVAL_SECS as u128) * 1_000_000_000
    }

    /// Drops the endpoints that a probe found dead, where it was time to
    /// probe: `dead` tells for each place of the table whether the transport
    /// of the endpoint there is dead. Before that time nothing changes.
    pub fn drop_dead(&mut self, now: TimeSpan, dead: &Vec<bool>)
        ensures
            probe_is_due(old(self).last_probe(), now@) ==> final(self).endpoints_view() == alive(
                old(self).endpoints_view(),
                dead@,
            ) && final(self).last_probe() == now@,
            !probe_is_due(old(self).last_probe(), now@) ==> final(self).endpoints_view() == old(
                self).endpoints_view() && final(self).last_probe() == old(self).last_probe(),
            no_endpoint_twice(old(self).endpoints_view()) ==> no_endpoint_twice(
                final(self).endpoints_view(),
            ),
            final(self).buffer_view() == old(self).buffer_view(),
            final(self).label_view() == old(self).label_view(),
            final(self).token_view() == old(self).token_view(),
            final(self).id_view() == old(self).id_view(),
    {
        if self.probe_due(now) {
            proof {
                if no_endpoint_twice(self.endpoints@) {
                    lemma_alive_no_endpoint_twice(self.endpoints@, dead@);
                }
            }
            remove_marked(&mut self.endpoints, dead);
            self.last_detect_reachable = now;
        }
    }
}

/// Whether `dead` tells for each endpoint what `is_dead` may say of its
/// transport.
pub open spec fn probes_fit<Rm, P: Fn(&Rm) -> bool>(
    endpoints: Seq<Endpoint<Rm>>,
    dead: Seq<bool>,
    is_dead: P,
) -> bool {
    &&& dead.len() == endpoints.len()
    &&& forall|i: int|
        0 <= i < endpoints.len() ==> call_ensures(
            is_dead,
            (&endpoints[i].remote,),
            #[trigger] dead[i],
        )
}

/// Whether a controller that last probed its endpoints at `last` and has
/// the table `before` can have the table `after` once it has looked after
/// them at `now`, and `probed` as the time of its last probe.
///
/// More than thirty seconds after the last probe every endpoint is probed
/// with `is_dead`, and those found dead leave the table. Before that nothing
/// is done.
pub open spec fn is_sweep<Rm, P: Fn(&Rm) -> bool>(
    before: Seq<Endpoint<Rm>>,
    last: nat,
    now: nat,
    is_dead: P,
    after: Seq<Endpoint<Rm>>,
    probed: nat,
) -> bool {
    if probe_is_due(last, now) {
        probed == now && exists|dead: Seq<bool>| #[trigger]
            probes_fit(before, dead, is_dead) && after == alive(before, dead)
    } else {
        probed == last && after == before
    }
}

/// What is put into the buffer of waiting messages when a message has made
/// its pass at `now`: the message, where it is left over and has a time to
/// live.
pub open spec fn waits_of<H, R>(remain: Option<EncodedMessage<H, R>>, now: nat) -> Seq<
    Buffered<H, R>,
> {
    match remain {
        Some(message) => if message.selector_view().ttl != 0 {
            seq![Buffered { expire: (now + message.selector_view().ttl) as u128, message }]
        } else {
            Seq::empty()
        },
        None => Seq::empty(),
    }
}

/// Whether a controller with the table `before` and the messages `waiting`
/// in its buffer can, by taking the message `msg` at `now`, come to the table
/// `after` and the buffer `kept`.
///
/// A connect message is answered; where a client has connected by it, the
/// waiting messages are routed again. Any other message is routed, and
/// waits where it is left over and has a time to live.
pub open spec fn is_dispatch<
    Rm,
    H,
    R,
    Wrap: Fn(H) -> (Rm, u64),
    Dec: Fn(&[u8]) -> Option<ConnectMessage>,
    Ans: Fn(&Rm, &Selector, ConnectMessageAck) -> bool,
    S: Fn(&EncodedMessage<H, R>, &Rm) -> SendOutcome,
    D: Fn(EncodedMessage<H, R>) -> Option<EncodedMessage<H, R>>,
>(
    before: Seq<Endpoint<Rm>>,
    waiting: Seq<Buffered<H, R>>,
    own_label: Seq<Seq<char>>,
    token: Seq<char>,
    msg: EncodedMessage<H, R>,
    now: nat,
    wrap: Wrap,
    decode: Dec,
    answer: Ans,
    send: S,
    deliver: D,
    after: Seq<Endpoint<Rm>>,
    kept: Seq<Buffered<H, R>>,
) -> bool {
    if crate::message::kind_of(msg.selector_view().uuid) == crate::message::MessageKind::Connect {
        exists|table: Seq<Endpoint<Rm>>, connected: bool| #[trigger]
            is_handshake(before, token, msg, wrap, decode, answer, table, connected) && if connected
                && waiting.len() > 0 {
                is_replay(table, own_label, waiting, now, send, deliver, after, kept)
            } else {
                after == table && kept == waiting
            }
    } else {
        exists|outcomes: Seq<SendOutcome>, remain: Option<EncodedMessage<H, R>>| #[trigger]
            is_pass(before, own_label, msg, send, deliver, outcomes, after, remain) && kept
                == waiting + waits_of(remain, now)
    }
}

impl<Rm, H, R> BusController<Rm, H, R> {
    /// Looks after the endpoints at `now`: more than thirty seconds after
    /// the last time, each is probed with `is_dead`, and those whose
    /// transport is dead leave the table.
    pub fn detect_reachable<P: Fn(&Rm) -> bool>(&mut self, now: TimeSpan, is_dead: &P)
        requires
            forall|r: &Rm| call_requires(*is_dead, (r,)),
        ensures
            is_sweep(
                old(self).endpoints_view(),
                old(self).last_probe(),
                now@,
                *is_dead,
                final(self).endpoints_view(),
                final(self).last_probe(),
            ),
            no_endpoint_twice(old(self).endpoints_view()) ==> no_endpoint_twice(
                final(self).endpoints_view(),
            ),
            final(self).buffer_view() == old(self).buffer_view(),
            final(self).label_view() == old(self).label_view(),
            final(self).token_view() == old(self).token_view(),
            final(self).id_view() == old(self).id_view(),
    {
        if !self.probe_due(now) {
            return;
        }
        let mut dead: Vec<bool> = Vec::new();
        let mut i: usize = 0;
        while i < self.endpoints.len()
            invariant
                forall|r: &Rm| call_requires(*is_dead, (r,)),
                i <= self.endpoints@.len(),
                dead@.len() == i,
                forall|j: int|
                    0 <= j < i ==> call_ensures(
                        *is_dead,
                        (&self.endpoints@[j].remote,),
                        #[trigger] dead@[j],
                    ),
            decreases self.endpoints@.len() - i,
        {
            let gone = is_dead(&self.endpoints[i].remote);
            dead.push(gone);
            i += 1;
        }
        proof {
            assert(probes_fit(self.endpoints@, dead@, *is_dead));
        }
        self.drop_dead(now, &dead);
    }

    /// Takes one message, as the controller's loop does at `now` with each
    /// message that comes in: answers a client that wants to connect, and
    /// routes again what waits when the client has connected; routes any
    /// other message, and keeps it where it is left over and has a time to
    /// live; and looks after the endpoints when that is due.
    ///
    /// A message that asks for a process handle is routed like any other:
    /// that request is answered by the controller only on systems that have
    /// process handles, and before it gets here.
    pub fn on_message<
        Wrap: Fn(H) -> (Rm, u64),
        Dec: Fn(&[u8]) -> Option<ConnectMessage>,
        Ans: Fn(&Rm, &Selector, ConnectMessageAck) -> bool,
        S: Fn(&EncodedMessage<H, R>, &Rm) -> SendOutcome,
        D: Fn(EncodedMessage<H, R>) -> Option<EncodedMessage<H, R>>,
        P: Fn(&Rm) -> bool,
    >(
        &mut self,
        msg: EncodedMessage<H, R>,
        now: TimeSpan,
        wrap: Wrap,
        decode: Dec,
        answer: Ans,
        send: &S,
        deliver: &D,
        is_dead: &P,
    )
        requires
            forall|h: H| call_requires(wrap, (h,)),
            forall|bytes: &[u8]| call_requires(decode, (bytes,)),
            forall|r: &Rm, s: &Selector, a: ConnectMessageAck| call_requires(answer, (r, s, a)),
            forall|m: &EncodedMessage<H, R>, r: &Rm| call_requires(*send, (m, r)),
            forall|m: EncodedMessage<H, R>| call_requires(*deliver, (m,)),
            forall|r: &Rm| call_requires(*is_dead, (r,)),
        ensures
            exists|table: Seq<Endpoint<Rm>>| #[trigger]
                is_dispatch(
                    old(self).endpoints_view(),
                    old(self).buffer_view(),
                    old(self).label_view(),
                    old(self).token_view(),
                    msg,
                    now@,
                    wrap,
                    decode,
                    answer,
                    *send,
                    *deliver,
                    table,
                    final(self).buffer_view(),
                ) && is_sweep(
                    table,
                    old(self).last_probe(),
                    now@,
                    *is_dead,
                    final(self).endpoints_view(),
                    final(self).last_probe(),
                ),
            no_endpoint_twice(old(self).endpoints_view()) ==> no_endpoint_twice(
                final(self).endpoints_view(),
            ),
            final(self).label_view() == old(self).label_view(),
            final(self).token_view() == old(self).token_view(),
            final(self).id_view() == old(self).id_view(),
    {
        let ghost before = self.endpoints@;
        let ghost waiting = self.message_buffer@;
        let ghost own = self.label@;
        let uuid = msg.selector().uuid();
        match crate::message::classify(&uuid) {
            crate::message::MessageKind::Connect => {
                let connected = self.endpoint_connect(msg, wrap, decode, answer);
                if connected && self.has_buffered() {
                    self.replay(now, send, deliver);
                }
                proof {
                    assert(is_dispatch(
                        before,
                        waiting,
                        own,
                        self.token@,
                        msg,
                        now@,
                        wrap,
                        decode,
                        answer,
                        *send,
                        *deliver,
                        self.endpoints@,
                        self.message_buffer@,
                    ));
                }
            },
            _ => {
                let remain = self.handle_message(msg, send, deliver);
                let ghost left = remain;
                if let Some(message) = remain {
                    let _ = self.buffer(now, message);
                }
                proof {
                    assert(self.message_buffer@ =~= waiting + waits_of(left, now@));
                    assert(is_dispatch(
                        before,
                        waiting,
                        own,
                        self.token@,
                        msg,
                        now@,
                        wrap,
                        decode,
                        answer,
                        *send,
                        *deliver,
                        self.endpoints@,
                        self.message_buffer@,
                    ));
                }
            },
        }
        self.detect_reachable(now, is_dead);
    }
}

impl<Rm, H, R> BusController<Rm, H, R> {
    /// Handles a connect message: takes the transport to the client out of
    /// it, reads the request, answers it, and lets the client into the table
    /// where it is admitted, the answer has reached it, and it is not there
    /// already. Tells whether an endpoint has connected.
    ///
    /// `wrap` makes the transport, and its raw value, of the handle that the
    /// client sent; `decode` reads the request from the payload, `None`
    /// where it cannot; `answer` sends the answer through the transport,
    /// under the selector of the request, and tells whether it got through.
    pub fn endpoint_connect<
        Wrap: Fn(H) -> (Rm, u64),
        Dec: Fn(&[u8]) -> Option<ConnectMessage>,
        Ans: Fn(&Rm, &Selector, ConnectMessageAck) -> bool,
    >(&mut self, msg: EncodedMessage<H, R>, wrap: Wrap, decode: Dec, answer: Ans) -> (connected:
        bool)
        requires
            forall|h: H| call_requires(wrap, (h,)),
            forall|bytes: &[u8]| call_requires(decode, (bytes,)),
            forall|r: &Rm, s: &Selector, a: ConnectMessageAck| call_requires(answer, (r, s, a)),
        ensures
            is_handshake(
                old(self).endpoints_view(),
                old(self).token_view(),
                msg,
                wrap,
                decode,
                answer,
                final(self).endpoints_view(),
                connected,
            ),
            no_endpoint_twice(old(self).endpoints_view()) ==> no_endpoint_twice(
                final(self).endpoints_view(),
            ),
            final(self).buffer_view() == old(self).buffer_view(),
            final(self).label_view() == old(self).label_view(),
            final(self).token_view() == old(self).token_view(),
            final(self).last_probe() == old(self).last_probe(),
            final(self).id_view() == old(self).id_view(),
    {
        let mut msg = msg;
        let ghost whole = msg;
        let handle = match msg.extract_remote() {
            Some(handle) => handle,
            None => {
                return false;
            },
        };
        let (remote, key) = wrap(handle);
        let payload = msg.payload_data();
        let request = decode(payload);
        let fresh = EndpointID::new();
        let asked = request.as_ref();
        let ack = self.ack_for(asked, fresh);
        let selector = msg.selector();
        let delivered = answer(&remote, selector, ack);
        let ghost before = self.endpoints@;
        let ghost sent_through = remote;
        let ghost read = request;
        let connected = match request {
            Some(request) => self.insert_endpoint(ack, request.label, remote, key, delivered),
            None => false,
        };
        proof {
            assert(handshake_went(
                before,
                self.token@,
                whole,
                wrap,
                decode,
                answer,
                self.endpoints@,
                connected,
                sent_through,
                key,
                payload,
                read,
                fresh,
                selector,
                delivered,
            ));
        }
        connected
    }
}

/// Whether two strings hold the same text.
pub fn same_text(a: &str, b: &str) -> (same: bool)
    ensures
        same == (a@ == b@),
{
    let a_len = a.unicode_len();
    let b_len = b.unicode_len();
    if a_len != b_len {
        return false;
    }
    let mut i: usize = 0;
    while i < a_len
        invariant
            a_len == a@.len(),
            b_len == b@.len(),
            a_len == b_len,
            i <= a_len,
            forall|j: int| 0 <= j < i ==> a@[j] == b@[j],
        decreases a_len - i,
    {
        if a.get_char(i) != b.get_char(i) {
            return false;
        }
        i += 1;
    }
    assert(a@ =~= b@);
    true
}

} // verus!
