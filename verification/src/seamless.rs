//! Orchestration of a handoff over an encrypted transport.
//!
//! This module touches neither portal nor socket. The platform layer
//! implements the small traits below, while this code enforces the network
//! ordering invariant: an authenticated `EnterAck` is required before any
//! input is sent or injected, and every close or error path releases input.
use vstd::prelude::*;

use crate::backend::BackendError;
use crate::handoff::{Edge, HandoffAction, HandoffController, HandoffState, Point};
use crate::protocol::{Message, WireEdge, WireInputEvent, WireTouchEvent, HEARTBEAT_INTERVAL_MS};
use crate::transport::TransportError;

verus! {

/// Typed input leaving the capture adapter. Pointer motion has its own paired
/// form so a diagonal source update remains a single remote frame.
#[derive(Debug, Clone, Copy, PartialEq, Eq, Structural)]
pub enum CapturedInput {
    Motion { dx: i32, dy: i32 },
    Event(WireInputEvent),
    Touch(WireTouchEvent),
}

/// One call of a [`CaptureBackend`] with what it gave.
pub enum CaptureCall {
    Waited(Result<Point, BackendError>),
    Began(Result<(), BackendError>),
    Read(std::time::Duration, Result<Option<CapturedInput>, BackendError>),
    Returned(Point, Result<(), BackendError>),
    Released(Option<Point>, Result<(), BackendError>),
}

/// Platform contract of the capturing side.
///
/// A backend is free to succeed or fail; `calls` is the record of what it was
/// asked and how it answered. It exists in proofs only. An impl in ordinary Rust,
/// which has no proofs, cannot keep a record; it keeps to the contract where each
/// call does once what it is asked and gives its true outcome.
pub trait CaptureBackend: Sized {
    /// What the backend was asked, and how it answered. An impl has to override
    /// this: with the body that stands here no call could keep to its contract.
    open spec fn calls(&self) -> Seq<CaptureCall> {
        Seq::empty()
    }

    /// Waits for an activation of the configured pointer barrier.
    fn wait_for_left_activation(&mut self) -> (result: Result<Point, BackendError>)
        ensures
            final(self).calls() == old(self).calls().push(CaptureCall::Waited(result)),
    ;

    /// Enables forwarding from the already-active capture session.
    fn begin_remote_input(&mut self) -> (result: Result<(), BackendError>)
        ensures
            final(self).calls() == old(self).calls().push(CaptureCall::Began(result)),
    ;

    /// The next safely decoded input event. The implementation may use `None`
    /// for a heartbeat interval with no input.
    fn next_input(&mut self, timeout: std::time::Duration) -> (result: Result<
        Option<CapturedInput>,
        BackendError,
    >)
        ensures
            final(self).calls() == old(self).calls().push(CaptureCall::Read(timeout, result)),
    ;

    /// Releases the active capture at `restore` and leaves the edge armed for
    /// a later handoff.
    fn return_to_local(&mut self, restore: Point) -> (result: Result<(), BackendError>)
        ensures
            final(self).calls() == old(self).calls().push(CaptureCall::Returned(restore, result)),
    ;

    /// Releases the activation and stops capture. Idempotent by design.
    fn release_local_input(&mut self, restore: Option<Point>) -> (result: Result<
        (),
        BackendError,
    >)
        ensures
            final(self).calls() == old(self).calls().push(CaptureCall::Released(restore, result)),
    ;
}

/// What an [`InjectBackend`] is asked to do.
pub enum InjectCall {
    Prepare(Point),
    Motion { dx: i32, dy: i32 },
    Event(WireInputEvent),
    Touch(WireTouchEvent),
    Release,
}

/// Platform contract of the injecting side.
///
/// A backend is free to succeed or fail; `calls` is the record of what it was
/// asked and how it answered. It exists in proofs only. An impl in ordinary Rust,
/// which has no proofs, cannot keep a record; it keeps to the contract where each
/// call does once what it is asked and gives its true outcome.
pub trait InjectBackend: Sized {
    /// What the backend was asked, and how it answered. An impl has to override
    /// this: with the body that stands here no call could keep to its contract.
    open spec fn calls(&self) -> Seq<(InjectCall, Result<(), BackendError>)> {
        Seq::empty()
    }

    /// Prepares virtual input state for an accepted peer entry.
    fn prepare_entry(&mut self, entry: Point) -> (result: Result<(), BackendError>)
        ensures
            final(self).calls() == old(self).calls().push((InjectCall::Prepare(entry), result)),
    ;

    /// Injects one paired relative motion update in exactly one remote frame.
    fn inject_motion(&mut self, dx: i32, dy: i32) -> (result: Result<(), BackendError>)
        ensures
            final(self).calls() == old(self).calls().push((InjectCall::Motion { dx, dy }, result)),
    ;

    fn inject(&mut self, event: WireInputEvent) -> (result: Result<(), BackendError>)
        ensures
            final(self).calls() == old(self).calls().push((InjectCall::Event(event), result)),
    ;

    fn inject_touch(&mut self, event: WireTouchEvent) -> (result: Result<(), BackendError>)
        ensures
            final(self).calls() == old(self).calls().push((InjectCall::Touch(event), result)),
    ;

    /// Synthesizes releases for all pressed keys and buttons and closes the
    /// active injection scope. It must be safe to call more than once.
    fn release_all(&mut self) -> (result: Result<(), BackendError>)
        ensures
            final(self).calls() == old(self).calls().push((InjectCall::Release, result)),
    ;
}

/// One use of a [`MessageTransport`] with what it gave.
pub enum Exchange {
    Sent(Message, Result<(), TransportError>),
    Received(Result<Message, TransportError>),
    Polled(Result<Option<Message>, TransportError>),
}

/// The narrow transport surface that the orchestration needs. `exchanges` is
/// the record of what went through it. It exists in proofs only. An impl in
/// ordinary Rust, which has no proofs, cannot keep a record; it keeps to the
/// contract where each call does once what it is asked and gives its true outcome.
pub trait MessageTransport: Sized {
    /// What went through the transport. An impl has to override this: with the
    /// body that stands here no call could keep to its contract.
    open spec fn exchanges(&self) -> Seq<Exchange> {
        Seq::empty()
    }

    fn send(&mut self, message: Message) -> (result: Result<(), TransportError>)
        ensures
            final(self).exchanges() == old(self).exchanges().push(Exchange::Sent(message, result)),
    ;

    fn receive(&mut self) -> (result: Result<Message, TransportError>)
        ensures
            final(self).exchanges() == old(self).exchanges().push(Exchange::Received(result)),
    ;

    fn poll_receive(&mut self) -> (result: Result<Option<Message>, TransportError>)
        ensures
            final(self).exchanges() == old(self).exchanges().push(Exchange::Polled(result)),
    ;
}

#[derive(Debug, PartialEq)]
pub enum SeamlessError {
    Backend(BackendError),
    Transport(TransportError),
    UnexpectedControl(Message),
    InputBeforeAcknowledgement,
    InputBeforeEntry,
    InvalidActivation,
}

/// What a backend's answer means for the caller.
pub open spec fn backend_outcome(result: Result<(), BackendError>) -> Result<(), SeamlessError> {
    match result {
        Ok(_) => Ok(()),
        Err(error) => Err(SeamlessError::Backend(error)),
    }
}

/// What a transport's answer means for the caller.
pub open spec fn transport_outcome(result: Result<(), TransportError>) -> Result<
    (),
    SeamlessError,
> {
    match result {
        Ok(_) => Ok(()),
        Err(error) => Err(SeamlessError::Transport(error)),
    }
}

fn from_backend(result: Result<(), BackendError>) -> (outcome: Result<(), SeamlessError>)
    ensures
        outcome == backend_outcome(result),
{
    match result {
        Ok(_) => Ok(()),
        Err(error) => Err(SeamlessError::Backend(error)),
    }
}

fn from_transport(result: Result<(), TransportError>) -> (outcome: Result<(), SeamlessError>)
    ensures
        outcome == transport_outcome(result),
{
    match result {
        Ok(_) => Ok(()),
        Err(error) => Err(SeamlessError::Transport(error)),
    }
}

/// Whether `now` is `then` with more behind it.
pub open spec fn extends<A>(then: Seq<A>, now: Seq<A>) -> bool {
    then.len() <= now.len() && now.take(then.len() as int) =~= then
}

/// What was added between two records.
pub open spec fn added<A>(then: Seq<A>, now: Seq<A>) -> Seq<A> {
    now.skip(then.len() as int)
}

/// What was added earlier is still there.
proof fn lemma_kept<A>(then: Seq<A>, middle: Seq<A>, now: Seq<A>)
    requires
        extends(then, middle),
        extends(middle, now),
    ensures
        extends(then, now),
        extends(added(then, middle), added(then, now)),
        forall|i: int|
            0 <= i < added(then, middle).len() ==> #[trigger] added(then, now)[i] == added(
                then,
                middle,
            )[i],
{
    assert forall|i: int| 0 <= i < middle.len() implies #[trigger] now[i] == middle[i] by {
        assert(now.take(middle.len() as int)[i] == now[i]);
    }
}

/// What was added is what was added first, with what was added after it.
proof fn lemma_added<A>(then: Seq<A>, middle: Seq<A>, now: Seq<A>)
    requires
        extends(then, middle),
        extends(middle, now),
    ensures
        extends(then, now),
        added(then, now) == added(then, middle) + added(middle, now),
{
    lemma_kept(then, middle, now);
    assert forall|i: int| 0 <= i < middle.len() implies #[trigger] now[i] == middle[i] by {
        assert(now.take(middle.len() as int)[i] == now[i]);
    }
    assert(added(then, now) =~= added(then, middle) + added(middle, now));
}

/// One step of a coordinator: a call of the backend beside it, or a use of the
/// channel to the peer.
pub enum Happened<C> {
    Here(C),
    Channel(Exchange),
}

/// `most`, but no more than there are.
pub open spec fn up_to(len: nat, most: nat) -> nat {
    if most <= len {
        most
    } else {
        len
    }
}

/// The calls from `from` up to `to`, as far as there are any.
pub open spec fn here<C>(calls: Seq<C>, from: nat, to: nat) -> Seq<Happened<C>> {
    calls.subrange(
        up_to(calls.len(), from) as int,
        up_to(calls.len(), to) as int,
    ).map_values(|call: C| Happened::Here(call))
}

/// The exchanges from `from` up to `to`, as far as there are any.
pub open spec fn over<C>(exchanges: Seq<Exchange>, from: nat, to: nat) -> Seq<Happened<C>> {
    exchanges.subrange(
        up_to(exchanges.len(), from) as int,
        up_to(exchanges.len(), to) as int,
    ).map_values(|exchange: Exchange| Happened::Channel(exchange))
}

/// The order in which a message is handled: the backend before the reply, and
/// the release after it.
pub open spec fn reply_order<C>(calls: Seq<C>, exchanges: Seq<Exchange>) -> Seq<Happened<C>> {
    here(calls, 0, 1) + over(exchanges, 0, 1) + here(calls, 1, 2)
}

/// The order of a return that the client asks for: the request comes first.
pub open spec fn exit_order<C>(calls: Seq<C>, exchanges: Seq<Exchange>) -> Seq<Happened<C>> {
    over(exchanges, 0, 1) + here(calls, 0, 1)
}

/// The order in which input is taken back: here first, then at the peer.
pub open spec fn release_order<C>(calls: Seq<C>, exchanges: Seq<Exchange>) -> Seq<Happened<C>> {
    here(calls, 0, 1) + over(exchanges, 0, 1)
}

/// The order of an activation: the barrier, the request and its answer, what
/// the answer leads to here, and what it leads to at the peer.
pub open spec fn activation_order<C>(calls: Seq<C>, exchanges: Seq<Exchange>) -> Seq<Happened<C>> {
    here(calls, 0, 1) + over(exchanges, 0, 2) + here(calls, 1, 2) + over(exchanges, 2, 3)
}

/// The order of a look for control messages: the look, then taking input back.
pub open spec fn poll_order<C>(calls: Seq<C>, exchanges: Seq<Exchange>) -> Seq<Happened<C>> {
    over(exchanges, 0, 1) + here(calls, 0, 1) + over(exchanges, 1, 2)
}

/// The order of reading and forwarding: backend and channel take turns.
pub open spec fn read_order<C>(calls: Seq<C>, exchanges: Seq<Exchange>) -> Seq<Happened<C>> {
    here(calls, 0, 1) + over(exchanges, 0, 1) + here(calls, 1, 2) + over(exchanges, 1, 2)
}

/// Whether the second exchange of a round is a probe.
pub open spec fn sends_probe(exchanges: Seq<Exchange>) -> bool {
    exchanges.len() >= 2 && (exchanges[1] matches Exchange::Sent(message, _)
        && message is DiagnosticPing)
}

/// How many exchanges of a round come before anything is read: the look for
/// control messages, and a probe if one was due.
pub open spec fn leading(exchanges: Seq<Exchange>) -> nat {
    if sends_probe(exchanges) {
        2
    } else {
        1
    }
}

/// The order of a round of forwarding: what leads it, then reading.
pub open spec fn round_order<C>(calls: Seq<C>, exchanges: Seq<Exchange>) -> Seq<Happened<C>> {
    over(exchanges, 0, leading(exchanges)) + read_order(
        calls,
        exchanges.skip(leading(exchanges) as int),
    )
}

/// A round that is over after the look for control messages.
proof fn lemma_round_ends<C>(calls: Seq<C>, exchanges: Seq<Exchange>)
    requires
        calls.len() <= 1,
        1 <= exchanges.len() <= 2,
        !sends_probe(exchanges),
    ensures
        poll_order(calls, exchanges) == round_order(calls, exchanges),
{
    assert(poll_order(calls, exchanges) =~= round_order(calls, exchanges));
}

/// A round that goes on to read, after one or two exchanges.
proof fn lemma_round_reads<C>(lead: Seq<Exchange>, calls: Seq<C>, rest: Seq<Exchange>)
    requires
        1 <= lead.len() <= 2,
        lead.len() == leading(lead + rest),
    ensures
        over::<C>(lead, 0, 1) + over::<C>(lead, 1, 2) + read_order(calls, rest) == round_order(
            calls,
            lead + rest,
        ),
{
    let all = lead + rest;
    assert(all.skip(lead.len() as int) =~= rest);
    assert(over::<C>(all, 0, lead.len()) =~= over::<C>(lead, 0, 1) + over::<C>(lead, 1, 2));
}

/// Reading goes on after its first call.
proof fn lemma_read_goes_on<C>(call: C, calls: Seq<C>, exchanges: Seq<Exchange>)
    requires
        calls.len() <= 1,
        exchanges.len() <= 2,
    ensures
        seq![Happened::Here(call)] + poll_order(calls, exchanges) == read_order(
            seq![call] + calls,
            exchanges,
        ),
{
    assert(seq![Happened::Here(call)] + poll_order(calls, exchanges) =~= read_order(
        seq![call] + calls,
        exchanges,
    ));
}

/// Reading that gave nothing.
proof fn lemma_read_idles<C>(call: C, sent: Seq<Exchange>)
    requires
        sent.len() <= 1,
    ensures
        seq![Happened::Here(call)] + over(sent, 0, 1) == read_order(seq![call], sent),
{
    assert(seq![Happened::Here(call)] + over(sent, 0, 1) =~= read_order(seq![call], sent));
}

/// Reading that ends with sending what was read.
proof fn lemma_read_sends<C>(call: C, second: Exchange, sent: Seq<Exchange>)
    requires
        sent.len() <= 1,
    ensures
        read_order(seq![call], seq![second]) + over(sent, 0, 1) == read_order(
            seq![call],
            seq![second] + sent,
        ),
{
    assert(read_order(seq![call], seq![second]) + over(sent, 0, 1) =~= read_order(
        seq![call],
        seq![second] + sent,
    ));
}

/// What the controlled side knows.
pub struct ClientView {
    /// Whether an accepted entry lets input in.
    pub remote_active: bool,
    pub entry: Option<Point>,
    /// Whether the host was asked to take input back.
    pub return_pending: bool,
}

impl ClientView {
    /// The state of a client that was just made.
    pub open spec fn fresh() -> ClientView {
        ClientView { remote_active: false, entry: None, return_pending: false }
    }

    /// The state after everything was released.
    pub open spec fn released(self) -> ClientView {
        ClientView { remote_active: false, entry: None, return_pending: self.return_pending }
    }
}

/// What one message asks of the controlled side.
pub enum ClientStep {
    /// Prepare this entry, then acknowledge it.
    Enter(Point),
    /// Answer with a rejection.
    Reject,
    /// Answer the probe with this number.
    Answer(u32),
    /// Hand this to the injector.
    Inject(InjectCall),
    /// Nothing.
    Ignore,
    /// Release everything because the host said so.
    Release,
    /// Release everything and forget a pending return.
    Finish,
    /// Release everything and report input that nothing allowed.
    RefuseInput,
    /// Release everything and report the message.
    RefuseControl,
}

/// The step that an input message leads to.
pub open spec fn input_step(state: ClientView, call: InjectCall) -> ClientStep {
    if state.remote_active {
        ClientStep::Inject(call)
    } else if state.return_pending {
        ClientStep::Ignore
    } else {
        ClientStep::RefuseInput
    }
}

/// The step that a message leads to.
pub open spec fn client_step(state: ClientView, message: Message) -> ClientStep {
    match message {
        Message::Enter { x, y } => if state.remote_active {
            ClientStep::Reject
        } else {
            ClientStep::Enter(Point { x, y })
        },
        Message::Input(event) => input_step(state, InjectCall::Event(event)),
        Message::PointerMotion { dx, dy } => input_step(state, InjectCall::Motion { dx, dy }),
        Message::Touch(event) => input_step(state, InjectCall::Touch(event)),
        Message::Heartbeat => ClientStep::Ignore,
        Message::DiagnosticPing { sequence } => ClientStep::Answer(sequence),
        Message::HandoffRelease => ClientStep::Finish,
        Message::ReleaseAll | Message::Goodbye => ClientStep::Release,
        _ => ClientStep::RefuseControl,
    }
}

/// Whether these calls, these exchanges, this new state and this result are
/// what handling `message` must lead to.
pub open spec fn handled(
    before: ClientView,
    message: Message,
    calls: Seq<(InjectCall, Result<(), BackendError>)>,
    exchanges: Seq<Exchange>,
    after: ClientView,
    result: Result<(), SeamlessError>,
) -> bool {
    match client_step(before, message) {
        ClientStep::Enter(entry) => {
            &&& calls.len() >= 1 && calls[0].0 == InjectCall::Prepare(entry)
            &&& exchanges.len() == 1
            &&& if calls[0].1 is Ok {
                &&& calls.len() == 1
                &&& exchanges[0] matches Exchange::Sent(reply, sent) && reply == Message::EnterAck
                    && result == transport_outcome(sent) && after == if sent is Ok {
                    ClientView { remote_active: true, entry: Some(entry), return_pending: false }
                } else {
                    before
                }
            } else {
                &&& exchanges[0] matches Exchange::Sent(reply, _) && reply == Message::EnterRejected
                &&& calls.len() == 2 && calls[1].0 == InjectCall::Release
                &&& result == backend_outcome(calls[0].1)
                &&& after == before
            }
        },
        ClientStep::Reject => {
            &&& calls.len() == 0
            &&& exchanges.len() == 1
            &&& exchanges[0] matches Exchange::Sent(reply, sent) && reply == Message::EnterRejected
                && result == transport_outcome(sent)
            &&& after == before
        },
        ClientStep::Answer(sequence) => {
            &&& calls.len() == 0
            &&& exchanges.len() == 1
            &&& exchanges[0] matches Exchange::Sent(reply, sent) && reply
                == Message::DiagnosticPong { sequence } && result == transport_outcome(sent)
            &&& after == before
        },
        ClientStep::Inject(call) => {
            &&& calls.len() == 1 && calls[0].0 == call
            &&& exchanges.len() == 0
            &&& result == backend_outcome(calls[0].1)
            &&& after == before
        },
        ClientStep::Ignore => {
            &&& calls.len() == 0
            &&& exchanges.len() == 0
            &&& result is Ok
            &&& after == before
        },
        ClientStep::Release => {
            &&& calls.len() == 1 && calls[0].0 == InjectCall::Release
            &&& exchanges.len() == 0
            &&& result == backend_outcome(calls[0].1)
            &&& after == before.released()
        },
        ClientStep::Finish => {
            &&& calls.len() == 1 && calls[0].0 == InjectCall::Release
            &&& exchanges.len() == 0
            &&& result == backend_outcome(calls[0].1)
            &&& after == ClientView {
                return_pending: before.return_pending && calls[0].1 is Err,
                ..before.released()
            }
        },
        ClientStep::RefuseInput => {
            &&& calls.len() == 1 && calls[0].0 == InjectCall::Release
            &&& exchanges.len() == 0
            &&& result == Err::<(), SeamlessError>(SeamlessError::InputBeforeEntry)
            &&& after == before.released()
        },
        ClientStep::RefuseControl => {
            &&& calls.len() == 1 && calls[0].0 == InjectCall::Release
            &&& exchanges.len() == 0
            &&& result == Err::<(), SeamlessError>(SeamlessError::UnexpectedControl(message))
            &&& after == before.released()
        },
    }
}

/// Whether these calls, these exchanges, this new state and this result are
/// what asking the host to take input back must lead to.
pub open spec fn exit_requested(
    before: ClientView,
    edge: WireEdge,
    position: Point,
    calls: Seq<(InjectCall, Result<(), BackendError>)>,
    exchanges: Seq<Exchange>,
    after: ClientView,
    result: Result<(), SeamlessError>,
) -> bool {
    if !before.remote_active {
        &&& calls.len() == 0
        &&& exchanges.len() == 0
        &&& result == Err::<(), SeamlessError>(SeamlessError::InputBeforeEntry)
        &&& after == before
    } else {
        &&& exchanges.len() == 1
        &&& exchanges[0] matches Exchange::Sent(request, sent) && request == Message::ExitRequest {
            edge,
            x: position.x,
            y: position.y,
        } && if sent is Ok {
            &&& calls.len() == 1 && calls[0].0 == InjectCall::Release
            &&& result == backend_outcome(calls[0].1)
            &&& after == ClientView { remote_active: false, entry: None, return_pending: true }
        } else {
            &&& calls.len() == 0
            &&& result == transport_outcome(sent)
            &&& after == before
        }
    }
}

/// Client-side coordinator. It arms virtual input only after it has prepared
/// the requested entry coordinate and returned an encrypted acknowledgement.
pub struct SeamlessClient<I, T> {
    injector: I,
    transport: T,
    remote_active: bool,
    entry: Option<Point>,
    return_pending: bool,
    record: Ghost<Seq<Happened<(InjectCall, Result<(), BackendError>)>>>,
}

impl<I: InjectBackend, T: MessageTransport> SeamlessClient<I, T> {
    pub closed spec fn state(&self) -> ClientView {
        ClientView {
            remote_active: self.remote_active,
            entry: self.entry,
            return_pending: self.return_pending,
        }
    }

    pub closed spec fn backend(&self) -> I {
        self.injector
    }

    pub closed spec fn channel(&self) -> T {
        self.transport
    }

    /// What the client did since it was made, in order.
    pub closed spec fn record(&self) -> Seq<Happened<(InjectCall, Result<(), BackendError>)>> {
        self.record@
    }

    pub open spec fn calls(&self) -> Seq<(InjectCall, Result<(), BackendError>)> {
        self.backend().calls()
    }

    pub open spec fn exchanges(&self) -> Seq<Exchange> {
        self.channel().exchanges()
    }

    pub fn new(injector: I, transport: T) -> (client: Self)
        ensures
            client.state() == ClientView::fresh(),
            client.backend() == injector,
            client.channel() == transport,
            client.record().len() == 0,
    {
        SeamlessClient {
            injector,
            transport,
            remote_active: false,
            entry: None,
            return_pending: false,
            record: Ghost(Seq::empty()),
        }
    }

    /// Asks something of the injector.
    fn ask(&mut self, call: InjectCall) -> (result: Result<(), BackendError>)
        ensures
            final(self).state() == old(self).state(),
            final(self).channel() == old(self).channel(),
            final(self).calls() == old(self).calls().push((call, result)),
            final(self).record() == old(self).record().push(Happened::Here((call, result))),
    {
        let result = match call {
            InjectCall::Prepare(entry) => self.injector.prepare_entry(entry),
            InjectCall::Motion { dx, dy } => self.injector.inject_motion(dx, dy),
            InjectCall::Event(event) => self.injector.inject(event),
            InjectCall::Touch(event) => self.injector.inject_touch(event),
            InjectCall::Release => self.injector.release_all(),
        };
        proof {
            self.record@ = self.record@.push(Happened::Here((call, result)));
        }
        result
    }

    fn send(&mut self, message: Message) -> (result: Result<(), TransportError>)
        ensures
            final(self).state() == old(self).state(),
            final(self).backend() == old(self).backend(),
            final(self).exchanges() == old(self).exchanges().push(Exchange::Sent(message, result)),
            final(self).record() == old(self).record().push(
                Happened::Channel(Exchange::Sent(message, result)),
            ),
    {
        let result = self.transport.send(message);
        proof {
            self.record@ = self.record@.push(Happened::Channel(Exchange::Sent(message, result)));
        }
        result
    }

    pub fn remote_active(&self) -> (active: bool)
        ensures
            active == self.state().remote_active,
    {
        self.remote_active
    }

    /// The last authenticated host entry. A left-side client needs its x
    /// coordinate when it returns across its left barrier because that is the
    /// adjoining host's right boundary in the shared topology.
    pub fn entry(&self) -> (entry: Option<Point>)
        ensures
            entry == self.state().entry,
    {
        self.entry
    }

    /// Receives one encrypted frame.
    pub fn receive_next(&mut self) -> (result: Result<Message, TransportError>)
        ensures
            final(self).state() == old(self).state(),
            final(self).backend() == old(self).backend(),
            final(self).exchanges() == old(self).exchanges().push(Exchange::Received(result)),
            final(self).record() == old(self).record().push(
                Happened::Channel(Exchange::Received(result)),
            ),
    {
        let result = self.transport.receive();
        proof {
            self.record@ = self.record@.push(Happened::Channel(Exchange::Received(result)));
        }
        result
    }

    /// Polls a complete already-buffered frame so the composition loop can
    /// service a local edge signal between remote input frames.
    pub fn poll_next(&mut self) -> (result: Result<Option<Message>, TransportError>)
        ensures
            final(self).state() == old(self).state(),
            final(self).backend() == old(self).backend(),
            final(self).exchanges() == old(self).exchanges().push(Exchange::Polled(result)),
            final(self).record() == old(self).record().push(
                Happened::Channel(Exchange::Polled(result)),
            ),
    {
        let result = self.transport.poll_receive();
        proof {
            self.record@ = self.record@.push(Happened::Channel(Exchange::Polled(result)));
        }
        result
    }

    /// What to do with an input message.
    fn take_input(&mut self, message: Message) -> (result: Result<(), SeamlessError>)
        requires
            message is Input || message is PointerMotion || message is Touch,
        ensures
            extends(old(self).calls(), final(self).calls()),
            extends(old(self).exchanges(), final(self).exchanges()),
            handled(
                old(self).state(),
                message,
                added(old(self).calls(), final(self).calls()),
                added(old(self).exchanges(), final(self).exchanges()),
                final(self).state(),
                result,
            ),
            extends(old(self).record(), final(self).record()),
            added(old(self).record(), final(self).record()) == reply_order(
                added(old(self).calls(), final(self).calls()),
                added(old(self).exchanges(), final(self).exchanges()),
            ),
    {
        if self.remote_active {
            let result = match message {
                Message::Input(event) => self.ask(InjectCall::Event(event)),
                Message::PointerMotion { dx, dy } => self.ask(InjectCall::Motion { dx, dy }),
                Message::Touch(event) => self.ask(InjectCall::Touch(event)),
                _ => Ok(()),
            };
            return from_backend(result);
        }
        if self.return_pending {
            // The host may have selected this input before it received our
            // exit request. It is stale rather than a protocol violation.
            return Ok(());
        }
        let _ = self.close();
        Err(SeamlessError::InputBeforeEntry)
    }

    /// Handles one decrypted message. The enclosing receive loop must call
    /// [`Self::close`] on any transport error before it returns to its caller.
    pub fn handle(&mut self, message: Message) -> (result: Result<(), SeamlessError>)
        ensures
            extends(old(self).calls(), final(self).calls()),
            extends(old(self).exchanges(), final(self).exchanges()),
            handled(
                old(self).state(),
                message,
                added(old(self).calls(), final(self).calls()),
                added(old(self).exchanges(), final(self).exchanges()),
                final(self).state(),
                result,
            ),
            extends(old(self).record(), final(self).record()),
            added(old(self).record(), final(self).record()) == reply_order(
                added(old(self).calls(), final(self).calls()),
                added(old(self).exchanges(), final(self).exchanges()),
            ),
    {
        match message {
            Message::Enter { x, y } => {
                if self.remote_active {
                    return from_transport(self.send(Message::EnterRejected));
                }
                if let Err(error) = self.ask(InjectCall::Prepare(Point { x, y })) {
                    let _ = self.send(Message::EnterRejected);
                    let _ = self.ask(InjectCall::Release);
                    return Err(SeamlessError::Backend(error));
                }
                if let Err(error) = self.send(Message::EnterAck) {
                    return Err(SeamlessError::Transport(error));
                }
                self.remote_active = true;
                self.return_pending = false;
                self.entry = Some(Point { x, y });
                Ok(())
            },
            Message::Input(_) | Message::PointerMotion { .. } | Message::Touch(_) => {
                self.take_input(message)
            },
            Message::Heartbeat => Ok(()),
            Message::DiagnosticPing { sequence } => from_transport(
                self.send(Message::DiagnosticPong { sequence }),
            ),
            Message::HandoffRelease => {
                if let Err(error) = self.close() {
                    return Err(error);
                }
                self.return_pending = false;
                Ok(())
            },
            Message::ReleaseAll | Message::Goodbye => self.close(),
            _ => {
                let _ = self.close();
                Err(SeamlessError::UnexpectedControl(message))
            },
        }
    }

    /// Requests a return only for an active, authenticated entry; it never
    /// accepts arbitrary caller input while local.
    pub fn request_exit(&mut self, edge: WireEdge, position: Point) -> (result: Result<
        (),
        SeamlessError,
    >)
        ensures
            extends(old(self).calls(), final(self).calls()),
            extends(old(self).exchanges(), final(self).exchanges()),
            exit_requested(
                old(self).state(),
                edge,
                position,
                added(old(self).calls(), final(self).calls()),
                added(old(self).exchanges(), final(self).exchanges()),
                final(self).state(),
                result,
            ),
            extends(old(self).record(), final(self).record()),
            added(old(self).record(), final(self).record()) == exit_order(
                added(old(self).calls(), final(self).calls()),
                added(old(self).exchanges(), final(self).exchanges()),
            ),
    {
        if !self.remote_active {
            return Err(SeamlessError::InputBeforeEntry);
        }
        if let Err(error) = self.send(
            Message::ExitRequest { edge, x: position.x, y: position.y },
        ) {
            return Err(SeamlessError::Transport(error));
        }
        self.return_pending = true;
        self.close()
    }

    /// Releases virtual pressed state even after an error or disconnect.
    pub fn close(&mut self) -> (result: Result<(), SeamlessError>)
        ensures
            final(self).state() == old(self).state().released(),
            final(self).channel() == old(self).channel(),
            extends(old(self).calls(), final(self).calls()),
            ({
                let calls = added(old(self).calls(), final(self).calls());
                &&& calls.len() == 1 && calls[0].0 == InjectCall::Release
                &&& result == backend_outcome(calls[0].1)
                &&& final(self).record() == old(self).record().push(Happened::Here(calls[0]))
            }),
    {
        self.remote_active = false;
        self.entry = None;
        from_backend(self.ask(InjectCall::Release))
    }

    pub fn into_parts(self) -> (parts: (I, T))
        ensures
            parts.0 == self.backend(),
            parts.1 == self.channel(),
    {
        (self.injector, self.transport)
    }
}

/// Input reaches the injector only while an accepted entry is active.
pub proof fn law_input_needs_an_accepted_entry(
    before: ClientView,
    message: Message,
    calls: Seq<(InjectCall, Result<(), BackendError>)>,
    exchanges: Seq<Exchange>,
    after: ClientView,
    result: Result<(), SeamlessError>,
)
    requires
        handled(before, message, calls, exchanges, after, result),
        !before.remote_active,
    ensures
        forall|i: int|
            0 <= i < calls.len() ==> (#[trigger] calls[i]).0 is Prepare || calls[i].0 is Release,
{
}

/// An entry becomes active only when it was prepared and its acknowledgement
/// was sent, and that entry is the one the host asked for.
pub proof fn law_entry_is_acknowledged_before_it_is_active(
    before: ClientView,
    message: Message,
    calls: Seq<(InjectCall, Result<(), BackendError>)>,
    exchanges: Seq<Exchange>,
    after: ClientView,
    result: Result<(), SeamlessError>,
)
    requires
        handled(before, message, calls, exchanges, after, result),
        !before.remote_active,
        after.remote_active,
    ensures
        message matches Message::Enter { x, y } && after.entry == Some(Point { x, y })
            && calls.len() == 1 && calls[0].0 == InjectCall::Prepare(Point { x, y })
            && calls[0].1 is Ok && exchanges.len() == 1 && (exchanges[0] matches Exchange::Sent(
            reply,
            sent,
        ) && reply == Message::EnterAck && sent is Ok),
{
}

/// One use of a client, with what it led to.
pub enum ClientAct {
    /// [`SeamlessClient::handle`]
    Handled {
        message: Message,
        calls: Seq<(InjectCall, Result<(), BackendError>)>,
        exchanges: Seq<Exchange>,
        result: Result<(), SeamlessError>,
    },
    /// [`SeamlessClient::request_exit`]
    Exit {
        edge: WireEdge,
        position: Point,
        calls: Seq<(InjectCall, Result<(), BackendError>)>,
        exchanges: Seq<Exchange>,
        result: Result<(), SeamlessError>,
    },
    /// [`SeamlessClient::close`]
    Closed,
    /// [`SeamlessClient::receive_next`] or [`SeamlessClient::poll_next`]
    Looked,
}

/// Whether a use of a client takes it from one state to another.
pub open spec fn acted(before: ClientView, act: ClientAct, after: ClientView) -> bool {
    match act {
        ClientAct::Handled { message, calls, exchanges, result } => handled(
            before,
            message,
            calls,
            exchanges,
            after,
            result,
        ),
        ClientAct::Exit { edge, position, calls, exchanges, result } => exit_requested(
            before,
            edge,
            position,
            calls,
            exchanges,
            after,
            result,
        ),
        ClientAct::Closed => after == before.released(),
        ClientAct::Looked => after == before,
    }
}

/// The entry that a use of a client acknowledged to the host.
pub open spec fn acknowledged(act: ClientAct) -> Option<Point> {
    match act {
        ClientAct::Handled { message: Message::Enter { x, y }, exchanges, .. } => if exchanges.len()
            == 1 && (exchanges[0] matches Exchange::Sent(reply, sent) && reply is EnterAck
            && sent is Ok) {
            Some(Point { x, y })
        } else {
            None
        },
        _ => None,
    }
}

/// The last entry that was acknowledged.
pub open spec fn last_acknowledged(acts: Seq<ClientAct>) -> Option<Point>
    decreases acts.len(),
{
    if acts.len() == 0 {
        None
    } else if acknowledged(acts.last()) is Some {
        acknowledged(acts.last())
    } else {
        last_acknowledged(acts.drop_last())
    }
}

/// However a client was used, it has an entry exactly while input is let in,
/// and that entry is the last one that it acknowledged.
pub proof fn law_entry_is_the_last_acknowledged(states: Seq<ClientView>, acts: Seq<ClientAct>)
    requires
        states.len() == acts.len() + 1,
        states[0] == ClientView::fresh(),
        forall|i: int| 0 <= i < acts.len() ==> acted(states[i], #[trigger] acts[i], states[i + 1]),
    ensures
        states.last().remote_active <==> states.last().entry is Some,
        states.last().entry is Some ==> states.last().entry == last_acknowledged(acts),
    decreases acts.len(),
{
    if acts.len() > 0 {
        let n = acts.len() - 1;
        let earlier = states.drop_last();
        let before = acts.drop_last();
        assert forall|i: int| 0 <= i < before.len() implies acted(
            earlier[i],
            #[trigger] before[i],
            earlier[i + 1],
        ) by {
            assert(before[i] == acts[i]);
        }
        law_entry_is_the_last_acknowledged(earlier, before);
        assert(acted(states[n], acts[n], states[n + 1]));
    }
}

/// A message that is refused leaves nothing pressed: everything is released
/// and no input is let in until the next entry.
pub proof fn law_refusal_releases(
    before: ClientView,
    message: Message,
    calls: Seq<(InjectCall, Result<(), BackendError>)>,
    exchanges: Seq<Exchange>,
    after: ClientView,
    result: Result<(), SeamlessError>,
)
    requires
        handled(before, message, calls, exchanges, after, result),
        result matches Err(error) && (error is UnexpectedControl || error is InputBeforeEntry),
    ensures
        calls.len() == 1,
        calls[0].0 is Release,
        exchanges.len() == 0,
        !after.remote_active,
        after.entry is None,
{
}

/// Input that was on its way when the client asked the host to take over is
/// dropped without ending the session.
pub proof fn law_stale_input_is_dropped(
    before: ClientView,
    message: Message,
    calls: Seq<(InjectCall, Result<(), BackendError>)>,
    exchanges: Seq<Exchange>,
    after: ClientView,
    result: Result<(), SeamlessError>,
)
    requires
        handled(before, message, calls, exchanges, after, result),
        message is Input || message is PointerMotion || message is Touch,
        !before.remote_active,
        before.return_pending,
    ensures
        calls.len() == 0,
        exchanges.len() == 0,
        result is Ok,
        after == before,
{
}

/// `std::time::Instant`.
#[verifier::external_type_specification]
#[verifier::external_body]
pub struct ExInstant(std::time::Instant);

/// `std::time::Instant::now`: the machine's clock. Nothing is claimed of it.
pub assume_specification[ std::time::Instant::now ]() -> (now: std::time::Instant)
;

/// `std::time::Instant::elapsed`: time since then by the machine's clock.
/// Nothing is claimed of it.
pub assume_specification[ std::time::Instant::elapsed ](
    since: &std::time::Instant,
) -> (elapsed: std::time::Duration)
;

/// `core::time::Duration::as_millis`. Nothing is claimed of it: the durations
/// it is used on are clock readings.
pub assume_specification[ std::time::Duration::as_millis ](
    duration: &std::time::Duration,
) -> (millis: u128)
;

/// What a message that arrives during forwarding asks of the host.
pub enum ControlStep {
    Ignore,
    /// Take input back, with the pointer at this position.
    Return(Point),
    /// Release everything because the peer said so.
    Close,
    /// Release everything and report the message.
    Refuse,
}

pub open spec fn local_edge(edge: WireEdge) -> Edge {
    match edge {
        WireEdge::Left => Edge::Left,
        WireEdge::Right => Edge::Right,
    }
}

/// The step that a message leads to.
pub open spec fn control_step(
    controller: crate::handoff::HandoffView,
    message: Message,
) -> ControlStep {
    match message {
        Message::Heartbeat | Message::DiagnosticPong { .. } => ControlStep::Ignore,
        Message::ExitRequest { edge, x, y } => match controller.on_peer_exit(
            local_edge(edge),
            Point { x, y },
        ).action {
            Some(HandoffAction::ReturnToLocal { at }) => ControlStep::Return(at),
            _ => ControlStep::Refuse,
        },
        Message::HandoffRelease | Message::ReleaseAll | Message::Goodbye => ControlStep::Close,
        _ => ControlStep::Refuse,
    }
}

/// Whether a handoff is under way.
pub open spec fn is_remote(controller: crate::handoff::HandoffView) -> bool {
    controller.state is RemoteActive
}

/// The controller with input back at home.
pub open spec fn at_home(controller: crate::handoff::HandoffView) -> crate::handoff::HandoffView {
    controller.with_state(HandoffState::Local)
}

/// Whether closing from this state leads to these calls and exchanges: the
/// local release, and a best-effort release at the peer if it may hold input.
pub open spec fn closing(
    controller: crate::handoff::HandoffView,
    calls: Seq<CaptureCall>,
    exchanges: Seq<Exchange>,
) -> bool {
    &&& calls.len() == 1
    &&& calls[0] matches CaptureCall::Released(restore, _) && restore is None
    &&& if controller.state is Local {
        exchanges.len() == 0
    } else {
        &&& exchanges.len() == 1
        &&& exchanges[0] matches Exchange::Sent(message, _) && message == Message::HandoffRelease
    }
}

/// The controller after a poll that gave `polled`.
pub open spec fn polled_controller(
    controller: crate::handoff::HandoffView,
    polled: Result<Option<Message>, TransportError>,
) -> crate::handoff::HandoffView {
    match polled {
        Ok(Some(message)) => match control_step(controller, message) {
            ControlStep::Ignore => controller,
            _ => at_home(controller),
        },
        _ => controller,
    }
}

/// Whether these calls and exchanges, which follow a poll that gave `polled`,
/// and this result are what it must lead to.
pub open spec fn polled_effects(
    controller: crate::handoff::HandoffView,
    polled: Result<Option<Message>, TransportError>,
    calls: Seq<CaptureCall>,
    exchanges: Seq<Exchange>,
    result: Result<(), SeamlessError>,
) -> bool {
    match polled {
        Err(error) => {
            &&& calls.len() == 0
            &&& exchanges.len() == 0
            &&& result == Err::<(), SeamlessError>(SeamlessError::Transport(error))
        },
        Ok(None) => calls.len() == 0 && exchanges.len() == 0 && result is Ok,
        Ok(Some(message)) => match control_step(controller, message) {
            ControlStep::Ignore => calls.len() == 0 && exchanges.len() == 0 && result is Ok,
            ControlStep::Return(at) => {
                &&& calls.len() == 1
                &&& calls[0] matches CaptureCall::Returned(restore, returned) && restore == at
                    && result == backend_outcome(returned) && if returned is Ok {
                    &&& exchanges.len() == 1
                    &&& exchanges[0] matches Exchange::Sent(reply, _) && reply
                        == Message::HandoffRelease
                } else {
                    exchanges.len() == 0
                }
            },
            ControlStep::Close => {
                &&& closing(controller, calls, exchanges)
                &&& calls[0] matches CaptureCall::Released(_, released) && result
                    == backend_outcome(released)
            },
            ControlStep::Refuse => {
                &&& closing(controller, calls, exchanges)
                &&& result == Err::<(), SeamlessError>(SeamlessError::UnexpectedControl(message))
            },
        },
    }
}

/// Whether these calls, these exchanges, this new controller and this result
/// are what one attempt to activate must lead to.
pub open spec fn activation(
    before: crate::handoff::HandoffView,
    calls: Seq<CaptureCall>,
    exchanges: Seq<Exchange>,
    after: crate::handoff::HandoffView,
    result: Result<(), SeamlessError>,
) -> bool {
    &&& calls.len() >= 1
    &&& calls[0] matches CaptureCall::Waited(waited) && match waited {
        Err(error) => {
            &&& calls.len() == 1 && exchanges.len() == 0
            &&& after == before
            &&& result == Err::<(), SeamlessError>(SeamlessError::Backend(error))
        },
        Ok(point) => match before.on_local_edge(point).action {
            Some(HandoffAction::RequestPeerEntry { entry }) => requested(
                before.with_state(before.on_local_edge(point).state),
                entry,
                calls,
                exchanges,
                after,
                result,
            ),
            _ => {
                &&& calls.len() == 1 && exchanges.len() == 0
                &&& after == before
                &&& result == Err::<(), SeamlessError>(SeamlessError::InvalidActivation)
            },
        },
    }
}

/// The part of [`activation`] that follows an accepted barrier point.
pub open spec fn requested(
    pending: crate::handoff::HandoffView,
    entry: Point,
    calls: Seq<CaptureCall>,
    exchanges: Seq<Exchange>,
    after: crate::handoff::HandoffView,
    result: Result<(), SeamlessError>,
) -> bool {
    &&& exchanges.len() >= 1
    &&& exchanges[0] matches Exchange::Sent(request, sent) && request == Message::Enter {
        x: entry.x,
        y: entry.y,
    } && if sent is Err {
        &&& calls.len() == 1 && exchanges.len() == 1
        &&& after == pending
        &&& result == transport_outcome(sent)
    } else {
        &&& exchanges.len() >= 2
        &&& exchanges[1] matches Exchange::Received(received) && match received {
            Err(error) => {
                &&& calls.len() == 1 && exchanges.len() == 2
                &&& after == pending
                &&& result == Err::<(), SeamlessError>(SeamlessError::Transport(error))
            },
            Ok(Message::EnterAck) => {
                &&& calls.len() == 2 && exchanges.len() == 2
                &&& after == pending.with_state(pending.on_ack().state)
                &&& calls[1] matches CaptureCall::Began(began) && result == backend_outcome(began)
            },
            Ok(Message::EnterRejected) => {
                &&& calls.len() == 2 && exchanges.len() == 2
                &&& after == at_home(pending)
                &&& calls[1] matches CaptureCall::Returned(restore, returned) && pending.on_reject().action
                    == Some(HandoffAction::WarpLocalPointer { at: restore }) && result
                    == backend_outcome(returned)
            },
            Ok(message) => {
                &&& closing(pending, calls.skip(1), exchanges.skip(2))
                &&& after == at_home(pending)
                &&& result == Err::<(), SeamlessError>(SeamlessError::UnexpectedControl(message))
            },
        }
    }
}

/// The message that carries one captured input.
pub open spec fn carried(input: CapturedInput) -> Message {
    match input {
        CapturedInput::Motion { dx, dy } => Message::PointerMotion { dx, dy },
        CapturedInput::Event(event) => Message::Input(event),
        CapturedInput::Touch(event) => Message::Touch(event),
    }
}

/// Whether these exchanges and this result are what forwarding `input` must
/// lead to.
pub open spec fn forwarding(
    controller: crate::handoff::HandoffView,
    input: CapturedInput,
    exchanges: Seq<Exchange>,
    result: Result<(), SeamlessError>,
) -> bool {
    if is_remote(controller) {
        &&& exchanges.len() == 1
        &&& exchanges[0] matches Exchange::Sent(message, sent) && message == carried(input)
            && result == transport_outcome(sent)
    } else {
        &&& exchanges.len() == 0
        &&& result == Err::<(), SeamlessError>(SeamlessError::InputBeforeAcknowledgement)
    }
}

/// Whether these exchanges and this result are what an idle interval may lead
/// to: nothing, or one heartbeat.
pub open spec fn idling(exchanges: Seq<Exchange>, result: Result<(), SeamlessError>) -> bool {
    if exchanges.len() == 0 {
        result is Ok
    } else {
        &&& exchanges.len() == 1
        &&& exchanges[0] matches Exchange::Sent(message, sent) && message == Message::Heartbeat
            && result == transport_outcome(sent)
    }
}

/// The round-trip probes of a host.
pub struct ProbeView {
    /// Number of the last probe.
    pub last: u32,
    /// The probe that still waits for its answer.
    pub awaited: Option<u32>,
    /// How many answers were timed and not yet taken.
    pub timed: nat,
}

impl ProbeView {
    /// The number of the next probe.
    pub open spec fn next(self) -> u32 {
        ((self.last + 1) % 0x1_0000_0000) as u32
    }

    /// The probes after a poll that gave `polled`. Any answer ends the wait; the
    /// one that was awaited is timed.
    pub open spec fn heard(self, polled: Result<Option<Message>, TransportError>) -> ProbeView {
        match polled {
            Ok(Some(Message::DiagnosticPong { sequence })) => ProbeView {
                awaited: None,
                timed: if self.awaited == Some(sequence) {
                    self.timed + 1
                } else {
                    self.timed
                },
                ..self
            },
            _ => self,
        }
    }

    /// The probes after the next one was handed to the channel.
    pub open spec fn sent(self, outcome: Result<(), TransportError>) -> ProbeView {
        ProbeView {
            last: self.next(),
            awaited: if outcome is Ok {
                Some(self.next())
            } else {
                self.awaited
            },
            ..self
        }
    }
}

/// Whether these exchanges, these new probes and this result are what looking
/// after the probes may lead to: nothing, or the next probe if none is awaited.
pub open spec fn probing_round(
    before: ProbeView,
    exchanges: Seq<Exchange>,
    after: ProbeView,
    result: Result<(), SeamlessError>,
) -> bool {
    if exchanges.len() == 0 {
        after == before && result is Ok
    } else {
        &&& before.awaited is None
        &&& exchanges.len() == 1
        &&& exchanges[0] matches Exchange::Sent(message, sent) && message
            == (Message::DiagnosticPing { sequence: before.next() }) && after == before.sent(sent)
            && result == transport_outcome(sent)
    }
}

/// Whether these calls, these exchanges, this new controller, these new probes
/// and this result are what reading and forwarding one input must lead to.
pub open spec fn read_round(
    ready: crate::handoff::HandoffView,
    probes: ProbeView,
    timeout: std::time::Duration,
    calls: Seq<CaptureCall>,
    exchanges: Seq<Exchange>,
    after: crate::handoff::HandoffView,
    probes_after: ProbeView,
    result: Result<(), SeamlessError>,
) -> bool {
    &&& calls.len() >= 1
    &&& calls[0] matches CaptureCall::Read(waited, read) && waited == timeout && match read {
        Err(error) => {
            &&& calls.len() == 1 && exchanges.len() == 0
            &&& after == ready
            &&& probes_after == probes
            &&& result == Err::<(), SeamlessError>(SeamlessError::Backend(error))
        },
        Ok(None) => {
            &&& calls.len() == 1
            &&& after == ready
            &&& probes_after == probes
            &&& idling(exchanges, result)
        },
        Ok(Some(input)) => {
            &&& exchanges.len() >= 1
            &&& exchanges[0] matches Exchange::Polled(again) && {
                let last = polled_controller(ready, again);
                &&& after == last
                &&& probes_after == probes.heard(again)
                &&& if again is Err || !is_remote(last) {
                    polled_effects(ready, again, calls.skip(1), exchanges.skip(1), result)
                } else {
                    &&& calls.len() == 1
                    &&& forwarding(last, input, exchanges.skip(1), result)
                }
            }
        },
    }
}

/// Whether these calls, these exchanges, this new controller, these new probes
/// and this result are what one round of forwarding must lead to: a look for
/// control messages, a probe if one is due, and reading.
pub open spec fn forward_round(
    before: crate::handoff::HandoffView,
    probes: ProbeView,
    timeout: std::time::Duration,
    calls: Seq<CaptureCall>,
    exchanges: Seq<Exchange>,
    after: crate::handoff::HandoffView,
    probes_after: ProbeView,
    result: Result<(), SeamlessError>,
) -> bool {
    &&& exchanges.len() >= 1
    &&& exchanges[0] matches Exchange::Polled(polled) && {
        let ready = polled_controller(before, polled);
        let heard = probes.heard(polled);
        if polled is Err || !is_remote(ready) {
            &&& polled_effects(before, polled, calls, exchanges.skip(1), result)
            &&& after == ready
            &&& probes_after == heard
        } else if sends_probe(exchanges) {
            &&& heard.awaited is None
            &&& exchanges[1] matches Exchange::Sent(message, sent) && message
                == (Message::DiagnosticPing { sequence: heard.next() }) && if sent is Err {
                &&& calls.len() == 0 && exchanges.len() == 2
                &&& after == ready
                &&& probes_after == heard.sent(sent)
                &&& result == transport_outcome(sent)
            } else {
                read_round(
                    ready,
                    heard.sent(sent),
                    timeout,
                    calls,
                    exchanges.skip(2),
                    after,
                    probes_after,
                    result,
                )
            }
        } else {
            read_round(
                ready,
                heard,
                timeout,
                calls,
                exchanges.skip(1),
                after,
                probes_after,
                result,
            )
        }
    }
}

/// Host-side handoff coordinator. The caller supplies a controller configured
/// with its actual local and peer logical rectangles.
pub struct SeamlessHost<C, T> {
    controller: HandoffController,
    capture: C,
    transport: T,
    last_peer_activity: std::time::Instant,
    last_latency_probe: std::time::Instant,
    next_probe_sequence: u32,
    pending_probe: Option<(u32, std::time::Instant)>,
    round_trips: Vec<std::time::Duration>,
    record: Ghost<Seq<Happened<CaptureCall>>>,
}

impl<C: CaptureBackend, T: MessageTransport> SeamlessHost<C, T> {
    pub closed spec fn controller(&self) -> crate::handoff::HandoffView {
        self.controller@
    }

    pub closed spec fn backend(&self) -> C {
        self.capture
    }

    pub closed spec fn channel(&self) -> T {
        self.transport
    }

    pub closed spec fn probes(&self) -> ProbeView {
        ProbeView {
            last: self.next_probe_sequence,
            awaited: match self.pending_probe {
                Some((sequence, _)) => Some(sequence),
                None => None,
            },
            timed: self.round_trips@.len(),
        }
    }

    /// What the host did since it was made, in order.
    pub closed spec fn record(&self) -> Seq<Happened<CaptureCall>> {
        self.record@
    }

    pub open spec fn calls(&self) -> Seq<CaptureCall> {
        self.backend().calls()
    }

    pub open spec fn exchanges(&self) -> Seq<Exchange> {
        self.channel().exchanges()
    }

    pub fn new(controller: HandoffController, capture: C, transport: T) -> (host: Self)
        ensures
            host.controller() == controller@,
            host.backend() == capture,
            host.channel() == transport,
            host.probes() == (ProbeView { last: 0, awaited: None, timed: 0 }),
            host.record().len() == 0,
    {
        SeamlessHost {
            controller,
            capture,
            transport,
            last_peer_activity: std::time::Instant::now(),
            last_latency_probe: std::time::Instant::now(),
            next_probe_sequence: 0,
            pending_probe: None,
            round_trips: Vec::new(),
            record: Ghost(Seq::empty()),
        }
    }

    /// Sends a message to the peer.
    fn send(&mut self, message: Message) -> (result: Result<(), TransportError>)
        ensures
            final(self).controller() == old(self).controller(),
            final(self).backend() == old(self).backend(),
            final(self).probes() == old(self).probes(),
            final(self).exchanges() == old(self).exchanges().push(Exchange::Sent(message, result)),
            final(self).record() == old(self).record().push(
                Happened::Channel(Exchange::Sent(message, result)),
            ),
    {
        let result = self.transport.send(message);
        proof {
            self.record@ = self.record@.push(Happened::Channel(Exchange::Sent(message, result)));
        }
        result
    }

    /// Gives the pointer back at `restore`, with the edge still armed.
    fn give_back(&mut self, restore: Point) -> (result: Result<(), BackendError>)
        ensures
            final(self).controller() == old(self).controller(),
            final(self).channel() == old(self).channel(),
            final(self).probes() == old(self).probes(),
            final(self).calls() == old(self).calls().push(CaptureCall::Returned(restore, result)),
            final(self).record() == old(self).record().push(
                Happened::Here(CaptureCall::Returned(restore, result)),
            ),
    {
        let result = self.capture.return_to_local(restore);
        proof {
            self.record@ =
            self.record@.push(Happened::Here(CaptureCall::Returned(restore, result)));
        }
        result
    }

    pub fn state(&self) -> (state: HandoffState)
        ensures
            state == self.controller().state,
    {
        self.controller.state()
    }

    /// Waits for the barrier activation and establishes remote ownership. No
    /// input is read or sent until the peer's encrypted acknowledgement.
    pub fn activate_once(&mut self) -> (result: Result<(), SeamlessError>)
        requires
            old(self).controller().wf(),
        ensures
            final(self).controller().wf(),
            final(self).probes() == old(self).probes(),
            extends(old(self).calls(), final(self).calls()),
            extends(old(self).exchanges(), final(self).exchanges()),
            activation(
                old(self).controller(),
                added(old(self).calls(), final(self).calls()),
                added(old(self).exchanges(), final(self).exchanges()),
                final(self).controller(),
                result,
            ),
            extends(old(self).record(), final(self).record()),
            added(old(self).record(), final(self).record()) == activation_order(
                added(old(self).calls(), final(self).calls()),
                added(old(self).exchanges(), final(self).exchanges()),
            ),
    {
        let waited = self.capture.wait_for_left_activation();
        proof {
            self.record@ = self.record@.push(Happened::Here(CaptureCall::Waited(waited)));
        }
        let point = match waited {
            Ok(point) => point,
            Err(error) => {
                return Err(SeamlessError::Backend(error));
            },
        };
        let transition = self.controller.local_edge_activated(point);
        let entry = match transition.action {
            Some(HandoffAction::RequestPeerEntry { entry }) => entry,
            _ => {
                return Err(SeamlessError::InvalidActivation);
            },
        };
        if let Err(error) = self.send(Message::Enter { x: entry.x, y: entry.y }) {
            return Err(SeamlessError::Transport(error));
        }
        let received = self.transport.receive();
        proof {
            self.record@ = self.record@.push(Happened::Channel(Exchange::Received(received)));
        }
        match received {
            Err(error) => Err(SeamlessError::Transport(error)),
            Ok(Message::EnterAck) => match self.controller.peer_entry_acknowledged().action {
                Some(HandoffAction::BeginRemoteInput) => {
                    let began = self.capture.begin_remote_input();
                    proof {
                        self.record@ = self.record@.push(Happened::Here(CaptureCall::Began(began)));
                    }
                    from_backend(began)
                },
                _ => Err(SeamlessError::UnexpectedControl(Message::EnterAck)),
            },
            Ok(Message::EnterRejected) => match self.controller.peer_entry_rejected().action {
                Some(HandoffAction::WarpLocalPointer { at }) => from_backend(self.give_back(at)),
                _ => Err(SeamlessError::UnexpectedControl(Message::EnterRejected)),
            },
            Ok(message) => {
                let ghost calls = self.calls();
                let ghost exchanges = self.exchanges();
                let ghost record = self.record();
                let _ = self.close();
                proof {
                    lemma_added(old(self).record(), record, self.record());
                    lemma_added(old(self).calls(), calls, self.calls());
                    lemma_added(old(self).exchanges(), exchanges, self.exchanges());
                    assert(added(old(self).record(), self.record()) =~= activation_order(
                        added(old(self).calls(), self.calls()),
                        added(old(self).exchanges(), self.exchanges()),
                    ));
                    lemma_kept(old(self).calls(), calls, self.calls());
                    lemma_kept(old(self).exchanges(), exchanges, self.exchanges());
                    assert(added(old(self).calls(), self.calls()).skip(1) =~= added(
                        calls,
                        self.calls(),
                    ));
                    assert(added(old(self).exchanges(), self.exchanges()).skip(2) =~= added(
                        exchanges,
                        self.exchanges(),
                    ));
                }
                Err(SeamlessError::UnexpectedControl(message))
            },
        }
    }

    /// Forwards one event only while a remote-active handoff is owned. Call
    /// this repeatedly from the dispatch loop.
    pub fn forward(&mut self, input: CapturedInput) -> (result: Result<(), SeamlessError>)
        ensures
            final(self).controller() == old(self).controller(),
            final(self).backend() == old(self).backend(),
            final(self).probes() == old(self).probes(),
            extends(old(self).exchanges(), final(self).exchanges()),
            forwarding(
                old(self).controller(),
                input,
                added(old(self).exchanges(), final(self).exchanges()),
                result,
            ),
            extends(old(self).record(), final(self).record()),
            added(old(self).record(), final(self).record()) == over::<CaptureCall>(
                added(old(self).exchanges(), final(self).exchanges()),
                0,
                1,
            ),
    {
        if !self.is_remote_active() {
            return Err(SeamlessError::InputBeforeAcknowledgement);
        }
        let message = match input {
            CapturedInput::Motion { dx, dy } => Message::PointerMotion { dx, dy },
            CapturedInput::Event(event) => Message::Input(event),
            CapturedInput::Touch(event) => Message::Touch(event),
        };
        if let Err(error) = self.send(message) {
            return Err(SeamlessError::Transport(error));
        }
        self.last_peer_activity = std::time::Instant::now();
        Ok(())
    }

    fn is_remote_active(&self) -> (active: bool)
        ensures
            active == is_remote(self.controller()),
    {
        matches!(self.controller.state(), HandoffState::RemoteActive { .. })
    }

    /// Reads and forwards one capture event, emitting a heartbeat for an idle
    /// interval. Transport failure is handled by the caller via [`Self::close`]
    /// so local input is always released first.
    pub fn forward_next(&mut self, timeout: std::time::Duration) -> (result: Result<
        (),
        SeamlessError,
    >)
        requires
            old(self).controller().wf(),
        ensures
            final(self).controller().wf(),
            extends(old(self).calls(), final(self).calls()),
            extends(old(self).exchanges(), final(self).exchanges()),
            forward_round(
                old(self).controller(),
                old(self).probes(),
                timeout,
                added(old(self).calls(), final(self).calls()),
                added(old(self).exchanges(), final(self).exchanges()),
                final(self).controller(),
                final(self).probes(),
                result,
            ),
            extends(old(self).record(), final(self).record()),
            added(old(self).record(), final(self).record()) == round_order(
                added(old(self).calls(), final(self).calls()),
                added(old(self).exchanges(), final(self).exchanges()),
            ),
    {
        let result = self.poll_control();
        proof {
            let exchanges = added(old(self).exchanges(), self.exchanges());
            assert(exchanges[0] is Polled);
            assert(exchanges.len() == exchanges.skip(1).len() + 1);
            assert(exchanges.len() >= 2 ==> exchanges[1] == exchanges.skip(1)[0]);
            lemma_round_ends(added(old(self).calls(), self.calls()), exchanges);
        }
        if result.is_err() || !self.is_remote_active() {
            return result;
        }
        let ghost exchanges0 = self.exchanges();
        let ghost record0 = self.record();
        let ghost first = added(old(self).exchanges(), exchanges0)[0];
        proof {
            assert(self.calls() =~= old(self).calls());
            assert(added(old(self).exchanges(), exchanges0) =~= seq![first]);
            assert(added(old(self).record(), record0) =~= over::<CaptureCall>(seq![first], 0, 1));
        }
        let result = self.maybe_send_latency_probe();
        let ghost exchanges1 = self.exchanges();
        let ghost record1 = self.record();
        let ghost lead = seq![first] + added(exchanges0, exchanges1);
        proof {
            let probe = added(exchanges0, exchanges1);
            assert(probe.len() <= 1);
            lemma_added(old(self).exchanges(), exchanges0, exchanges1);
            lemma_added(old(self).record(), record0, record1);
            assert(over::<CaptureCall>(lead, 0, 1) =~= over::<CaptureCall>(seq![first], 0, 1));
            assert(over::<CaptureCall>(lead, 1, 2) =~= over::<CaptureCall>(probe, 0, 1));
            assert(probe.len() == 1 ==> lead[1] == probe[0]);
            if result is Err {
                let calls = added(old(self).calls(), self.calls());
                assert(lead + Seq::<Exchange>::empty() =~= lead);
                assert(calls =~= Seq::<CaptureCall>::empty());
                lemma_round_reads(lead, calls, Seq::empty());
                assert(read_order(calls, Seq::<Exchange>::empty()) =~= Seq::empty());
                assert(record1.skip(old(self).record().len() as int) =~= over::<CaptureCall>(
                    lead,
                    0,
                    1,
                ) + over::<CaptureCall>(lead, 1, 2) + Seq::empty());
            }
        }
        if result.is_err() {
            return result;
        }
        let result = self.forward_read(timeout);
        proof {
            let rest = added(exchanges1, self.exchanges());
            let all = added(old(self).exchanges(), self.exchanges());
            lemma_added(old(self).exchanges(), exchanges1, self.exchanges());
            lemma_added(old(self).record(), record1, self.record());
            assert(all == lead + rest);
            assert(all.skip(lead.len() as int) =~= rest);
            assert(lead.len() == 1 && rest.len() > 0 ==> all[1] == rest[0]);
            assert(lead.len() == 2 ==> all[1] == lead[1]);
            assert(rest.len() > 0 ==> !(rest[0] matches Exchange::Sent(message, _)
                && message is DiagnosticPing));
            lemma_round_reads(lead, added(old(self).calls(), self.calls()), rest);
        }
        result
    }

    /// Sends the next probe if one is due by the clock.
    fn maybe_send_latency_probe(&mut self) -> (result: Result<(), SeamlessError>)
        ensures
            final(self).controller() == old(self).controller(),
            final(self).backend() == old(self).backend(),
            extends(old(self).exchanges(), final(self).exchanges()),
            probing_round(
                old(self).probes(),
                added(old(self).exchanges(), final(self).exchanges()),
                final(self).probes(),
                result,
            ),
            extends(old(self).record(), final(self).record()),
            added(old(self).record(), final(self).record()) == over::<CaptureCall>(
                added(old(self).exchanges(), final(self).exchanges()),
                0,
                1,
            ),
    {
        let since: u128 = self.last_latency_probe.elapsed().as_millis();
        self.latency_probe(since)
    }

    /// Sends the next probe if one is due: the last one was answered, and was
    /// sent at least a second ago.
    pub fn latency_probe(&mut self, since_last_ms: u128) -> (result: Result<(), SeamlessError>)
        ensures
            final(self).controller() == old(self).controller(),
            final(self).backend() == old(self).backend(),
            extends(old(self).exchanges(), final(self).exchanges()),
            probing_round(
                old(self).probes(),
                added(old(self).exchanges(), final(self).exchanges()),
                final(self).probes(),
                result,
            ),
            added(old(self).exchanges(), final(self).exchanges()).len() == if old(
                self,
            ).probes().awaited is None && since_last_ms >= 1_000 {
                1int
            } else {
                0
            },
            extends(old(self).record(), final(self).record()),
            added(old(self).record(), final(self).record()) == over::<CaptureCall>(
                added(old(self).exchanges(), final(self).exchanges()),
                0,
                1,
            ),
    {
        if self.pending_probe.is_some() || since_last_ms < 1_000 {
            return Ok(());
        }
        self.next_probe_sequence = self.next_probe_sequence.wrapping_add(1);
        let sequence: u32 = self.next_probe_sequence;
        if let Err(error) = self.send(Message::DiagnosticPing { sequence }) {
            return Err(SeamlessError::Transport(error));
        }
        let now = std::time::Instant::now();
        self.pending_probe = Some((sequence, now));
        self.last_latency_probe = now;
        Ok(())
    }

    /// Takes the round-trip times that were measured since the last call.
    pub fn take_round_trips(&mut self) -> (times: Vec<std::time::Duration>)
        ensures
            times@.len() == old(self).probes().timed,
            final(self).probes() == (ProbeView { timed: 0, ..old(self).probes() }),
            final(self).controller() == old(self).controller(),
            final(self).backend() == old(self).backend(),
            final(self).channel() == old(self).channel(),
            final(self).record() == old(self).record(),
    {
        let mut times: Vec<std::time::Duration> = Vec::new();
        std::mem::swap(&mut times, &mut self.round_trips);
        times
    }

    /// Reads one input and forwards it, unless a message that came meanwhile
    /// ends the handoff.
    fn forward_read(&mut self, timeout: std::time::Duration) -> (result: Result<(), SeamlessError>)
        requires
            old(self).controller().wf(),
        ensures
            final(self).controller().wf(),
            extends(old(self).calls(), final(self).calls()),
            extends(old(self).exchanges(), final(self).exchanges()),
            read_round(
                old(self).controller(),
                old(self).probes(),
                timeout,
                added(old(self).calls(), final(self).calls()),
                added(old(self).exchanges(), final(self).exchanges()),
                final(self).controller(),
                final(self).probes(),
                result,
            ),
            extends(old(self).record(), final(self).record()),
            added(old(self).record(), final(self).record()) == read_order(
                added(old(self).calls(), final(self).calls()),
                added(old(self).exchanges(), final(self).exchanges()),
            ),
    {
        let read = self.capture.next_input(timeout);
        let ghost call = CaptureCall::Read(timeout, read);
        proof {
            self.record@ = self.record@.push(Happened::Here(call));
            assert(added(old(self).record(), self.record()) =~= seq![Happened::Here(call)]);
            assert(added(old(self).calls(), self.calls()) =~= seq![call]);
        }
        let ghost calls1 = self.calls();
        let ghost record1 = self.record();
        match read {
            Err(error) => {
                proof {
                    let none = added(old(self).exchanges(), self.exchanges());
                    assert(none =~= Seq::<Exchange>::empty());
                    lemma_read_idles(call, none);
                    assert(seq![Happened::Here(call)] + over(none, 0, 1) =~= seq![
                        Happened::Here(call),
                    ]);
                }
                Err(SeamlessError::Backend(error))
            },
            Ok(Some(input)) => {
                // An exit request may have arrived while the read waited.
                // Check again before emitting another remote input event.
                let result = self.poll_control();
                let ghost exchanges1 = self.exchanges();
                let ghost record2 = self.record();
                proof {
                    let exchanges = added(old(self).exchanges(), self.exchanges());
                    let calls = added(calls1, self.calls());
                    lemma_added(old(self).record(), record1, self.record());
                    lemma_added(old(self).calls(), calls1, self.calls());
                    assert(exchanges[0] is Polled);
                    assert(added(old(self).calls(), self.calls()).skip(1) =~= calls);
                    assert(calls.len() <= 1);
                    assert(exchanges.len() == exchanges.skip(1).len() + 1);
                    assert(exchanges.len() <= 2);
                    lemma_read_goes_on(call, calls, exchanges);
                }
                if result.is_err() || !self.is_remote_active() {
                    return result;
                }
                let result = self.forward(input);
                proof {
                    let exchanges = added(old(self).exchanges(), self.exchanges());
                    let sent = added(exchanges1, self.exchanges());
                    let second = added(old(self).exchanges(), exchanges1)[0];
                    lemma_added(old(self).record(), record2, self.record());
                    lemma_added(old(self).exchanges(), exchanges1, self.exchanges());
                    assert(added(old(self).exchanges(), exchanges1) =~= seq![second]);
                    assert(added(old(self).calls(), self.calls()) =~= seq![call]);
                    assert(exchanges.skip(1) =~= sent);
                    lemma_read_sends(call, second, sent);
                }
                result
            },
            Ok(None) => {
                let quiet: u128 = self.last_peer_activity.elapsed().as_millis();
                let result = self.idle(quiet);
                proof {
                    let sent = added(old(self).exchanges(), self.exchanges());
                    lemma_added(old(self).record(), record1, self.record());
                    assert(sent.len() <= 1);
                    lemma_read_idles(call, sent);
                }
                result
            },
        }
    }

    /// Keeps an idle handoff alive: a heartbeat is sent once nothing was sent
    /// for a whole interval of `quiet_ms` milliseconds.
    pub fn idle(&mut self, quiet_ms: u128) -> (result: Result<(), SeamlessError>)
        ensures
            final(self).controller() == old(self).controller(),
            final(self).backend() == old(self).backend(),
            final(self).probes() == old(self).probes(),
            extends(old(self).exchanges(), final(self).exchanges()),
            idling(added(old(self).exchanges(), final(self).exchanges()), result),
            added(old(self).exchanges(), final(self).exchanges()).len() == if is_remote(
                old(self).controller(),
            ) && quiet_ms >= HEARTBEAT_INTERVAL_MS {
                1int
            } else {
                0
            },
            extends(old(self).record(), final(self).record()),
            added(old(self).record(), final(self).record()) == over::<CaptureCall>(
                added(old(self).exchanges(), final(self).exchanges()),
                0,
                1,
            ),
    {
        if self.is_remote_active() && quiet_ms >= HEARTBEAT_INTERVAL_MS as u128 {
            if let Err(error) = self.send(Message::Heartbeat) {
                return Err(SeamlessError::Transport(error));
            }
            self.last_peer_activity = std::time::Instant::now();
        }
        Ok(())
    }

    /// Safety cleanup for normal exit, capture close, heartbeat timeout, and
    /// transport disconnect. Local release is attempted first; the network
    /// release remains best-effort because the peer may already be gone.
    pub fn close(&mut self) -> (result: Result<(), SeamlessError>)
        ensures
            final(self).controller() == at_home(old(self).controller()),
            old(self).controller().wf() ==> final(self).controller().wf(),
            final(self).probes() == old(self).probes(),
            extends(old(self).calls(), final(self).calls()),
            extends(old(self).exchanges(), final(self).exchanges()),
            closing(
                old(self).controller(),
                added(old(self).calls(), final(self).calls()),
                added(old(self).exchanges(), final(self).exchanges()),
            ),
            added(old(self).calls(), final(self).calls())[0] matches CaptureCall::Released(
                _,
                released,
            ) && result == backend_outcome(released),
            extends(old(self).record(), final(self).record()),
            added(old(self).record(), final(self).record()) == release_order(
                added(old(self).calls(), final(self).calls()),
                added(old(self).exchanges(), final(self).exchanges()),
            ),
    {
        let released = self.capture.release_local_input(None);
        proof {
            self.record@ = self.record@.push(Happened::Here(CaptureCall::Released(None, released)));
        }
        let ghost record = self.record();
        let result = self.finish_close(released);
        proof {
            lemma_added(old(self).record(), record, self.record());
            assert(added(old(self).record(), self.record()) =~= release_order(
                added(old(self).calls(), self.calls()),
                added(old(self).exchanges(), self.exchanges()),
            ));
        }
        result
    }

    /// The rest of [`Self::close`], once the local release gave `released`.
    pub fn finish_close(&mut self, released: Result<(), BackendError>) -> (result: Result<
        (),
        SeamlessError,
    >)
        ensures
            result == backend_outcome(released),
            final(self).controller() == at_home(old(self).controller()),
            old(self).controller().wf() ==> final(self).controller().wf(),
            final(self).probes() == old(self).probes(),
            final(self).backend() == old(self).backend(),
            extends(old(self).exchanges(), final(self).exchanges()),
            ({
                let exchanges = added(old(self).exchanges(), final(self).exchanges());
                if old(self).controller().state is Local {
                    exchanges.len() == 0
                } else {
                    &&& exchanges.len() == 1
                    &&& exchanges[0] matches Exchange::Sent(message, _) && message
                        == Message::HandoffRelease
                }
            }),
            extends(old(self).record(), final(self).record()),
            added(old(self).record(), final(self).record()) == over::<CaptureCall>(
                added(old(self).exchanges(), final(self).exchanges()),
                0,
                1,
            ),
    {
        let transition = self.controller.disconnect_or_cancel();
        if let Some(HandoffAction::ReleaseRemoteInput) = transition.action {
            let _ = self.send(Message::HandoffRelease);
        }
        from_backend(released)
    }

    fn poll_control(&mut self) -> (result: Result<(), SeamlessError>)
        requires
            old(self).controller().wf(),
        ensures
            final(self).controller().wf(),
            extends(old(self).calls(), final(self).calls()),
            extends(old(self).exchanges(), final(self).exchanges()),
            ({
                let exchanges = added(old(self).exchanges(), final(self).exchanges());
                &&& exchanges.len() >= 1
                &&& exchanges[0] matches Exchange::Polled(polled) && polled_effects(
                    old(self).controller(),
                    polled,
                    added(old(self).calls(), final(self).calls()),
                    exchanges.skip(1),
                    result,
                ) && final(self).controller() == polled_controller(old(self).controller(), polled)
                    && final(self).probes() == old(self).probes().heard(polled)
            }),
            extends(old(self).record(), final(self).record()),
            added(old(self).record(), final(self).record()) == poll_order(
                added(old(self).calls(), final(self).calls()),
                added(old(self).exchanges(), final(self).exchanges()),
            ),
    {
        let polled = self.transport.poll_receive();
        proof {
            self.record@ = self.record@.push(Happened::Channel(Exchange::Polled(polled)));
        }
        let polled = match polled {
            Ok(polled) => polled,
            Err(error) => {
                return Err(SeamlessError::Transport(error));
            },
        };
        let message = match polled {
            Some(message) => message,
            None => {
                return Ok(());
            },
        };
        let ghost exchanges = self.exchanges();
        let ghost record = self.record();
        let result = self.control(message);
        proof {
            lemma_added(old(self).record(), record, self.record());
            lemma_added(old(self).exchanges(), exchanges, self.exchanges());
            assert(added(old(self).record(), self.record()) =~= poll_order(
                added(old(self).calls(), self.calls()),
                added(old(self).exchanges(), self.exchanges()),
            ));
            lemma_kept(old(self).exchanges(), exchanges, self.exchanges());
            assert(added(old(self).exchanges(), self.exchanges()).skip(1) =~= added(
                exchanges,
                self.exchanges(),
            ));
        }
        result
    }

    /// Handles one message that arrived while input is forwarded.
    pub fn control(&mut self, message: Message) -> (result: Result<(), SeamlessError>)
        requires
            old(self).controller().wf(),
        ensures
            final(self).controller().wf(),
            final(self).probes() == old(self).probes().heard(Ok(Some(message))),
            extends(old(self).calls(), final(self).calls()),
            extends(old(self).exchanges(), final(self).exchanges()),
            polled_effects(
                old(self).controller(),
                Ok(Some(message)),
                added(old(self).calls(), final(self).calls()),
                added(old(self).exchanges(), final(self).exchanges()),
                result,
            ),
            final(self).controller() == polled_controller(
                old(self).controller(),
                Ok(Some(message)),
            ),
            extends(old(self).record(), final(self).record()),
            added(old(self).record(), final(self).record()) == release_order(
                added(old(self).calls(), final(self).calls()),
                added(old(self).exchanges(), final(self).exchanges()),
            ),
    {
        match message {
            Message::Heartbeat => Ok(()),
            Message::DiagnosticPong { sequence } => {
                if let Some((expected, sent_at)) = self.pending_probe.take() {
                    if sequence == expected {
                        self.round_trips.push(sent_at.elapsed());
                    }
                }
                Ok(())
            },
            Message::ExitRequest { edge, x, y } => {
                let edge = match edge {
                    WireEdge::Left => Edge::Left,
                    WireEdge::Right => Edge::Right,
                };
                let transition = self.controller.peer_exit_activated(edge, Point { x, y });
                match transition.action {
                    Some(HandoffAction::ReturnToLocal { at }) => {
                        if let Err(error) = self.give_back(at) {
                            return Err(SeamlessError::Backend(error));
                        }
                        // This is idempotent with the client-side release and
                        // covers a disconnect right after the exit request.
                        let _ = self.send(Message::HandoffRelease);
                        Ok(())
                    },
                    _ => {
                        let _ = self.close();
                        Err(SeamlessError::UnexpectedControl(message))
                    },
                }
            },
            Message::HandoffRelease | Message::ReleaseAll | Message::Goodbye => self.close(),
            _ => {
                let _ = self.close();
                Err(SeamlessError::UnexpectedControl(message))
            },
        }
    }

    pub fn into_parts(self) -> (parts: (C, T))
        ensures
            parts.0 == self.backend(),
            parts.1 == self.channel(),
    {
        (self.capture, self.transport)
    }
}

/// Whether an exchange sends input to the peer.
pub open spec fn sends_input(exchange: Exchange) -> bool {
    exchange matches Exchange::Sent(message, _) && (message is Input || message is PointerMotion
        || message is Touch)
}

/// Activation reads and sends no input, and it starts forwarding only when
/// the peer's acknowledgement followed the entry request.
pub proof fn law_activation_waits_for_the_acknowledgement(
    before: crate::handoff::HandoffView,
    calls: Seq<CaptureCall>,
    exchanges: Seq<Exchange>,
    after: crate::handoff::HandoffView,
    result: Result<(), SeamlessError>,
    record: Seq<Happened<CaptureCall>>,
)
    requires
        activation(before, calls, exchanges, after, result),
        record == activation_order(calls, exchanges),
        before.state is Local,
    ensures
        forall|j: int|
            0 <= j < record.len() && (#[trigger] record[j] matches Happened::Here(call)
                && call is Began) ==> exists|i: int|
                0 <= i < j && #[trigger] record[i] == Happened::<CaptureCall>::Channel(
                    Exchange::Received(Ok(Message::EnterAck)),
                ),
        forall|i: int| 0 <= i < exchanges.len() ==> !sends_input(#[trigger] exchanges[i]),
        forall|i: int| 0 <= i < calls.len() ==> !((#[trigger] calls[i]) is Read),
        is_remote(after) ==> exchanges.len() == 2 && exchanges[1] == Exchange::Received(
            Ok(Message::EnterAck),
        ),
        (exists|i: int| 0 <= i < calls.len() && (#[trigger] calls[i]) is Began) ==> is_remote(
            after,
        ),
{
    let e2 = exchanges.skip(2);
    let c1 = calls.skip(1);
    assert forall|j: int|
        0 <= j < record.len() && (#[trigger] record[j] matches Happened::Here(call)
            && call is Began) implies exists|i: int|
        0 <= i < j && #[trigger] record[i] == Happened::<CaptureCall>::Channel(
            Exchange::Received(Ok(Message::EnterAck)),
        ) by {
        assert(record.len() >= 3 ==> record[2] == Happened::<CaptureCall>::Channel(exchanges[1]));
    }
    assert forall|i: int| 0 <= i < exchanges.len() implies !sends_input(
        #[trigger] exchanges[i],
    ) by {
        if i >= 2 {
            assert(exchanges[i] == e2[i - 2]);
        }
    }
    assert forall|i: int| 0 <= i < calls.len() implies !((#[trigger] calls[i]) is Read) && (
    calls[i] is Began ==> is_remote(after)) by {
        if i >= 1 {
            assert(calls[i] == c1[i - 1]);
        }
    }
}

/// A round of forwarding sends input only from a handoff that was
/// acknowledged and that is still active after the round, and then sends what
/// was read in it.
pub proof fn law_forwarding_sends_only_active_input(
    before: crate::handoff::HandoffView,
    probes: ProbeView,
    timeout: std::time::Duration,
    calls: Seq<CaptureCall>,
    exchanges: Seq<Exchange>,
    after: crate::handoff::HandoffView,
    probes_after: ProbeView,
    result: Result<(), SeamlessError>,
    i: int,
)
    requires
        forward_round(before, probes, timeout, calls, exchanges, after, probes_after, result),
        0 <= i < exchanges.len(),
        sends_input(exchanges[i]),
    ensures
        is_remote(before),
        after == before,
        calls.len() == 1,
        calls[0] matches CaptureCall::Read(_, Ok(Some(input))) && (exchanges[i] matches Exchange::Sent(
            message,
            _,
        ) && message == carried(input)),
{
    let e1 = exchanges.skip(1);
    let rest = exchanges.skip(leading(exchanges) as int);
    let tail = rest.skip(1);
    if i >= 1 {
        assert(exchanges[i] == e1[i - 1]);
    }
    if i >= leading(exchanges) {
        assert(exchanges[i] == rest[i - leading(exchanges)]);
    }
    if i >= leading(exchanges) + 1 {
        assert(exchanges[i] == tail[i - leading(exchanges) - 1]);
    }
}

/// Whether a step takes input back here.
pub open spec fn takes_back(step: Happened<CaptureCall>) -> bool {
    step matches Happened::Here(call) && (call is Returned || call is Released)
}

/// Whether a step tells the peer to let go.
pub open spec fn lets_go(step: Happened<CaptureCall>) -> bool {
    step matches Happened::Channel(exchange) && exchange matches Exchange::Sent(message, _)
        && message is HandoffRelease
}

/// Whether the peer is told to let go only after input was taken back here.
pub open spec fn home_first(record: Seq<Happened<CaptureCall>>) -> bool {
    forall|j: int|
        0 <= j < record.len() && lets_go(#[trigger] record[j]) ==> exists|i: int|
            0 <= i < j && takes_back(#[trigger] record[i])
}

/// The local release always comes first: whether the host closes, answers a
/// message, forwards or gives up an activation, it tells the peer to let go
/// only after it took input back, so a channel that fails keeps nothing
/// captured.
pub proof fn law_local_release_comes_first(
    before: crate::handoff::HandoffView,
    probes: ProbeView,
    timeout: std::time::Duration,
    calls: Seq<CaptureCall>,
    exchanges: Seq<Exchange>,
    after: crate::handoff::HandoffView,
    probes_after: ProbeView,
    result: Result<(), SeamlessError>,
    record: Seq<Happened<CaptureCall>>,
)
    requires
        ({
            ||| closing(before, calls, exchanges) && record == release_order(calls, exchanges)
            ||| exists|message: Message| #[trigger]
                polled_effects(before, Ok(Some(message)), calls, exchanges, result) && record
                    == release_order(calls, exchanges)
            ||| forward_round(
                before,
                probes,
                timeout,
                calls,
                exchanges,
                after,
                probes_after,
                result,
            ) && record == round_order(calls, exchanges)
            ||| activation(before, calls, exchanges, after, result) && record
                == activation_order(calls, exchanges)
        }),
    ensures
        home_first(record),
{
    let e1 = exchanges.skip(1);
    let e2 = exchanges.skip(2);
    let e3 = e2.skip(1);
    let c1 = calls.skip(1);
    assert forall|j: int| 0 <= j < record.len() && lets_go(#[trigger] record[j]) implies exists|
        i: int,
    |
        0 <= i < j && takes_back(#[trigger] record[i]) by {
        assert(exchanges.len() >= 2 ==> exchanges[1] == e1[0]);
        assert(exchanges.len() >= 3 ==> exchanges[2] == e2[0] && e2[0] == e1.skip(1)[0]);
        assert(exchanges.len() >= 4 ==> exchanges[3] == e3[0]);
        assert(calls.len() >= 2 ==> calls[1] == c1[0]);
        assert(takes_back(record[0]) || takes_back(record[1]) || takes_back(record[2])
            || takes_back(record[3]) || takes_back(record[4]));
    }
}

/// Whatever the peer asked for, a message that ends the handoff brings input
/// home and releases the local capture.
pub proof fn law_control_brings_input_home(
    controller: crate::handoff::HandoffView,
    message: Message,
    calls: Seq<CaptureCall>,
    exchanges: Seq<Exchange>,
    result: Result<(), SeamlessError>,
)
    requires
        polled_effects(controller, Ok(Some(message)), calls, exchanges, result),
        message !is Heartbeat,
        message !is DiagnosticPong,
    ensures
        polled_controller(controller, Ok(Some(message))).state is Local,
        calls.len() == 1,
        calls[0] is Returned || calls[0] is Released,
{
}

/// While an entry is active, an input message asks the injector once, for just
/// what it carries: the same type, code and value, the same movement, or the
/// same contact. Nothing is answered, the state stays, and the injector's
/// outcome is the caller's.
pub proof fn law_active_input_is_injected_as_it_came(
    before: ClientView,
    message: Message,
    calls: Seq<(InjectCall, Result<(), BackendError>)>,
    exchanges: Seq<Exchange>,
    after: ClientView,
    result: Result<(), SeamlessError>,
)
    requires
        handled(before, message, calls, exchanges, after, result),
        before.remote_active,
        message is Input || message is PointerMotion || message is Touch,
    ensures
        calls.len() == 1,
        exchanges.len() == 0,
        after == before,
        match message {
            Message::Input(event) => calls[0].0 matches InjectCall::Event(asked)
                && asked.event_type == event.event_type && asked.code == event.code && asked.value
                == event.value,
            Message::PointerMotion { dx, dy } => calls[0].0 matches InjectCall::Motion {
                dx: right,
                dy: down,
            } && right == dx && down == dy,
            Message::Touch(event) => calls[0].0 matches InjectCall::Touch(asked) && asked.phase
                == event.phase && asked.id == event.id && asked.x == event.x && asked.y == event.y,
            _ => false,
        },
        match calls[0].1 {
            Ok(_) => result is Ok,
            Err(error) => result == Err::<(), SeamlessError>(SeamlessError::Backend(error)),
        },
{
}

/// While a handoff is active, forwarding sends one message, which carries the
/// input as it was captured: the same movement in each direction, the same
/// event, or the same contact. Otherwise nothing is sent.
pub proof fn law_forwarded_input_is_sent_as_it_was_captured(
    controller: crate::handoff::HandoffView,
    input: CapturedInput,
    exchanges: Seq<Exchange>,
    result: Result<(), SeamlessError>,
)
    requires
        forwarding(controller, input, exchanges, result),
    ensures
        if controller.state is RemoteActive {
            exchanges.len() == 1 && (exchanges[0] matches Exchange::Sent(message, sent) && (
            match input {
                CapturedInput::Motion { dx, dy } => message matches Message::PointerMotion {
                    dx: right,
                    dy: down,
                } && right == dx && down == dy,
                CapturedInput::Event(event) => message matches Message::Input(carried)
                    && carried.event_type == event.event_type && carried.code == event.code
                    && carried.value == event.value,
                CapturedInput::Touch(event) => message matches Message::Touch(carried)
                    && carried.phase == event.phase && carried.id == event.id && carried.x
                    == event.x && carried.y == event.y,
            }) && (match sent {
                Ok(_) => result is Ok,
                Err(error) => result == Err::<(), SeamlessError>(SeamlessError::Transport(error)),
            }))
        } else {
            exchanges.len() == 0 && result == Err::<(), SeamlessError>(
                SeamlessError::InputBeforeAcknowledgement,
            )
        },
{
}

/// From one desktop to the other: what an active client is asked to inject for
/// the message that an active host sent is the input that was captured.
pub proof fn law_input_reaches_the_other_desktop(
    controller: crate::handoff::HandoffView,
    input: CapturedInput,
    sent: Seq<Exchange>,
    forwarded: Result<(), SeamlessError>,
    before: ClientView,
    calls: Seq<(InjectCall, Result<(), BackendError>)>,
    exchanges: Seq<Exchange>,
    after: ClientView,
    result: Result<(), SeamlessError>,
)
    requires
        controller.state is RemoteActive,
        before.remote_active,
        forwarding(controller, input, sent, forwarded),
        handled(before, sent[0]->Sent_0, calls, exchanges, after, result),
    ensures
        calls.len() == 1,
        match input {
            CapturedInput::Motion { dx, dy } => calls[0].0 == (InjectCall::Motion { dx, dy }),
            CapturedInput::Event(event) => calls[0].0 == InjectCall::Event(event),
            CapturedInput::Touch(event) => calls[0].0 == InjectCall::Touch(event),
        },
{
    law_forwarded_input_is_sent_as_it_was_captured(controller, input, sent, forwarded);
    law_active_input_is_injected_as_it_came(
        before,
        sent[0]->Sent_0,
        calls,
        exchanges,
        after,
        result,
    );
}

/// A request to enter is prepared at its coordinates and acknowledged, and then
/// input is let in. It is rejected while input is let in already, and where it
/// cannot be prepared, which releases everything.
pub proof fn law_a_request_to_enter_is_answered(
    before: ClientView,
    x: i32,
    y: i32,
    calls: Seq<(InjectCall, Result<(), BackendError>)>,
    exchanges: Seq<Exchange>,
    after: ClientView,
    result: Result<(), SeamlessError>,
)
    requires
        handled(before, Message::Enter { x, y }, calls, exchanges, after, result),
    ensures
        exchanges.len() == 1,
        exchanges[0] is Sent,
        if before.remote_active {
            calls.len() == 0 && exchanges[0]->Sent_0 == Message::EnterRejected && after == before
        } else {
            calls.len() >= 1 && calls[0].0 == InjectCall::Prepare(Point { x, y }) && if calls[0].1
                is Ok {
                &&& calls.len() == 1
                &&& exchanges[0]->Sent_0 == Message::EnterAck
                &&& exchanges[0]->Sent_1 is Ok ==> after.remote_active && after.entry == Some(
                    Point { x, y },
                ) && !after.return_pending && result is Ok
                &&& exchanges[0]->Sent_1 is Err ==> after == before
            } else {
                &&& calls.len() == 2 && calls[1].0 == InjectCall::Release
                &&& exchanges[0]->Sent_0 == Message::EnterRejected
                &&& after == before
                &&& result == Err::<(), SeamlessError>(
                    SeamlessError::Backend(calls[0].1->Err_0),
                )
            }
        },
        before.remote_active || calls[0].1 is Ok ==> match exchanges[0]->Sent_1 {
            Ok(_) => result is Ok,
            Err(error) => result == Err::<(), SeamlessError>(SeamlessError::Transport(error)),
        },
{
}

/// What the messages that carry no input and ask for no entry lead to on the
/// controlled side: a heartbeat to nothing, a probe to an answer with its
/// number, an end to a release of everything, and any other to a refusal that
/// names it.
pub proof fn law_control_is_obeyed(
    before: ClientView,
    message: Message,
    calls: Seq<(InjectCall, Result<(), BackendError>)>,
    exchanges: Seq<Exchange>,
    after: ClientView,
    result: Result<(), SeamlessError>,
)
    requires
        handled(before, message, calls, exchanges, after, result),
    ensures
        message is Heartbeat ==> calls.len() == 0 && exchanges.len() == 0 && result is Ok && after
            == before,
        message matches Message::DiagnosticPing { sequence } ==> calls.len() == 0
            && exchanges.len() == 1 && (exchanges[0] matches Exchange::Sent(reply, _) && reply
            == (Message::DiagnosticPong { sequence })) && after == before,
        message is HandoffRelease || message is ReleaseAll || message is Goodbye ==> calls.len()
            == 1 && calls[0].0 is Release && exchanges.len() == 0 && !after.remote_active
            && after.entry is None && (match calls[0].1 {
            Ok(_) => result is Ok,
            Err(error) => result == Err::<(), SeamlessError>(SeamlessError::Backend(error)),
        }),
        message is HandoffRelease && result is Ok ==> !after.return_pending,
        message is ReleaseAll || message is Goodbye ==> after.return_pending
            == before.return_pending,
        message is EnterAck || message is EnterRejected || message is ExitRequest
            || message is DiagnosticPong ==> calls.len() == 1 && calls[0].0 is Release
            && exchanges.len() == 0 && result == Err::<(), SeamlessError>(
            SeamlessError::UnexpectedControl(message),
        ) && !after.remote_active,
        !before.remote_active && !before.return_pending && (message is Input
            || message is PointerMotion || message is Touch) ==> calls.len() == 1
            && calls[0].0 is Release && result == Err::<(), SeamlessError>(
            SeamlessError::InputBeforeEntry,
        ),
{
}

/// An active client asks the host to take input back at the position and edge
/// that it was given, and lets go of everything once that was sent. A client
/// that is not active sends nothing.
pub proof fn law_a_return_is_requested_where_it_happened(
    before: ClientView,
    edge: WireEdge,
    position: Point,
    calls: Seq<(InjectCall, Result<(), BackendError>)>,
    exchanges: Seq<Exchange>,
    after: ClientView,
    result: Result<(), SeamlessError>,
)
    requires
        exit_requested(before, edge, position, calls, exchanges, after, result),
    ensures
        !before.remote_active ==> calls.len() == 0 && exchanges.len() == 0 && after == before
            && result == Err::<(), SeamlessError>(SeamlessError::InputBeforeEntry),
        before.remote_active ==> exchanges.len() == 1 && (exchanges[0] matches Exchange::Sent(
            Message::ExitRequest { edge: at, x, y },
            sent,
        ) && at == edge && x == position.x && y == position.y && (sent is Ok <==> calls.len() == 1)
            && (sent is Ok ==> calls[0].0 is Release && after.return_pending
            && !after.remote_active && after.entry is None) && (sent is Err ==> after == before
            && calls.len() == 0 && result == Err::<(), SeamlessError>(
            SeamlessError::Transport(sent->Err_0),
        ))),
{
}

/// An activation asks the peer for an entry in the facing column at the same
/// relative height, and then does what the peer says: it begins on an
/// acknowledgement, puts the pointer back in its row on a rejection, and takes
/// everything back on anything else. A point off the edge is refused.
pub proof fn law_activation_asks_and_obeys(
    before: crate::handoff::HandoffView,
    calls: Seq<CaptureCall>,
    exchanges: Seq<Exchange>,
    after: crate::handoff::HandoffView,
    result: Result<(), SeamlessError>,
)
    requires
        before.local.valid(),
        before.peer.valid(),
        before.state == HandoffState::Local,
        activation(before, calls, exchanges, after, result),
    ensures
        calls.len() >= 1,
        match calls[0] {
            CaptureCall::Waited(Err(error)) => {
                &&& calls.len() == 1 && exchanges.len() == 0 && after == before
                &&& result == Err::<(), SeamlessError>(SeamlessError::Backend(error))
            },
            CaptureCall::Waited(Ok(point)) => {
                let left = before.peer_edge == Edge::Left;
                let edge_column = if left {
                    before.local.x as int
                } else {
                    before.local.x + before.local.width - 1
                };
                let on_edge = point.x == edge_column && before.local.y <= point.y < before.local.y
                    + before.local.height;
                let inner_column = if before.local.width == 1 {
                    before.local.x as int
                } else if left {
                    before.local.x + 1
                } else {
                    before.local.x + before.local.width - 2
                };
                &&& !on_edge ==> calls.len() == 1 && exchanges.len() == 0 && after == before
                    && result == Err::<(), SeamlessError>(SeamlessError::InvalidActivation)
                &&& on_edge ==> exchanges.len() >= 1 && (exchanges[0] matches Exchange::Sent(
                    Message::Enter { x, y },
                    _,
                ) && x == (if left {
                    before.peer.x + before.peer.width - 1
                } else {
                    before.peer.x as int
                }) && crate::handoff::at_same_height(
                    point.y - before.local.y,
                    before.local.height as int,
                    y - before.peer.y,
                    before.peer.height as int,
                ))
                &&& on_edge && exchanges[0]->Sent_1 is Err ==> calls.len() == 1 && exchanges.len()
                    == 1 && after.state is EntryPending && result == Err::<(), SeamlessError>(
                    SeamlessError::Transport(exchanges[0]->Sent_1->Err_0),
                )
                &&& on_edge && exchanges[0]->Sent_1 is Ok ==> exchanges.len() >= 2
                    && exchanges[1] is Received && (match exchanges[1]->Received_0 {
                    Err(error) => calls.len() == 1 && exchanges.len() == 2
                        && after.state is EntryPending && result == Err::<(), SeamlessError>(
                        SeamlessError::Transport(error),
                    ),
                    Ok(Message::EnterAck) => calls.len() == 2 && exchanges.len() == 2
                        && after.state == (HandoffState::RemoteActive {
                        exit_edge: before.peer_edge,
                    }) && (calls[1] matches CaptureCall::Began(began) && (began is Ok <==> result
                        is Ok)),
                    Ok(Message::EnterRejected) => calls.len() == 2 && exchanges.len() == 2
                        && after.state == HandoffState::Local && (
                    calls[1] matches CaptureCall::Returned(at, returned) && at.x == inner_column
                        && at.y == point.y && (returned is Ok <==> result is Ok)),
                    Ok(message) => calls.len() == 2 && exchanges.len() == 3 && after.state
                        == HandoffState::Local && (calls[1] matches CaptureCall::Released(at, _)
                        && at is None) && (exchanges[2] matches Exchange::Sent(told, _) && told
                        == Message::HandoffRelease) && result == Err::<(), SeamlessError>(
                        SeamlessError::UnexpectedControl(message),
                    ),
                })
            },
            _ => false,
        },
{
    if let CaptureCall::Waited(Ok(point)) = calls[0] {
        crate::handoff::law_every_crossing_asks_for_an_entry(before, point);
        let c1 = calls.skip(1);
        let e2 = exchanges.skip(2);
        assert(calls.len() >= 2 ==> calls[1] == c1[0]);
        assert(exchanges.len() >= 3 ==> exchanges[2] == e2[0]);
    }
}

/// What a message of the peer does to an active handoff. A crossing of the
/// peer's facing edge, in any of its rows, takes input back at the same relative
/// height, one column inside; an end takes it back too; a heartbeat and the
/// answer to a probe leave it alone; anything else is refused by its name, and
/// takes input back.
pub proof fn law_the_peer_can_give_input_back(
    controller: crate::handoff::HandoffView,
    message: Message,
    calls: Seq<CaptureCall>,
    exchanges: Seq<Exchange>,
    result: Result<(), SeamlessError>,
)
    requires
        controller.local.valid(),
        controller.peer.valid(),
        controller.state == (HandoffState::RemoteActive { exit_edge: controller.peer_edge }),
        polled_effects(controller, Ok(Some(message)), calls, exchanges, result),
    ensures
        ({
            let left = controller.peer_edge == Edge::Left;
            let facing_column = if left {
                controller.peer.x + controller.peer.width - 1
            } else {
                controller.peer.x as int
            };
            let inner_column = if controller.local.width == 1 {
                controller.local.x as int
            } else if left {
                controller.local.x + 1
            } else {
                controller.local.x + controller.local.width - 2
            };
            let after = polled_controller(controller, Ok(Some(message)));
            let crosses = message matches Message::ExitRequest { edge, x, y } && (edge
                == WireEdge::Right) == left && x == facing_column && controller.peer.y <= y
                < controller.peer.y + controller.peer.height;
            let ends = message is HandoffRelease || message is ReleaseAll || message is Goodbye;
            let harmless = message is Heartbeat || message is DiagnosticPong;
            &&& harmless ==> calls.len() == 0 && exchanges.len() == 0 && result is Ok && after
                == controller
            &&& !harmless ==> calls.len() == 1 && after.state == HandoffState::Local
            &&& crosses ==> (calls[0] matches CaptureCall::Returned(at, returned) && at.x
                == inner_column && crate::handoff::at_same_height(
                message->ExitRequest_y - controller.peer.y,
                controller.peer.height as int,
                at.y - controller.local.y,
                controller.local.height as int,
            ) && (match returned {
                Ok(_) => result is Ok,
                Err(error) => result == Err::<(), SeamlessError>(SeamlessError::Backend(error)),
            }) && exchanges.len() == (if returned is Ok {
                1int
            } else {
                0
            }))
            &&& !crosses && !harmless ==> (calls[0] matches CaptureCall::Released(at, _) && at
                is None) && exchanges.len() == 1
            &&& exchanges.len() <= 1
            &&& exchanges.len() == 1 ==> (exchanges[0] matches Exchange::Sent(told, _) && told
                == Message::HandoffRelease)
            &&& ends ==> (match calls[0]->Released_1 {
                Ok(_) => result is Ok,
                Err(error) => result == Err::<(), SeamlessError>(SeamlessError::Backend(error)),
            })
            &&& !crosses && !harmless && !ends ==> result == Err::<(), SeamlessError>(
                SeamlessError::UnexpectedControl(message),
            )
        }),
{
    if let Message::ExitRequest { edge, x, y } = message {
        crate::handoff::law_every_crossing_back_returns_input(
            controller,
            if edge == WireEdge::Left {
                Edge::Left
            } else {
                Edge::Right
            },
            Point { x, y },
        );
    }
}

/// Whether the peer said nothing in a round but heartbeats and answers to
/// probes, and every probe in it went out.
pub open spec fn is_undisturbed(exchanges: Seq<Exchange>) -> bool {
    forall|i: int|
        0 <= i < exchanges.len() ==> match #[trigger] exchanges[i] {
            Exchange::Polled(polled) => polled matches Ok(said) && (said matches Some(message)
                ==> message is Heartbeat || message is DiagnosticPong),
            Exchange::Sent(message, sent) => message is DiagnosticPing ==> sent is Ok,
            Exchange::Received(_) => false,
        }
}

/// In an undisturbed round of an active handoff what was read is sent, once, as
/// it was read and as the last thing in the round; the handoff stays active.
/// Where nothing was read, at most a heartbeat is sent.
pub proof fn law_what_is_read_is_forwarded(
    before: crate::handoff::HandoffView,
    probes: ProbeView,
    timeout: std::time::Duration,
    calls: Seq<CaptureCall>,
    exchanges: Seq<Exchange>,
    after: crate::handoff::HandoffView,
    probes_after: ProbeView,
    result: Result<(), SeamlessError>,
)
    requires
        forward_round(before, probes, timeout, calls, exchanges, after, probes_after, result),
        before.state is RemoteActive,
        is_undisturbed(exchanges),
    ensures
        after == before,
        calls.len() == 1,
        calls[0] is Read,
        calls[0]->Read_0 == timeout,
        match calls[0]->Read_1 {
            Err(error) => result == Err::<(), SeamlessError>(SeamlessError::Backend(error)),
            Ok(None) => exchanges.last() matches Exchange::Sent(message, sent) ==> (
            message is Heartbeat || message is DiagnosticPing) && (sent is Ok <==> result is Ok),
            Ok(Some(input)) => exchanges.last() matches Exchange::Sent(message, sent) && (
            match input {
                CapturedInput::Motion { dx, dy } => message == (Message::PointerMotion { dx, dy }),
                CapturedInput::Event(event) => message == Message::Input(event),
                CapturedInput::Touch(event) => message == Message::Touch(event),
            }) && (match sent {
                Ok(_) => result is Ok,
                Err(error) => result == Err::<(), SeamlessError>(SeamlessError::Transport(error)),
            }),
        },
{
    let rest = exchanges.skip(leading(exchanges) as int);
    let tail = rest.skip(1);
    assert(exchanges[0] is Polled);
    assert(sends_probe(exchanges) ==> exchanges[1] is Sent);
    if rest.len() > 0 {
        assert(rest[0] == exchanges[leading(exchanges) as int]);
        assert(exchanges.last() == rest.last());
    }
    if rest.len() > 1 {
        assert(tail.last() == rest.last());
    }
}

/// Probes are numbered one after another, round the range of the number. Only
/// one is awaited at a time. Any answer ends the wait, and exactly the one that
/// was awaited is timed.
pub proof fn law_probes_are_numbered_and_matched(
    probes: ProbeView,
    exchanges: Seq<Exchange>,
    after: ProbeView,
    result: Result<(), SeamlessError>,
    sequence: u32,
    message: Message,
)
    requires
        probing_round(probes, exchanges, after, result),
    ensures
        exchanges.len() == 0 ==> after == probes && result is Ok,
        exchanges.len() > 0 ==> exchanges.len() == 1 && probes.awaited is None && (
        exchanges[0] matches Exchange::Sent(Message::DiagnosticPing { sequence: number }, sent) && (
        number == probes.last + 1 || (probes.last == u32::MAX && number == 0)) && after.last
            == number && (sent is Ok <==> after.awaited == Some(number)) && after.timed
            == probes.timed && (sent is Ok <==> result is Ok)),
        ({
            let heard = probes.heard(Ok(Some(Message::DiagnosticPong { sequence })));
            &&& heard.awaited is None
            &&& heard.last == probes.last
            &&& probes.awaited == Some(sequence) ==> heard.timed == probes.timed + 1
            &&& probes.awaited != Some(sequence) ==> heard.timed == probes.timed
        }),
        !(message is DiagnosticPong) ==> probes.heard(Ok(Some(message))) == probes,
        probes.heard(Ok(None)) == probes,
{
}

/// Where the first look of a round finds that the channel failed, the round is
/// over with that error and nothing is read. Where it finds anything but a
/// heartbeat or the answer to a probe, nothing is read either: input is taken
/// back. No input is sent in such a round.
pub proof fn law_a_round_ends_when_the_peer_does(
    before: crate::handoff::HandoffView,
    probes: ProbeView,
    timeout: std::time::Duration,
    calls: Seq<CaptureCall>,
    exchanges: Seq<Exchange>,
    after: crate::handoff::HandoffView,
    probes_after: ProbeView,
    result: Result<(), SeamlessError>,
)
    requires
        forward_round(before, probes, timeout, calls, exchanges, after, probes_after, result),
        before.state is RemoteActive,
    ensures
        exchanges.len() >= 1,
        exchanges[0] is Polled,
        match exchanges[0]->Polled_0 {
            Err(error) => calls.len() == 0 && exchanges.len() == 1 && after == before
                && probes_after == probes && result == Err::<(), SeamlessError>(
                SeamlessError::Transport(error),
            ),
            Ok(Some(message)) => !(message is Heartbeat) && !(message is DiagnosticPong)
                ==> calls.len() == 1 && (calls[0] is Returned || calls[0] is Released)
                && exchanges.len() <= 2 && (exchanges.len() == 2 ==> (
            exchanges[1] matches Exchange::Sent(told, _) && told == Message::HandoffRelease))
                && after.state == HandoffState::Local && probes_after == probes,
            Ok(None) => calls.len() > 0 ==> calls[0] is Read,
        },
{
    let e1 = exchanges.skip(1);
    assert(exchanges.len() >= 2 ==> exchanges[1] == e1[0]);
}

/// What was read is not sent where the peer ended the handoff meanwhile: then
/// input is taken back. Where the channel failed meanwhile, the round ends with
/// that error.
pub proof fn law_what_is_read_too_late_is_dropped(
    ready: crate::handoff::HandoffView,
    probes: ProbeView,
    timeout: std::time::Duration,
    calls: Seq<CaptureCall>,
    exchanges: Seq<Exchange>,
    after: crate::handoff::HandoffView,
    probes_after: ProbeView,
    result: Result<(), SeamlessError>,
)
    requires
        read_round(ready, probes, timeout, calls, exchanges, after, probes_after, result),
        ready.state is RemoteActive,
    ensures
        calls.len() >= 1,
        calls[0] is Read,
        calls[0]->Read_1 matches Ok(Some(_)) ==> exchanges.len() >= 1 && exchanges[0] is Polled
            && (match exchanges[0]->Polled_0 {
            Err(error) => calls.len() == 1 && exchanges.len() == 1 && after == ready && result
                == Err::<(), SeamlessError>(SeamlessError::Transport(error)),
            Ok(Some(message)) => !(message is Heartbeat) && !(message is DiagnosticPong)
                ==> calls.len() == 2 && (calls[1] is Returned || calls[1] is Released)
                && exchanges.len() <= 2 && (exchanges.len() == 2 ==> (
            exchanges[1] matches Exchange::Sent(told, _) && told == Message::HandoffRelease))
                && after.state == HandoffState::Local,
            Ok(None) => exchanges.len() == 2 && after == ready,
        }),
{
    let c1 = calls.skip(1);
    let e1 = exchanges.skip(1);
    assert(calls.len() >= 2 ==> calls[1] == c1[0]);
    assert(exchanges.len() >= 2 ==> exchanges[1] == e1[0]);
}

/// An idle interval sends at most one message, and that is a heartbeat. Closing
/// releases the capture without moving the pointer, and tells the peer to let go
/// exactly where the peer may hold input.
pub proof fn law_idling_and_closing(
    controller: crate::handoff::HandoffView,
    calls: Seq<CaptureCall>,
    exchanges: Seq<Exchange>,
    result: Result<(), SeamlessError>,
)
    ensures
        idling(exchanges, result) ==> exchanges.len() <= 1 && (exchanges.len() == 0 ==> result
            is Ok) && (exchanges.len() == 1 ==> (exchanges[0] matches Exchange::Sent(
            Message::Heartbeat,
            sent,
        ) && (match sent {
            Ok(_) => result is Ok,
            Err(error) => result == Err::<(), SeamlessError>(SeamlessError::Transport(error)),
        }))),
        closing(controller, calls, exchanges) ==> calls.len() == 1 && (
        calls[0] matches CaptureCall::Released(at, _) && at is None) && (controller.state is Local
            <==> exchanges.len() == 0) && exchanges.len() <= 1 && (exchanges.len() == 1 ==> (
        exchanges[0] matches Exchange::Sent(told, _) && told == Message::HandoffRelease)),
{
}

/// In which order a coordinator does what it does. The backend is asked before
/// the peer is answered, and releases after that. A return is requested before
/// everything is let go. A look for messages comes before what it leads to.
/// What was read is sent after the look that follows the reading.
pub proof fn law_steps_have_their_order<C>(calls: Seq<C>, exchanges: Seq<Exchange>)
    requires
        calls.len() <= 2,
        exchanges.len() <= 2,
    ensures
        exchanges.len() <= 1 ==> reply_order(calls, exchanges).len() == calls.len()
            + exchanges.len(),
        exchanges.len() <= 1 && calls.len() >= 1 ==> reply_order(calls, exchanges)[0]
            == Happened::Here(calls[0]),
        exchanges.len() == 1 && calls.len() >= 1 ==> reply_order(calls, exchanges)[1]
            == Happened::<C>::Channel(exchanges[0]),
        exchanges.len() == 1 && calls.len() == 2 ==> reply_order(calls, exchanges)[2]
            == Happened::Here(calls[1]),
        exchanges.len() == 1 && calls.len() == 0 ==> reply_order(calls, exchanges)[0]
            == Happened::<C>::Channel(exchanges[0]),
        exchanges.len() <= 1 && calls.len() <= 1 ==> exit_order(calls, exchanges).len()
            == calls.len() + exchanges.len() && release_order(calls, exchanges).len()
            == calls.len() + exchanges.len(),
        exchanges.len() == 1 && calls.len() <= 1 ==> exit_order(calls, exchanges)[0]
            == Happened::<C>::Channel(exchanges[0]),
        exchanges.len() == 1 && calls.len() == 1 ==> exit_order(calls, exchanges)[1]
            == Happened::Here(calls[0]) && release_order(calls, exchanges)[0] == Happened::Here(
            calls[0],
        ) && release_order(calls, exchanges)[1] == Happened::<C>::Channel(exchanges[0]),
        exchanges.len() >= 1 && calls.len() == 1 ==> poll_order(calls, exchanges).len() == 1
            + exchanges.len() && poll_order(calls, exchanges)[0] == Happened::<C>::Channel(
            exchanges[0],
        ) && poll_order(calls, exchanges)[1] == Happened::Here(calls[0]),
        exchanges.len() == 2 && calls.len() == 1 ==> poll_order(calls, exchanges)[2]
            == Happened::<C>::Channel(exchanges[1]),
        calls.len() >= 1 ==> read_order(calls, exchanges).len() == calls.len() + exchanges.len()
            && read_order(calls, exchanges)[0] == Happened::Here(calls[0]),
        calls.len() >= 1 && exchanges.len() >= 1 ==> read_order(calls, exchanges)[1]
            == Happened::<C>::Channel(exchanges[0]),
        calls.len() == 2 && exchanges.len() >= 1 ==> read_order(calls, exchanges)[2]
            == Happened::Here(calls[1]),
        calls.len() == 1 && exchanges.len() == 2 ==> read_order(calls, exchanges)[2]
            == Happened::<C>::Channel(exchanges[1]),
        calls.len() == 2 && exchanges.len() == 2 ==> read_order(calls, exchanges)[3]
            == Happened::<C>::Channel(exchanges[1]),
{
}

/// Which entry a use of a client acknowledged: the one that was asked for, where
/// the acknowledgement went out.
pub proof fn law_only_requested_entries_are_acknowledged(act: ClientAct)
    ensures
        acknowledged(act) matches Some(at) ==> (act matches ClientAct::Handled {
            message: Message::Enter { x, y },
            exchanges,
            ..
        } && at.x == x && at.y == y && exchanges.len() == 1 && (exchanges[0] matches Exchange::Sent(
            Message::EnterAck,
            Ok(_),
        ))),
        act matches ClientAct::Handled { message: Message::Enter { x, y }, exchanges, .. } ==> (
        exchanges.len() == 1 && (exchanges[0] matches Exchange::Sent(Message::EnterAck, Ok(_)))
            ==> acknowledged(act) == Some(Point { x, y })),
{
}

/// A new client lets nothing in: input that comes first is refused, which
/// releases everything, and an entry that comes first is prepared.
pub proof fn law_a_new_client_lets_nothing_in(
    message: Message,
    calls: Seq<(InjectCall, Result<(), BackendError>)>,
    exchanges: Seq<Exchange>,
    after: ClientView,
    result: Result<(), SeamlessError>,
)
    requires
        handled(ClientView::fresh(), message, calls, exchanges, after, result),
    ensures
        ClientView::fresh().entry is None,
        message is Input || message is PointerMotion || message is Touch ==> calls.len() == 1
            && calls[0].0 is Release && result == Err::<(), SeamlessError>(
            SeamlessError::InputBeforeEntry,
        ),
        message matches Message::Enter { x, y } ==> calls.len() >= 1 && calls[0].0
            == InjectCall::Prepare(Point { x, y }),
{
}

/// The order of a round: the look for messages comes first, a probe right after
/// it, and only then is anything read; what is read is followed by another look.
pub proof fn law_a_round_looks_first(calls: Seq<CaptureCall>, exchanges: Seq<Exchange>)
    requires
        calls.len() <= 2,
        1 <= exchanges.len() <= 3,
    ensures
        ({
            let record = round_order(calls, exchanges);
            let probed = exchanges.len() >= 2 && (exchanges[1] matches Exchange::Sent(message, _)
                && message is DiagnosticPing);
            &&& record[0] == Happened::<CaptureCall>::Channel(exchanges[0])
            &&& probed ==> record[1] == Happened::<CaptureCall>::Channel(exchanges[1])
            &&& calls.len() >= 1 ==> record.len() == calls.len() + exchanges.len()
                && record[if probed {
                2
            } else {
                1
            }] == Happened::Here(calls[0])
            &&& calls.len() >= 1 && probed && exchanges.len() == 3 ==> record[3] == Happened::<
                CaptureCall,
            >::Channel(exchanges[2])
            &&& calls.len() >= 1 && !probed && exchanges.len() >= 2 ==> record[2] == Happened::<
                CaptureCall,
            >::Channel(exchanges[1])
        }),
{
    let lead: int = if sends_probe(exchanges) {
        2
    } else {
        1
    };
    let rest = exchanges.skip(lead);
    law_steps_have_their_order(calls, rest);
    assert(forall|i: int| 0 <= i < rest.len() ==> #[trigger] rest[i] == exchanges[lead + i]);
    let record = round_order(calls, exchanges);
    let first = over::<CaptureCall>(exchanges, 0, lead as nat);
    assert(first.len() == lead);
    assert(record == first + read_order(calls, rest));
    assert(forall|i: int|
        0 <= i < read_order(calls, rest).len() ==> #[trigger] read_order(calls, rest)[i]
            == record[lead + i]);
}

} // verus!
