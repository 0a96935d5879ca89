//! One client's session with a backend: connect with bounded retry, the
//! authentication handshake, message exchange and teardown.
//!
//! The session decides; whoever drives it performs the transport work. Each
//! operation takes what the transport reported and answers with the next
//! state and with what to do next. The transport handle itself lives in the
//! session, in a slot that is emptied when the connection is torn down.

use vstd::prelude::*;
use vstd::string::StringExecFns;
use crate::target::{ConnectionTarget, TargetView};
use crate::text::{decimal_text, push_decimal};
use crate::token::{generate_token, is_token};

verus! {

/// How many connection attempts one `connect` makes before it gives up.
pub const MAX_CONNECT_ATTEMPTS: u32 = 10;

/// Pause between a failed connection attempt and the next one, in milliseconds.
pub const RETRY_BACKOFF_MS: u64 = 100;

/// Longest time one `recv` waits for an inbound frame, in milliseconds.
pub const RECV_TIMEOUT_MS: u64 = 200;

/// Lifecycle of a session. A session is in exactly one of these at a time.
#[derive(Clone, Copy, Debug, PartialEq, Eq, Structural)]
pub enum SessionState {
    /// Never connected.
    Idle,
    /// Connection attempts are under way.
    Connecting,
    /// Transport open, nothing authenticated yet.
    Unauthenticated,
    /// Transport open, token presented.
    Authenticated,
    /// Transport handed out for teardown, not yet reported done.
    Closing,
    /// Torn down; a new `connect` is allowed.
    Closed,
    /// Every connection attempt failed. Terminal.
    Failed,
}

/// What the caller wants to happen when every connection attempt has failed.
#[derive(Clone, Copy, Debug, PartialEq, Eq, Structural)]
pub enum ExhaustionPolicy {
    /// A hard stop: the driver aborts.
    Abort,
    /// A recoverable signal: the driver reports the backend as unavailable.
    Report,
}

/// An operation was asked of a session in a state that does not allow it.
/// This is a caller's mistake, never a transport failure.
#[derive(Clone, Copy, Debug, PartialEq, Eq, Structural)]
pub enum Misuse {
    /// An attempt's request or outcome while no connect is under way.
    NotConnecting,
    /// `recv` without an open transport.
    NotConnected,
    /// The end of a teardown reported while none is under way.
    NotClosing,
}

/// Why one connection attempt failed. Either is tried again, up to the limit.
#[derive(Clone, Copy, Debug, PartialEq, Eq, Structural)]
pub enum ConnectError {
    /// The transport to the backend could not be opened.
    Transport,
    /// The transport opened, and the upgrade to the room's endpoint failed.
    Upgrade,
}

/// Why a `recv` produced no frame.
#[derive(Clone, Copy, Debug, PartialEq, Eq, Structural)]
pub enum RecvError {
    /// Nothing arrived in time. Transient: the connection stays usable.
    Timeout,
    /// The connection is gone. Terminal.
    Closed,
}

/// What the transport reported for one bounded wait on the inbound stream.
pub enum RecvEvent<F> {
    /// A frame arrived; `close` tells whether it is a close frame.
    Frame { frame: F, close: bool },
    /// The stream reported an error.
    Broken,
    /// The peer ended the stream.
    Ended,
    /// The wait ran out with nothing received.
    Elapsed,
}

/// The answer to one `recv`.
pub struct Received<F, T> {
    /// The frame, or why there is none.
    pub result: Result<F, RecvError>,
    /// The transport handle, moved out of the session where this `recv` tore
    /// the connection down. The driver closes it and reports the end of the
    /// teardown.
    pub teardown: Option<T>,
}

/// What to do after one connection attempt.
pub enum ConnectStep {
    /// The transport is open; the session is `Unauthenticated`.
    Connected,
    /// The transport is open and the session is `Authenticated`: the token
    /// is to be sent as the first message.
    Joined(String),
    /// Wait `delay_ms` milliseconds, then make another attempt on a new transport.
    Retry { delay_ms: u64 },
    /// Shutdown was requested between attempts; the connect is abandoned.
    Cancelled,
    /// The last allowed attempt failed, for the reason `cause`; the policy
    /// says how to surface it.
    Exhausted { policy: ExhaustionPolicy, cause: ConnectError },
}

/// What a [`ConnectStep`] stands for in contracts.
pub enum ConnectStepView {
    Connected,
    Joined(Seq<char>),
    Retry { delay_ms: u64 },
    Cancelled,
    Exhausted { policy: ExhaustionPolicy, cause: ConnectError },
}

impl View for ConnectStep {
    type V = ConnectStepView;

    open spec fn view(&self) -> ConnectStepView {
        match self {
            ConnectStep::Connected => ConnectStepView::Connected,
            ConnectStep::Joined(token) => ConnectStepView::Joined(token@),
            ConnectStep::Retry { delay_ms } => ConnectStepView::Retry { delay_ms: *delay_ms },
            ConnectStep::Cancelled => ConnectStepView::Cancelled,
            ConnectStep::Exhausted { policy, cause } => ConnectStepView::Exhausted {
                policy: *policy,
                cause: *cause,
            },
        }
    }
}

/// What one connection attempt asks of the transport.
#[derive(Debug, PartialEq, Eq)]
pub struct ConnectRequest {
    /// Where to connect and upgrade: `ws://host:port/api/room/{room}`.
    pub url: String,
    /// The number of the attempt within its connect, from 1.
    pub attempt: u32,
}

impl Clone for ConnectRequest {
    fn clone(&self) -> (copy: ConnectRequest)
        ensures
            copy.url@ == self.url@,
            copy.attempt == self.attempt,
    {
        ConnectRequest { url: self.url.clone(), attempt: self.attempt }
    }
}

/// The host that the upgrade names where the caller names none.
pub open spec fn default_host() -> Seq<char> {
    "localhost"@
}

/// The address of `room` at the host `host`, port `port`.
pub open spec fn room_url(host: Seq<char>, port: u16, room: Seq<char>) -> Seq<char> {
    "ws://"@ + host + seq![':'] + decimal_text(port as nat) + "/api/room/"@ + room
}

/// What a session is, as contracts see it.
pub struct SessionView<T> {
    /// The backend that the transport is opened to.
    pub target: TargetView,
    /// The host that the upgrade names in its URL.
    pub host: Seq<char>,
    /// The transport slot.
    pub transport: Option<T>,
    /// The room of the current or last connect.
    pub room: Option<Seq<char>>,
    /// The token presented on the current or last transport.
    pub token: Option<Seq<char>>,
    pub state: SessionState,
    /// Failed attempts of the current or last connect.
    pub attempts: nat,
    /// Whether nothing has been sent on the current transport yet.
    pub pristine: bool,
    /// Whether the connect under way is to authenticate as soon as it succeeds.
    pub joining: bool,
    pub policy: ExhaustionPolicy,
}

impl<T> SessionView<T> {
    /// Whether a transport is open.
    pub open spec fn connected(self) -> bool {
        self.state is Unauthenticated || self.state is Authenticated
    }

    /// What holds of every session.
    pub open spec fn wf(self) -> bool {
        &&& self.connected() <==> self.transport is Some
        &&& self.attempts <= MAX_CONNECT_ATTEMPTS
        &&& self.state is Connecting ==> self.attempts < MAX_CONNECT_ATTEMPTS
        &&& self.state is Failed ==> self.attempts == MAX_CONNECT_ATTEMPTS
        &&& self.state is Idle <==> self.room is None
        &&& self.token matches Some(t) ==> is_token(t) && !self.pristine
        &&& self.state is Authenticated ==> self.token is Some
        &&& self.state is Unauthenticated ==> self.token is None
        &&& self.state is Connecting ==> self.token is None
    }

    /// A session that has never connected.
    pub open spec fn idle(target: TargetView, policy: ExhaustionPolicy) -> SessionView<T> {
        SessionView {
            target,
            host: default_host(),
            transport: None,
            room: None,
            token: None,
            state: SessionState::Idle,
            attempts: 0,
            pristine: true,
            joining: false,
            policy,
        }
    }

    /// Whether `connect` is allowed.
    pub open spec fn may_connect(self) -> bool {
        self.state is Idle || self.state is Closed
    }

    /// The session after `connect` (or `join`, where `joining`) for `room` was accepted.
    pub open spec fn connecting(self, room: Seq<char>, joining: bool) -> SessionView<T> {
        SessionView {
            room: Some(room),
            token: None,
            state: SessionState::Connecting,
            attempts: 0,
            pristine: true,
            joining,
            ..self
        }
    }

    /// The session after an attempt opened `handle`.
    pub open spec fn opened(self, handle: T) -> SessionView<T> {
        SessionView {
            transport: Some(handle),
            state: SessionState::Unauthenticated,
            pristine: true,
            joining: false,
            ..self
        }
    }

    /// The session after an attempt failed, `shutdown` telling whether the
    /// driver was asked to stop.
    pub open spec fn refused(self, shutdown: bool) -> SessionView<T> {
        SessionView {
            attempts: self.attempts + 1,
            state: if self.attempts + 1 >= MAX_CONNECT_ATTEMPTS {
                SessionState::Failed
            } else if shutdown {
                SessionState::Closed
            } else {
                SessionState::Connecting
            },
            ..self
        }
    }

    /// The session after `n` attempts in a row failed with no shutdown requested.
    pub open spec fn after_refusals(self, n: nat) -> SessionView<T>
        decreases n,
    {
        if n == 0 {
            self
        } else {
            self.after_refusals((n - 1) as nat).refused(false)
        }
    }

    /// What the driver is told after an attempt failed for the reason `cause`.
    pub open spec fn refusal_step(self, cause: ConnectError, shutdown: bool) -> ConnectStepView {
        if self.attempts + 1 >= MAX_CONNECT_ATTEMPTS {
            ConnectStepView::Exhausted { policy: self.policy, cause }
        } else if shutdown {
            ConnectStepView::Cancelled
        } else {
            ConnectStepView::Retry { delay_ms: RETRY_BACKOFF_MS }
        }
    }

    /// Whether `auth` is allowed: the transport is open and nothing was sent on it.
    pub open spec fn may_auth(self) -> bool {
        self.state is Unauthenticated && self.pristine
    }

    /// The session after `token` was presented.
    pub open spec fn authenticated(self, token: Seq<char>) -> SessionView<T> {
        SessionView {
            token: Some(token),
            state: SessionState::Authenticated,
            pristine: false,
            ..self
        }
    }

    /// The session after a message was passed to the transport.
    pub open spec fn sent(self) -> SessionView<T> {
        SessionView { pristine: false, ..self }
    }

    /// The session after the transport was moved out for teardown.
    pub open spec fn torn_down(self) -> SessionView<T> {
        SessionView { transport: None, state: SessionState::Closing, ..self }
    }

    /// The session after the teardown was reported done.
    pub open spec fn closed(self) -> SessionView<T> {
        SessionView { state: SessionState::Closed, ..self }
    }

    /// The session after one `recv` saw `event`.
    pub open spec fn received<F>(self, event: RecvEvent<F>) -> SessionView<T> {
        if ends_connection(event) {
            self.torn_down()
        } else {
            self
        }
    }
}

/// Whether `event` ends the connection: a close frame, a stream error, or
/// the end of the stream. A timeout never does.
pub open spec fn ends_connection<F>(event: RecvEvent<F>) -> bool {
    match event {
        RecvEvent::Frame { frame, close } => close,
        RecvEvent::Broken => true,
        RecvEvent::Ended => true,
        RecvEvent::Elapsed => false,
    }
}

/// What `recv` hands to its caller for `event`: the frame, also where it is
/// a close frame, or the error.
pub open spec fn recv_result<F>(event: RecvEvent<F>) -> Result<F, RecvError> {
    match event {
        RecvEvent::Frame { frame, close } => Ok(frame),
        RecvEvent::Broken => Err(RecvError::Closed),
        RecvEvent::Ended => Err(RecvError::Closed),
        RecvEvent::Elapsed => Err(RecvError::Timeout),
    }
}

/// A `recv` that times out returns `Timeout` and changes nothing: the
/// session stays connected, with its transport.
pub proof fn law_timeout_keeps_connection<T, F>(session: SessionView<T>)
    requires
        session.wf(),
        session.connected(),
    ensures
        session.received(RecvEvent::<F>::Elapsed) == session,
        session.received(RecvEvent::<F>::Elapsed).connected(),
        recv_result(RecvEvent::<F>::Elapsed) == Err::<F, RecvError>(RecvError::Timeout),
{
}

/// A `recv` that yields a close frame returns the frame and leaves no
/// connection behind: the slot is empty at once, the session is `Closed` as
/// soon as the teardown is reported done, and neither state counts as connected.
pub proof fn law_close_frame_closes<T, F>(session: SessionView<T>, frame: F)
    requires
        session.wf(),
        session.connected(),
    ensures
        ({
            let event = RecvEvent::Frame { frame, close: true };
            let after = session.received(event);
            &&& recv_result(event) == Ok::<F, RecvError>(frame)
            &&& after.wf()
            &&& after.state is Closing
            &&& after.transport is None
            &&& !after.connected()
            &&& after.closed().wf()
            &&& after.closed().state is Closed
            &&& !after.closed().connected()
        }),
{
}

/// Whatever a `recv` sees, the session is connected afterwards exactly
/// where the event did not end the connection.
pub proof fn law_recv_outcomes<T, F>(session: SessionView<T>, event: RecvEvent<F>)
    requires
        session.wf(),
        session.connected(),
    ensures
        session.received(event).wf(),
        session.received(event).connected() <==> !ends_connection(event),
        recv_result(event) is Ok <==> event is Frame,
{
}

/// A connect whose attempts all fail makes exactly [`MAX_CONNECT_ATTEMPTS`]
/// attempts: after each of the first nine the driver is told to retry after
/// [`RETRY_BACKOFF_MS`], and the tenth ends the connect in `Failed`.
pub proof fn law_ten_attempts_then_failed<T>(
    session: SessionView<T>,
    n: nat,
    cause: ConnectError,
)
    requires
        session.wf(),
        session.state is Connecting,
        session.attempts == 0,
        n < MAX_CONNECT_ATTEMPTS,
    ensures
        session.after_refusals(n).wf(),
        session.after_refusals(n).state is Connecting,
        session.after_refusals(n).attempts == n,
        n + 1 < MAX_CONNECT_ATTEMPTS ==> session.after_refusals(n).refusal_step(cause, false)
            == (ConnectStepView::Retry { delay_ms: RETRY_BACKOFF_MS }),
        n + 1 == MAX_CONNECT_ATTEMPTS ==> session.after_refusals(n).refusal_step(cause, false)
            == (ConnectStepView::Exhausted { policy: session.policy, cause })
            && session.after_refusals(n + 1).state is Failed,
    decreases n,
{
    if n > 0 {
        law_ten_attempts_then_failed(session, (n - 1) as nat, cause);
    }
    assert(session.after_refusals(n + 1) == session.after_refusals(n).refused(false));
    lemma_refusals_keep_policy(session, n);
}

/// Failed attempts change neither the policy nor the target.
proof fn lemma_refusals_keep_policy<T>(session: SessionView<T>, n: nat)
    ensures
        session.after_refusals(n).policy == session.policy,
        session.after_refusals(n).target == session.target,
    decreases n,
{
    if n > 0 {
        lemma_refusals_keep_policy(session, (n - 1) as nat);
    }
}

/// A session is `Failed` only after its connection attempts were exhausted,
/// and from `Failed` no connect is allowed.
pub proof fn law_failed_is_terminal<T>(session: SessionView<T>)
    requires
        session.wf(),
        session.state is Failed,
    ensures
        session.attempts == MAX_CONNECT_ATTEMPTS,
        !session.may_connect(),
        !session.connected(),
        !session.may_auth(),
{
}

/// `join` is `connect` and then `auth`: a join whose attempt opens a
/// transport ends where a connect ends that is followed by `auth` with the
/// same token.
pub proof fn law_join_is_connect_then_auth<T>(
    session: SessionView<T>,
    room: Seq<char>,
    handle: T,
    token: Seq<char>,
)
    requires
        session.wf(),
        session.may_connect(),
        is_token(token),
    ensures
        session.connecting(room, false).opened(handle).may_auth(),
        session.connecting(room, true).opened(handle).authenticated(token) == session.connecting(
            room,
            false,
        ).opened(handle).authenticated(token),
        session.connecting(room, true).opened(handle).authenticated(token).wf(),
{
}

/// The token is the first message on its transport: `auth` is allowed only
/// where nothing was sent yet, and after any message it is allowed no more.
pub proof fn law_token_is_first_message<T>(session: SessionView<T>)
    requires
        session.wf(),
    ensures
        session.may_auth() ==> session.pristine && session.connected(),
        session.connected() ==> !session.sent().may_auth(),
        session.state is Authenticated ==> session.token is Some && is_token(session.token->0)
            && !session.pristine,
{
}

/// A session with one backend. `T` is the transport handle's type.
pub struct Client<T> {
    addr: ConnectionTarget,
    host: String,
    stream: Option<T>,
    room: Option<String>,
    token: Option<String>,
    state: SessionState,
    attempts: u32,
    pristine: bool,
    joining: bool,
    policy: ExhaustionPolicy,
}

/// The characters of an optional string.
pub open spec fn text_of(s: Option<String>) -> Option<Seq<char>> {
    match s {
        Some(s) => Some(s@),
        None => None,
    }
}

impl<T> View for Client<T> {
    type V = SessionView<T>;

    closed spec fn view(&self) -> SessionView<T> {
        SessionView {
            target: self.addr@,
            host: self.host@,
            transport: self.stream,
            room: text_of(self.room),
            token: text_of(self.token),
            state: self.state,
            attempts: self.attempts as nat,
            pristine: self.pristine,
            joining: self.joining,
            policy: self.policy,
        }
    }
}

impl<T> Client<T> {
    /// What holds of every session that this module hands out.
    pub open spec fn wf(&self) -> bool {
        self@.wf()
    }

    /// A session for the backend at `addr`, never connected, which names
    /// `localhost` in the upgrade and aborts when its connection attempts
    /// are exhausted.
    pub fn new(addr: ConnectionTarget) -> (client: Client<T>)
        ensures
            client.wf(),
            client@ == SessionView::<T>::idle(addr@, ExhaustionPolicy::Abort),
    {
        Client {
            addr,
            host: String::from_str("localhost"),
            stream: None,
            room: None,
            token: None,
            state: SessionState::Idle,
            attempts: 0,
            pristine: true,
            joining: false,
            policy: ExhaustionPolicy::Abort,
        }
    }

    /// The same session with `policy` for exhausted connection attempts.
    pub fn on_exhaustion(self, policy: ExhaustionPolicy) -> (client: Client<T>)
        requires
            self.wf(),
        ensures
            client.wf(),
            client@ == (SessionView { policy, ..self@ }),
    {
        Client { policy, ..self }
    }

    /// The same session with `host` as the host that the upgrade names.
    pub fn with_host(self, host: String) -> (client: Client<T>)
        requires
            self.wf(),
        ensures
            client.wf(),
            client@ == (SessionView { host: host@, ..self@ }),
    {
        Client { host, ..self }
    }

    /// Whether `connect` and `join` are allowed: the session is `Idle` or `Closed`.
    pub fn may_connect(&self) -> (allowed: bool)
        ensures
            allowed == self@.may_connect(),
    {
        match self.state {
            SessionState::Idle => true,
            SessionState::Closed => true,
            _ => false,
        }
    }

    /// Whether `auth` is allowed: a transport is open and nothing was sent on it.
    pub fn may_auth(&self) -> (allowed: bool)
        ensures
            allowed == self@.may_auth(),
    {
        match self.state {
            SessionState::Unauthenticated => self.pristine,
            _ => false,
        }
    }

    /// Whether a transport is open.
    pub fn connected(&self) -> (open: bool)
        requires
            self.wf(),
        ensures
            open == self@.connected(),
            open == self@.transport is Some,
    {
        match self.state {
            SessionState::Unauthenticated => true,
            SessionState::Authenticated => true,
            _ => false,
        }
    }

    /// Takes what the transport reported for one wait of at most
    /// [`RECV_TIMEOUT_MS`] and answers with the frame or the error.
    ///
    /// A close frame, a stream error and the end of the stream tear the
    /// connection down: the handle leaves the session with the answer. A
    /// close frame is still returned. A timeout changes nothing.
    pub fn recv<F>(&mut self, event: RecvEvent<F>) -> (answer: Result<Received<F, T>, Misuse>)
        requires
            old(self).wf(),
        ensures
            final(self).wf(),
            match answer {
                Ok(received) => {
                    &&& old(self)@.connected()
                    &&& final(self)@ == old(self)@.received(event)
                    &&& received.result == recv_result(event)
                    &&& received.teardown == if ends_connection(event) {
                        old(self)@.transport
                    } else {
                        None
                    }
                },
                Err(misuse) => {
                    &&& !old(self)@.connected()
                    &&& misuse == Misuse::NotConnected
                    &&& final(self)@ == old(self)@
                },
            },
    {
        if !self.connected() {
            return Err(Misuse::NotConnected);
        }
        match event {
            RecvEvent::Frame { frame, close } => {
                let teardown = if close {
                    self.teardown()
                } else {
                    None
                };
                Ok(Received { result: Ok(frame), teardown })
            },
            RecvEvent::Broken => {
                let teardown = self.teardown();
                Ok(Received { result: Err(RecvError::Closed), teardown })
            },
            RecvEvent::Ended => {
                let teardown = self.teardown();
                Ok(Received { result: Err(RecvError::Closed), teardown })
            },
            RecvEvent::Elapsed => Ok(Received { result: Err(RecvError::Timeout), teardown: None }),
        }
    }

    /// Starts a connect for `room`. The attempts follow, one `try_connect`
    /// and one `attempt_finished` each.
    pub fn connect(&mut self, room: &str)
        requires
            old(self).wf(),
            old(self)@.may_connect(),
        ensures
            final(self).wf(),
            final(self)@ == old(self)@.connecting(room@, false),
    {
        self.begin(room, false)
    }

    /// Starts a connect for `room` that authenticates as soon as the
    /// transport is open: `connect`, then `auth`.
    pub fn join(&mut self, room: &str)
        requires
            old(self).wf(),
            old(self)@.may_connect(),
        ensures
            final(self).wf(),
            final(self)@ == old(self)@.connecting(room@, true),
    {
        self.begin(room, true)
    }

    fn begin(&mut self, room: &str, joining: bool)
        requires
            old(self).wf(),
            old(self)@.may_connect(),
        ensures
            final(self).wf(),
            final(self)@ == old(self)@.connecting(room@, joining),
    {
        self.room = Some(room.to_owned());
        self.token = None;
        self.state = SessionState::Connecting;
        self.attempts = 0;
        self.pristine = true;
        self.joining = joining;
    }

    /// What the next attempt asks of the transport: allowed while a connect
    /// is under way. Every attempt opens a new transport.
    pub fn try_connect(&self) -> (outcome: Result<ConnectRequest, Misuse>)
        requires
            self.wf(),
        ensures
            match outcome {
                Ok(request) => {
                    &&& self@.state is Connecting
                    &&& request.url@ == room_url(self@.host, self@.target.port, self@.room->0)
                    &&& request.attempt == self@.attempts + 1
                },
                Err(misuse) => !(self@.state is Connecting) && misuse == Misuse::NotConnecting,
            },
    {
        match self.state {
            SessionState::Connecting => {},
            _ => {
                return Err(Misuse::NotConnecting);
            },
        }
        match &self.room {
            Some(room) => {
                let mut url = String::from_str("ws://");
                url.append(self.host.as_str());
                url.push(':');
                push_decimal(&mut url, self.addr.port as u32);
                url.append("/api/room/");
                url.append(room.as_str());
                Ok(ConnectRequest { url, attempt: self.attempts + 1 })
            },
            None => Err(Misuse::NotConnecting),
        }
    }

    /// Takes the outcome of one attempt: the open transport, or why the
    /// attempt failed, and whether shutdown was requested meanwhile.
    ///
    /// An open transport ends the connect; where the connect is a `join`, a
    /// fresh token is made and the session is authenticated at once. After
    /// a failure the tenth attempt is the last: the session is `Failed`, and
    /// the policy tells how to surface it. Before that, a requested shutdown
    /// abandons the connect, and otherwise the next attempt follows after
    /// [`RETRY_BACKOFF_MS`].
    pub fn attempt_finished(&mut self, opened: Result<T, ConnectError>, shutdown: bool) -> (outcome:
        Result<ConnectStep, Misuse>)
        requires
            old(self).wf(),
        ensures
            final(self).wf(),
            match outcome {
                Ok(step) => {
                    &&& old(self)@.state is Connecting
                    &&& match opened {
                        Ok(handle) => if old(self)@.joining {
                            &&& step@ matches ConnectStepView::Joined(token)
                            &&& is_token(token)
                            &&& final(self)@ == old(self)@.opened(handle).authenticated(token)
                        } else {
                            &&& step@ == ConnectStepView::Connected
                            &&& final(self)@ == old(self)@.opened(handle)
                        },
                        Err(cause) => {
                            &&& step@ == old(self)@.refusal_step(cause, shutdown)
                            &&& final(self)@ == old(self)@.refused(shutdown)
                        },
                    }
                },
                Err(misuse) => {
                    &&& !(old(self)@.state is Connecting)
                    &&& misuse == Misuse::NotConnecting
                    &&& final(self)@ == old(self)@
                },
            },
    {
        match self.state {
            SessionState::Connecting => {},
            _ => {
                return Err(Misuse::NotConnecting);
            },
        }
        match opened {
            Ok(handle) => {
                self.stream = Some(handle);
                self.pristine = true;
                if self.joining {
                    self.joining = false;
                    let token = generate_token();
                    self.token = Some(token.clone());
                    self.state = SessionState::Authenticated;
                    self.pristine = false;
                    Ok(ConnectStep::Joined(token))
                } else {
                    self.state = SessionState::Unauthenticated;
                    Ok(ConnectStep::Connected)
                }
            },
            Err(cause) => {
                self.attempts = self.attempts + 1;
                if self.attempts >= MAX_CONNECT_ATTEMPTS {
                    self.state = SessionState::Failed;
                    Ok(ConnectStep::Exhausted { policy: self.policy, cause })
                } else if shutdown {
                    self.state = SessionState::Closed;
                    Ok(ConnectStep::Cancelled)
                } else {
                    Ok(ConnectStep::Retry { delay_ms: RETRY_BACKOFF_MS })
                }
            },
        }
    }

    /// Makes a fresh token and marks the session as authenticated, without
    /// waiting for the backend. Nothing was sent on the transport yet, so
    /// the token is the first message. The token is returned for sending.
    pub fn auth(&mut self) -> (token: String)
        requires
            old(self).wf(),
            old(self)@.may_auth(),
        ensures
            final(self).wf(),
            is_token(token@),
            final(self)@ == old(self)@.authenticated(token@),
    {
        let token = generate_token();
        self.token = Some(token.clone());
        self.state = SessionState::Authenticated;
        self.pristine = false;
        token
    }

    /// Admits one message to the open transport, authenticated or not.
    pub fn send_raw(&mut self)
        requires
            old(self).wf(),
            old(self)@.connected(),
        ensures
            final(self).wf(),
            final(self)@ == old(self)@.sent(),
    {
        self.pristine = false;
    }

    /// Starts the teardown of the open transport. The handle leaves the
    /// session for the close handshake; `teardown_finished` reports its end.
    pub fn disconnect(&mut self) -> (handle: T)
        requires
            old(self).wf(),
            old(self)@.connected(),
        ensures
            final(self).wf(),
            old(self)@.transport == Some(handle),
            final(self)@ == old(self)@.torn_down(),
    {
        self.teardown().unwrap()
    }

    /// Hands the transport out to be drained until the peer ends the
    /// stream. Nothing happens where no transport is open.
    pub fn wait_for_disconnect(&mut self) -> (handle: Option<T>)
        requires
            old(self).wf(),
        ensures
            final(self).wf(),
            handle == old(self)@.transport,
            final(self)@ == if old(self)@.connected() {
                old(self)@.torn_down()
            } else {
                old(self)@
            },
    {
        if !self.connected() {
            return None;
        }
        self.teardown()
    }

    /// Takes the end of a teardown: allowed while one is under way. Whether
    /// the close handshake succeeded does not matter: the session is `Closed`.
    pub fn teardown_finished(&mut self, acknowledged: bool) -> (outcome: Result<(), Misuse>)
        requires
            old(self).wf(),
        ensures
            final(self).wf(),
            match outcome {
                Ok(_) => old(self)@.state is Closing && final(self)@ == old(self)@.closed(),
                Err(misuse) => !(old(self)@.state is Closing) && misuse == Misuse::NotClosing
                    && final(self)@ == old(self)@,
            },
    {
        match self.state {
            SessionState::Closing => {
                self.state = SessionState::Closed;
                Ok(())
            },
            _ => Err(Misuse::NotClosing),
        }
    }

    /// The open transport, for the driver to send and receive on. What the
    /// driver does to the handle stays in the slot; the session is otherwise
    /// as it was.
    pub fn transport(&mut self) -> (handle: Option<&mut T>)
        requires
            old(self).wf(),
        ensures
            final(self).wf(),
            match handle {
                Some(h) => {
                    &&& old(self)@.transport == Some(*h)
                    &&& final(self)@ == (SessionView {
                        transport: Some(*final(h)),
                        ..old(self)@
                    })
                },
                None => old(self)@.transport is None && final(self)@ == old(self)@,
            },
    {
        self.stream.as_mut()
    }

    /// The lifecycle state.
    pub fn state(&self) -> (state: SessionState)
        ensures
            state == self@.state,
    {
        self.state
    }

    /// The host that the upgrade names.
    pub fn host(&self) -> (host: &str)
        ensures
            host@ == self@.host,
    {
        self.host.as_str()
    }

    /// The backend that the transport is opened to.
    pub fn target(&self) -> (target: &ConnectionTarget)
        ensures
            target@ == self@.target,
    {
        &self.addr
    }

    /// The room of the current or last connect.
    pub fn room(&self) -> (room: Option<&str>)
        ensures
            match room {
                Some(r) => self@.room == Some(r@),
                None => self@.room is None,
            },
    {
        match &self.room {
            Some(r) => Some(r.as_str()),
            None => None,
        }
    }

    /// The token presented on the current or last transport.
    pub fn token(&self) -> (token: Option<&str>)
        ensures
            match token {
                Some(t) => self@.token == Some(t@),
                None => self@.token is None,
            },
    {
        match &self.token {
            Some(t) => Some(t.as_str()),
            None => None,
        }
    }

    /// How many attempts of the current or last connect failed.
    pub fn attempts(&self) -> (n: u32)
        ensures
            n == self@.attempts,
    {
        self.attempts
    }

    /// Moves the transport out of its slot and marks the session as closing.
    fn teardown(&mut self) -> (handle: Option<T>)
        requires
            old(self).wf(),
            old(self)@.connected(),
        ensures
            final(self).wf(),
            final(self)@ == old(self)@.torn_down(),
            handle == old(self)@.transport,
            handle is Some,
    {
        self.state = SessionState::Closing;
        self.stream.take()
    }
}

} // verus!
