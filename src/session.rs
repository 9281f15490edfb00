use vstd::prelude::*;

use crate::subscriptions::{
    subscribe_message, subscribe_text, unsubscribe_message, unsubscribe_text,
    UNSUBSCRIBE_ID_OFFSET,
};

verus! {

/// Who asked for the session to end.
#[derive(Debug, Clone, Copy, PartialEq, Eq, Structural)]
pub enum ShutdownSource {
    /// The operator asked to stop (a key press).
    Operator,
    /// The process was interrupted (Ctrl+C).
    Interrupt,
    /// The peer closed the connection.
    PeerClose,
    /// An unrecoverable error occurred.
    Fatal,
}

/// A single-fire shutdown notification: the first trigger wins, later ones
/// change nothing.
pub struct ShutdownSignal {
    fired: Option<ShutdownSource>,
}

/// The cause recorded after a trigger from `source` on a signal with `cause`.
pub open spec fn fired_after(cause: Option<ShutdownSource>, source: ShutdownSource) -> Option<
    ShutdownSource,
> {
    if cause.is_none() {
        Some(source)
    } else {
        cause
    }
}

impl ShutdownSignal {
    /// The source that fired the signal, if any did.
    pub closed spec fn cause(&self) -> Option<ShutdownSource> {
        self.fired
    }

    /// A signal that has not fired.
    pub fn new() -> (r: ShutdownSignal)
        ensures
            r.cause().is_none(),
    {
        ShutdownSignal { fired: None }
    }

    /// Fires the signal from `source`. Returns whether this call fired it;
    /// once fired, the first source is kept.
    pub fn trigger(&mut self, source: ShutdownSource) -> (first: bool)
        ensures
            first == old(self).cause().is_none(),
            final(self).cause() == fired_after(old(self).cause(), source),
    {
        if self.fired.is_some() {
            false
        } else {
            self.fired = Some(source);
            true
        }
    }

    /// The source that fired the signal, if any did.
    pub fn fired_by(&self) -> (r: Option<ShutdownSource>)
        ensures
            r == self.cause(),
    {
        self.fired
    }
}

/// Triggering the signal from two sources one after the other fires it
/// once: only the first trigger reports firing, and the first source is kept.
pub proof fn lemma_shutdown_fires_once(first: ShutdownSource, second: ShutdownSource)
    ensures
        fired_after(None, first) == Some(first),
        fired_after(fired_after(None, first), second) == Some(first),
{
}

/// Phases of a streaming session.
#[derive(Debug, Clone, Copy, PartialEq, Eq, Structural)]
pub enum SessionPhase {
    Disconnected,
    Connecting,
    Subscribing,
    Streaming,
    Unsubscribing,
    Closed,
    Failed,
}

/// What the surrounding runtime reports to the session.
#[derive(Debug, Clone, Copy, PartialEq, Eq, Structural)]
pub enum SessionEvent {
    /// The caller starts the session.
    Start,
    /// The connection opened.
    Connected,
    /// The connection could not be opened.
    ConnectFailed,
    /// The SUBSCRIBE request was sent.
    SubscribeSent,
    /// Sending the SUBSCRIBE request failed.
    SubscribeFailed,
    /// A shutdown source fired.
    Shutdown(ShutdownSource),
    /// The read loop stopped on its own: peer close or read error.
    StreamEnded,
    /// The best-effort UNSUBSCRIBE send finished, whether or not it succeeded.
    UnsubscribeAttempted,
}

/// The kind of work the session asks the runtime to do next.
#[derive(Debug, Clone, Copy, PartialEq, Eq, Structural)]
pub enum ActionKind {
    Connect,
    SendSubscribe,
    StartStreaming,
    SendUnsubscribe,
    Close,
    ReportConnectError,
    Abort,
    Nothing,
}

/// Work the session asks the runtime to do next.
pub enum SessionAction {
    /// Open the connection.
    Connect,
    /// Send this SUBSCRIBE request text.
    SendSubscribe(String),
    /// Run the read loop and the keepalive until shutdown.
    StartStreaming,
    /// Send this UNSUBSCRIBE request text; failures are swallowed.
    SendUnsubscribe(String),
    /// Close the connection; the session ended normally.
    Close,
    /// The connection could not be opened: report it to the caller.
    ReportConnectError,
    /// Sending the subscription failed: close and report it to the caller.
    Abort,
    /// Nothing to do.
    Nothing,
}

impl SessionAction {
    /// The kind of this action.
    pub open spec fn kind(&self) -> ActionKind {
        match self {
            SessionAction::Connect => ActionKind::Connect,
            SessionAction::SendSubscribe(_) => ActionKind::SendSubscribe,
            SessionAction::StartStreaming => ActionKind::StartStreaming,
            SessionAction::SendUnsubscribe(_) => ActionKind::SendUnsubscribe,
            SessionAction::Close => ActionKind::Close,
            SessionAction::ReportConnectError => ActionKind::ReportConnectError,
            SessionAction::Abort => ActionKind::Abort,
            SessionAction::Nothing => ActionKind::Nothing,
        }
    }
}

/// The session's transition function: next phase and the kind of action.
/// Any pair not listed leaves the phase as it is and asks for nothing.
pub open spec fn transition(phase: SessionPhase, event: SessionEvent) -> (SessionPhase, ActionKind) {
    match (phase, event) {
        (SessionPhase::Disconnected, SessionEvent::Start) => (
            SessionPhase::Connecting,
            ActionKind::Connect,
        ),
        (SessionPhase::Connecting, SessionEvent::Connected) => (
            SessionPhase::Subscribing,
            ActionKind::SendSubscribe,
        ),
        (SessionPhase::Connecting, SessionEvent::ConnectFailed) => (
            SessionPhase::Failed,
            ActionKind::ReportConnectError,
        ),
        (SessionPhase::Subscribing, SessionEvent::SubscribeSent) => (
            SessionPhase::Streaming,
            ActionKind::StartStreaming,
        ),
        (SessionPhase::Subscribing, SessionEvent::SubscribeFailed) => (
            SessionPhase::Failed,
            ActionKind::Abort,
        ),
        (SessionPhase::Streaming, SessionEvent::Shutdown(_)) => (
            SessionPhase::Unsubscribing,
            ActionKind::SendUnsubscribe,
        ),
        (SessionPhase::Streaming, SessionEvent::StreamEnded) => (
            SessionPhase::Unsubscribing,
            ActionKind::SendUnsubscribe,
        ),
        (SessionPhase::Unsubscribing, SessionEvent::UnsubscribeAttempted) => (
            SessionPhase::Closed,
            ActionKind::Close,
        ),
        _ => (phase, ActionKind::Nothing),
    }
}

/// Phase reached and actions asked for, from `phase`, over `events` in order.
pub open spec fn run(phase: SessionPhase, events: Seq<SessionEvent>) -> (
    SessionPhase,
    Seq<ActionKind>,
)
    decreases events.len(),
{
    if events.len() == 0 {
        (phase, Seq::empty())
    } else {
        let (p, acts) = run(phase, events.drop_last());
        let (q, a) = transition(p, events.last());
        (q, acts.push(a))
    }
}

/// How many of `acts` are of kind `k`.
pub open spec fn count_kind(acts: Seq<ActionKind>, k: ActionKind) -> nat
    decreases acts.len(),
{
    if acts.len() == 0 {
        0
    } else {
        count_kind(acts.drop_last(), k) + if acts.last() == k {
            1nat
        } else {
            0nat
        }
    }
}

proof fn lemma_count_push(acts: Seq<ActionKind>, a: ActionKind, k: ActionKind)
    ensures
        count_kind(acts.push(a), k) == count_kind(acts, k) + if a == k {
            1nat
        } else {
            0nat
        },
{
    assert(acts.push(a).drop_last() =~= acts);
}

/// Unsubscribe and close requests are tied to the phase a run reaches.
proof fn lemma_run_counts(events: Seq<SessionEvent>)
    ensures
        ({
            let (p, acts) = run(SessionPhase::Disconnected, events);
            &&& count_kind(acts, ActionKind::SendUnsubscribe) == if p == SessionPhase::Unsubscribing
                || p == SessionPhase::Closed {
                1nat
            } else {
                0nat
            }
            &&& count_kind(acts, ActionKind::Close) == if p == SessionPhase::Closed {
                1nat
            } else {
                0nat
            }
        }),
    decreases events.len(),
{
    if events.len() > 0 {
        lemma_run_counts(events.drop_last());
        let (p, acts) = run(SessionPhase::Disconnected, events.drop_last());
        let (q, a) = transition(p, events.last());
        lemma_count_push(acts, a, ActionKind::SendUnsubscribe);
        lemma_count_push(acts, a, ActionKind::Close);
    }
}

/// Whatever the runtime reports, in whatever order, a session sends at most
/// one UNSUBSCRIBE and closes at most once.
pub proof fn lemma_teardown_at_most_once(events: Seq<SessionEvent>)
    ensures
        count_kind(run(SessionPhase::Disconnected, events).1, ActionKind::SendUnsubscribe) <= 1,
        count_kind(run(SessionPhase::Disconnected, events).1, ActionKind::Close) <= 1,
{
    lemma_run_counts(events);
}

/// Two shutdown sources firing one after the other while streaming yield
/// exactly one UNSUBSCRIBE and, once it was attempted, exactly one close.
pub proof fn lemma_two_shutdowns_one_teardown(
    prefix: Seq<SessionEvent>,
    first: ShutdownSource,
    second: ShutdownSource,
)
    requires
        run(SessionPhase::Disconnected, prefix).0 == SessionPhase::Streaming,
    ensures
        ({
            let events = prefix + seq![
                SessionEvent::Shutdown(first),
                SessionEvent::Shutdown(second),
                SessionEvent::UnsubscribeAttempted,
            ];
            &&& count_kind(run(SessionPhase::Disconnected, events).1, ActionKind::SendUnsubscribe)
                == 1
            &&& count_kind(run(SessionPhase::Disconnected, events).1, ActionKind::Close) == 1
            &&& run(SessionPhase::Disconnected, events).0 == SessionPhase::Closed
        }),
{
    let e1 = prefix.push(SessionEvent::Shutdown(first));
    let e2 = e1.push(SessionEvent::Shutdown(second));
    let e3 = e2.push(SessionEvent::UnsubscribeAttempted);
    assert(e1.drop_last() =~= prefix);
    assert(e2.drop_last() =~= e1);
    assert(e3.drop_last() =~= e2);
    assert(e3 =~= prefix + seq![
        SessionEvent::Shutdown(first),
        SessionEvent::Shutdown(second),
        SessionEvent::UnsubscribeAttempted,
    ]);
    lemma_run_counts(prefix);
    let acts0 = run(SessionPhase::Disconnected, prefix).1;
    let acts1 = acts0.push(ActionKind::SendUnsubscribe);
    let acts2 = acts1.push(ActionKind::Nothing);
    let acts3 = acts2.push(ActionKind::Close);
    assert(e1.last() == SessionEvent::Shutdown(first));
    assert(e2.last() == SessionEvent::Shutdown(second));
    assert(e3.last() == SessionEvent::UnsubscribeAttempted);
    assert(run(SessionPhase::Disconnected, e1) == (SessionPhase::Unsubscribing, acts1));
    assert(run(SessionPhase::Disconnected, e2) == (SessionPhase::Unsubscribing, acts2));
    assert(run(SessionPhase::Disconnected, e3) == (SessionPhase::Closed, acts3));
    lemma_count_push(acts0, ActionKind::SendUnsubscribe, ActionKind::SendUnsubscribe);
    lemma_count_push(acts1, ActionKind::Nothing, ActionKind::SendUnsubscribe);
    lemma_count_push(acts2, ActionKind::Close, ActionKind::SendUnsubscribe);
    lemma_count_push(acts0, ActionKind::SendUnsubscribe, ActionKind::Close);
    lemma_count_push(acts1, ActionKind::Nothing, ActionKind::Close);
    lemma_count_push(acts2, ActionKind::Close, ActionKind::Close);
}

/// One streaming session: the stream set and subscribe id it was made for,
/// and its phase.
pub struct SessionController {
    streams: Vec<String>,
    base_id: u64,
    phase: SessionPhase,
}

impl SessionController {
    /// The stream names the session subscribes to.
    pub closed spec fn streams(&self) -> Seq<Seq<char>> {
        self.streams.deep_view()
    }

    /// The subscribe correlation id.
    pub closed spec fn base_id(&self) -> nat {
        self.base_id as nat
    }

    /// The current phase.
    pub closed spec fn phase(&self) -> SessionPhase {
        self.phase
    }

    /// A session for `streams`, subscribing under correlation id `base_id`.
    pub fn new(streams: Vec<String>, base_id: u64) -> (r: SessionController)
        requires
            base_id <= u64::MAX - UNSUBSCRIBE_ID_OFFSET,
        ensures
            r.streams() == streams.deep_view(),
            r.base_id() == base_id,
            r.phase() == SessionPhase::Disconnected,
    {
        SessionController { streams, base_id, phase: SessionPhase::Disconnected }
    }

    /// The current phase.
    pub fn current_phase(&self) -> (r: SessionPhase)
        ensures
            r == self.phase(),
    {
        self.phase
    }

    /// Feeds one event to the session and returns the work it asks for. The
    /// SUBSCRIBE request covers the session's streams under its id; the
    /// UNSUBSCRIBE request covers the same streams, in the same order, under
    /// that id plus `UNSUBSCRIBE_ID_OFFSET`.
    pub fn step(&mut self, event: SessionEvent) -> (r: SessionAction)
        requires
            old(self).base_id() <= u64::MAX - UNSUBSCRIBE_ID_OFFSET,
        ensures
            final(self).streams() == old(self).streams(),
            final(self).base_id() == old(self).base_id(),
            (final(self).phase(), r.kind()) == transition(old(self).phase(), event),
            r matches SessionAction::SendSubscribe(t) ==> t@ == subscribe_text(
                old(self).streams(),
                old(self).base_id(),
            ),
            r matches SessionAction::SendUnsubscribe(t) ==> t@ == unsubscribe_text(
                old(self).streams(),
                (old(self).base_id() + UNSUBSCRIBE_ID_OFFSET) as nat,
            ),
    {
        match (self.phase, event) {
            (SessionPhase::Disconnected, SessionEvent::Start) => {
                self.phase = SessionPhase::Connecting;
                SessionAction::Connect
            },
            (SessionPhase::Connecting, SessionEvent::Connected) => {
                self.phase = SessionPhase::Subscribing;
                SessionAction::SendSubscribe(subscribe_message(self.streams.clone(), self.base_id))
            },
            (SessionPhase::Connecting, SessionEvent::ConnectFailed) => {
                self.phase = SessionPhase::Failed;
                SessionAction::ReportConnectError
            },
            (SessionPhase::Subscribing, SessionEvent::SubscribeSent) => {
                self.phase = SessionPhase::Streaming;
                SessionAction::StartStreaming
            },
            (SessionPhase::Subscribing, SessionEvent::SubscribeFailed) => {
                self.phase = SessionPhase::Failed;
                SessionAction::Abort
            },
            (SessionPhase::Streaming, SessionEvent::Shutdown(_))
            | (SessionPhase::Streaming, SessionEvent::StreamEnded) => {
                self.phase = SessionPhase::Unsubscribing;
                SessionAction::SendUnsubscribe(
                    unsubscribe_message(self.streams.clone(), self.base_id + UNSUBSCRIBE_ID_OFFSET),
                )
            },
            (SessionPhase::Unsubscribing, SessionEvent::UnsubscribeAttempted) => {
                self.phase = SessionPhase::Closed;
                SessionAction::Close
            },
            _ => SessionAction::Nothing,
        }
    }
}

} // verus!
