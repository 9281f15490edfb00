use vstd::prelude::*;

use crate::frame::{parse_agg_trade, parse_outcome, RawAggTrade};
use crate::storage::{window_after_add, AggTradeStorage};

verus! {

/// Phases of the read loop.
#[derive(Debug, Clone, Copy, PartialEq, Eq, Structural)]
pub enum DispatchPhase {
    /// Frames are delivered to the storage.
    Running,
    /// A stop was seen; nothing more is delivered.
    Draining,
    /// The loop has exited.
    Stopped,
}

/// Whichever of the raced sources became ready first in one loop iteration.
pub enum Inbound {
    /// A text frame whose JSON body was decoded into its fields.
    Trade(RawAggTrade),
    /// A text frame whose body is not JSON of the expected shape.
    Malformed,
    /// A frame with nothing to dispatch (ping, pong, binary).
    Ignored,
    /// The peer sent a close frame.
    PeerClose,
    /// Reading failed, or the stream ended.
    ReadError,
    /// The shutdown notification arrived.
    Shutdown,
}

/// What one loop iteration did.
#[derive(Debug, Clone, Copy, PartialEq, Eq, Structural)]
pub enum DispatchOutcome {
    /// A record was added to the storage; a snapshot is due.
    Delivered,
    /// The frame was discarded; the loop goes on.
    Skipped,
    /// The loop must stop.
    Stop,
}

/// Whether an inbound event ends the read loop.
pub open spec fn ends_loop(inbound: Inbound) -> bool {
    match inbound {
        Inbound::PeerClose | Inbound::ReadError | Inbound::Shutdown => true,
        _ => false,
    }
}

/// The read loop's state: delivers parsed trades to the storage while running.
pub struct Dispatcher {
    phase: DispatchPhase,
}

impl Dispatcher {
    /// The current phase.
    pub closed spec fn phase(&self) -> DispatchPhase {
        self.phase
    }

    /// A running dispatcher.
    pub fn new() -> (r: Dispatcher)
        ensures
            r.phase() == DispatchPhase::Running,
    {
        Dispatcher { phase: DispatchPhase::Running }
    }

    /// The current phase.
    pub fn current_phase(&self) -> (r: DispatchPhase)
        ensures
            r == self.phase(),
    {
        self.phase
    }

    /// Handles one inbound event. While running, a valid trade is added to the
    /// storage; a malformed or invalid frame is discarded; peer close, read
    /// error or shutdown moves to draining. Once not running, nothing is
    /// delivered and the loop is told to stop.
    pub fn on_inbound(&mut self, storage: &mut AggTradeStorage, inbound: Inbound) -> (r:
        DispatchOutcome)
        requires
            old(storage).wf(),
        ensures
            final(storage).wf(),
            final(storage).cap() == old(storage).cap(),
            old(self).phase() != DispatchPhase::Running ==> {
                &&& r == DispatchOutcome::Stop
                &&& final(self).phase() == old(self).phase()
                &&& final(storage).window() == old(storage).window()
            },
            old(self).phase() == DispatchPhase::Running && ends_loop(inbound) ==> {
                &&& r == DispatchOutcome::Stop
                &&& final(self).phase() == DispatchPhase::Draining
                &&& final(storage).window() == old(storage).window()
            },
            old(self).phase() == DispatchPhase::Running && !ends_loop(inbound) ==> {
                &&& final(self).phase() == DispatchPhase::Running
                &&& match inbound {
                    Inbound::Trade(raw) => match parse_outcome(raw) {
                        Ok(t) => r == DispatchOutcome::Delivered && final(storage).window()
                            == window_after_add(old(storage).window(), old(storage).cap(), t),
                        Err(_) => r == DispatchOutcome::Skipped && final(storage).window() == old(
                            storage,
                        ).window(),
                    },
                    _ => r == DispatchOutcome::Skipped && final(storage).window() == old(
                        storage,
                    ).window(),
                }
            },
    {
        if self.phase != DispatchPhase::Running {
            return DispatchOutcome::Stop;
        }
        match inbound {
            Inbound::Trade(raw) => match parse_agg_trade(raw) {
                Ok(t) => {
                    storage.add_trade(t);
                    DispatchOutcome::Delivered
                },
                Err(_) => DispatchOutcome::Skipped,
            },
            Inbound::Malformed | Inbound::Ignored => DispatchOutcome::Skipped,
            Inbound::PeerClose | Inbound::ReadError | Inbound::Shutdown => {
                self.phase = DispatchPhase::Draining;
                DispatchOutcome::Stop
            },
        }
    }

    /// Leaves draining: the loop has exited.
    pub fn finish(&mut self)
        ensures
            final(self).phase() == if old(self).phase() == DispatchPhase::Running {
                DispatchPhase::Running
            } else {
                DispatchPhase::Stopped
            },
    {
        if self.phase != DispatchPhase::Running {
            self.phase = DispatchPhase::Stopped;
        }
    }
}

/// What the keepalive ticker sees.
#[derive(Debug, Clone, Copy, PartialEq, Eq, Structural)]
pub enum KeepAliveEvent {
    /// The interval elapsed.
    Tick,
    /// The shutdown notification arrived.
    Shutdown,
}

/// What the keepalive ticker sends.
#[derive(Debug, Clone, Copy, PartialEq, Eq, Structural)]
pub enum KeepAliveAction {
    SendPing,
    SendClose,
    Idle,
}

/// The keepalive ticker: pings on each tick until shutdown, then sends one
/// close frame and stops.
pub struct KeepAlive {
    stopped: bool,
}

/// The keepalive's transition: stopped flag after, and what it sends.
pub open spec fn keepalive_transition(stopped: bool, event: KeepAliveEvent) -> (bool, KeepAliveAction) {
    if stopped {
        (true, KeepAliveAction::Idle)
    } else {
        match event {
            KeepAliveEvent::Tick => (false, KeepAliveAction::SendPing),
            KeepAliveEvent::Shutdown => (true, KeepAliveAction::SendClose),
        }
    }
}

/// What a keepalive sends over `events`, starting running.
pub open spec fn keepalive_run(events: Seq<KeepAliveEvent>) -> (bool, Seq<KeepAliveAction>)
    decreases events.len(),
{
    if events.len() == 0 {
        (false, Seq::empty())
    } else {
        let (stopped, acts) = keepalive_run(events.drop_last());
        let (s, a) = keepalive_transition(stopped, events.last());
        (s, acts.push(a))
    }
}

/// A keepalive sends at most one close frame, and no ping after it.
pub proof fn lemma_keepalive_closes_once(events: Seq<KeepAliveEvent>)
    ensures
        ({
            let (stopped, acts) = keepalive_run(events);
            &&& forall|i: int, j: int|
                0 <= i < j < acts.len() && acts[i] == KeepAliveAction::SendClose ==> acts[j]
                    == KeepAliveAction::Idle
            &&& (exists|i: int| 0 <= i < acts.len() && acts[i] == KeepAliveAction::SendClose)
                == stopped
        }),
    decreases events.len(),
{
    if events.len() > 0 {
        lemma_keepalive_closes_once(events.drop_last());
        let (stopped, acts) = keepalive_run(events.drop_last());
        let (s, a) = keepalive_transition(stopped, events.last());
        let next = acts.push(a);
        assert(forall|i: int| 0 <= i < acts.len() ==> next[i] == acts[i]);
        if a == KeepAliveAction::SendClose {
            assert(next[acts.len() as int] == KeepAliveAction::SendClose);
        }
        if stopped {
            let k = choose|i: int| 0 <= i < acts.len() && acts[i] == KeepAliveAction::SendClose;
            assert(next[k] == KeepAliveAction::SendClose);
        }
    }
}

impl KeepAlive {
    /// Whether the ticker has stopped.
    pub closed spec fn is_stopped(&self) -> bool {
        self.stopped
    }

    /// A running ticker.
    pub fn new() -> (r: KeepAlive)
        ensures
            !r.is_stopped(),
    {
        KeepAlive { stopped: false }
    }

    /// Handles one event; never both pings and closes on the same one.
    pub fn on_event(&mut self, event: KeepAliveEvent) -> (r: KeepAliveAction)
        ensures
            (final(self).is_stopped(), r) == keepalive_transition(old(self).is_stopped(), event),
    {
        if self.stopped {
            return KeepAliveAction::Idle;
        }
        match event {
            KeepAliveEvent::Tick => KeepAliveAction::SendPing,
            KeepAliveEvent::Shutdown => {
                self.stopped = true;
                KeepAliveAction::SendClose
            },
        }
    }
}

} // verus!
