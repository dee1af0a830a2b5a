//! The server lifecycle and the accept loop's decisions.
//!
//! A server is single-use: created, run once, stopped.  The one piece of
//! state every task shares is the running flag, modelled here as a
//! `Lifecycle` phase; the loop that owns the listening socket reports
//! each accept attempt as an `AcceptEvent` and `accept_step` answers
//! with what to do.  Once stopped, no event brings the server back to
//! running: shutdown is final, and stopping again is a harmless no-op.

use vstd::prelude::*;

verus! {

/// The phase of a server's life: not yet run, accepting connections, or
/// shut down.
#[derive(Clone, Copy, Debug, PartialEq, Eq, Structural)]
pub enum Phase {
    Created,
    Running,
    Stopped,
}

/// The two lifecycle controls a server exposes.
#[derive(Clone, Copy, Debug, PartialEq, Eq, Structural)]
pub enum ControlEvent {
    Start,
    Stop,
}

/// How one lifecycle control changes the phase.  `Start` only moves a
/// freshly created server to running; `Stop` always leaves the server
/// stopped.
pub open spec fn lifecycle_step(p: Phase, e: ControlEvent) -> Phase {
    match e {
        ControlEvent::Start => match p {
            Phase::Created => Phase::Running,
            _ => p,
        },
        ControlEvent::Stop => Phase::Stopped,
    }
}

/// Shutdown is final: no control brings a stopped server back.
pub proof fn lemma_stopped_is_final(e: ControlEvent)
    ensures
        lifecycle_step(Phase::Stopped, e) is Stopped,
{
}

/// Stopping is idempotent: a second stop changes nothing.
pub proof fn lemma_stop_idempotent(p: Phase)
    ensures
        lifecycle_step(lifecycle_step(p, ControlEvent::Stop), ControlEvent::Stop)
            == lifecycle_step(p, ControlEvent::Stop),
{
}

/// The running flag shared by the accept loop and every connection
/// handler, together with its single-use discipline.
pub struct Lifecycle {
    phase: Phase,
}

impl View for Lifecycle {
    type V = Phase;

    closed spec fn view(&self) -> Phase {
        self.phase
    }
}

impl Lifecycle {
    /// A new server has not started accepting yet.
    pub fn new() -> (r: Self)
        ensures
            r@ is Created,
    {
        Lifecycle { phase: Phase::Created }
    }

    /// Enter the accept loop: the flag goes up exactly once, on a
    /// freshly created server.
    pub fn start(&mut self)
        ensures
            final(self)@ == lifecycle_step(old(self)@, ControlEvent::Start),
    {
        match self.phase {
            Phase::Created => {
                self.phase = Phase::Running;
            },
            _ => {},
        }
    }

    /// Signal shutdown.  Idempotent: stopping an already stopped server
    /// changes nothing and is not an error.
    pub fn stop(&mut self)
        ensures
            final(self)@ == lifecycle_step(old(self)@, ControlEvent::Stop),
            final(self)@ is Stopped,
    {
        self.phase = Phase::Stopped;
    }

    /// Read the flag, as the accept loop and every handler do before
    /// each turn.
    pub fn is_running(&self) -> (r: bool)
        ensures
            r == (self@ is Running),
    {
        match self.phase {
            Phase::Running => true,
            _ => false,
        }
    }

    /// The current phase.
    pub fn phase(&self) -> (r: Phase)
        ensures
            r == self@,
    {
        self.phase
    }
}

/// What one accept attempt produced: a connection, nothing pending (a
/// non-blocking accept with no one waiting), or an accept failure.
#[derive(Clone, Copy, Debug, PartialEq, Eq, Structural)]
pub enum AcceptEvent {
    Connected,
    WouldBlock,
    Failed,
}

/// What the accept loop does next: hand the new connection to its own
/// handler task, sleep one poll interval before retrying, log the
/// failure and carry on, or leave the loop.
#[derive(Clone, Copy, Debug, PartialEq, Eq, Structural)]
pub enum AcceptAction {
    Spawn,
    Sleep,
    Ignore,
    Exit,
}

/// Decide one turn of the accept loop.  A cleared running flag ends the
/// loop — within one poll of `stop()` — whatever the event; otherwise a
/// connection is handed to a handler, an empty poll sleeps briefly, and
/// a single failed accept is logged and survived.
pub fn accept_step(running: bool, event: AcceptEvent) -> (r: AcceptAction)
    ensures
        !running ==> r is Exit,
        running && event is Connected ==> r is Spawn,
        running && event is WouldBlock ==> r is Sleep,
        running && event is Failed ==> r is Ignore,
{
    if !running {
        AcceptAction::Exit
    } else {
        match event {
            AcceptEvent::Connected => AcceptAction::Spawn,
            AcceptEvent::WouldBlock => AcceptAction::Sleep,
            AcceptEvent::Failed => AcceptAction::Ignore,
        }
    }
}

} // verus!
