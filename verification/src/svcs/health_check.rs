//! The supervisor of one pool: its life, and what its probe loop does next.
//!
//! The supervisor does not probe. The loop that does lives with the caller: at
//! each round it hands in a `Tick`, probes what the supervisor asks it to probe,
//! and hands each outcome back. The supervisor keeps the pool's liveness current
//! from those outcomes and tells the loop when to end.

use vstd::prelude::*;
use super::address::BackendAddress;
use super::pool::{BackendPool, PoolView};

verus! {

/// Seconds between two rounds of probes.
pub const HEALTH_CHECK_FREQUENCY_SECS: u64 = 1;

/// Where a supervisor stands in its life.
#[derive(Clone, Copy, Debug, PartialEq, Eq, Structural)]
pub enum Lifecycle {
    /// Built, its probe loop not yet running. It answers selections already.
    Starting,
    /// Its probe loop runs.
    Running,
    /// Told to stop; its probe loop ends at the next round.
    Stopping,
    /// Its probe loop has ended. This is final.
    Stopped,
}

/// What the probe loop reports to its supervisor.
#[derive(Clone, Copy, Debug, PartialEq, Eq, Structural)]
pub enum ProbeEvent {
    /// A round begins.
    Tick,
    /// A probe of `backend` has ended, and found it reachable or not.
    Probed { backend: BackendAddress, reachable: bool },
    /// The process is shutting down.
    Cancelled,
}

/// What the probe loop is to do next.
#[derive(Debug, PartialEq, Eq)]
pub enum ProbeAction {
    /// Probe each of these backends and report each outcome.
    Probe(Vec<BackendAddress>),
    /// Nothing now; wait for the next round.
    Wait,
    /// End the loop.
    Exit,
}

/// Mathematical form of [`ProbeAction`].
pub enum ProbeActionView {
    Probe(Seq<BackendAddress>),
    Wait,
    Exit,
}

impl View for ProbeAction {
    type V = ProbeActionView;

    open spec fn view(&self) -> ProbeActionView {
        match self {
            ProbeAction::Probe(backends) => ProbeActionView::Probe(backends@),
            ProbeAction::Wait => ProbeActionView::Wait,
            ProbeAction::Exit => ProbeActionView::Exit,
        }
    }
}

/// Mathematical form of an [`UpstreamsHealthCheck`].
pub struct SupervisorView {
    pub pool: PoolView,
    pub state: Lifecycle,
}

impl SupervisorView {
    /// The supervisor built from `addresses`: their pool, not yet started.
    pub open spec fn of(addresses: Seq<BackendAddress>) -> SupervisorView {
        SupervisorView { pool: PoolView::of(addresses), state: Lifecycle::Starting }
    }

    /// The invariant of a supervisor: that of its pool.
    pub open spec fn wf(self) -> bool {
        self.pool.wf()
    }

    /// The supervisor once its probe loop has been launched: a `Starting` one
    /// runs, any other is as it was.
    pub open spec fn started(self) -> SupervisorView {
        if self.state == Lifecycle::Starting {
            SupervisorView { state: Lifecycle::Running, ..self }
        } else {
            self
        }
    }

    /// The supervisor once told to stop: one that has not stopped is stopping.
    pub open spec fn stopping(self) -> SupervisorView {
        if self.state == Lifecycle::Starting || self.state == Lifecycle::Running {
            SupervisorView { state: Lifecycle::Stopping, ..self }
        } else {
            self
        }
    }

    /// The supervisor after `event`, and what it tells the probe loop.
    ///
    /// A round probes every configured backend while the supervisor runs, and
    /// ends the loop once it has been told to stop. An outcome sets the liveness
    /// of its backend while the supervisor runs, and is dropped otherwise.
    /// Cancellation ends the loop at once.
    pub open spec fn on_event(self, event: ProbeEvent) -> (SupervisorView, ProbeActionView) {
        match event {
            ProbeEvent::Tick => match self.state {
                Lifecycle::Starting => (self, ProbeActionView::Wait),
                Lifecycle::Running => (self, ProbeActionView::Probe(self.pool.backends)),
                Lifecycle::Stopping | Lifecycle::Stopped => (
                    SupervisorView { state: Lifecycle::Stopped, ..self },
                    ProbeActionView::Exit,
                ),
            },
            ProbeEvent::Probed { backend, reachable } => match self.state {
                Lifecycle::Running => (
                    SupervisorView { pool: self.pool.with_health(backend, reachable), ..self },
                    ProbeActionView::Wait,
                ),
                Lifecycle::Starting | Lifecycle::Stopping => (self, ProbeActionView::Wait),
                Lifecycle::Stopped => (self, ProbeActionView::Exit),
            },
            ProbeEvent::Cancelled => (
                SupervisorView { state: Lifecycle::Stopped, ..self },
                ProbeActionView::Exit,
            ),
        }
    }
}

/// One pool of backends and the state of the loop that probes them.
pub struct UpstreamsHealthCheck {
    upstreams: BackendPool,
    state: Lifecycle,
}

impl View for UpstreamsHealthCheck {
    type V = SupervisorView;

    closed spec fn view(&self) -> SupervisorView {
        SupervisorView { pool: self.upstreams@, state: self.state }
    }
}

impl UpstreamsHealthCheck {
    /// A supervisor for `upstreams`, not yet started.
    pub fn new(upstreams: BackendPool) -> (supervisor: UpstreamsHealthCheck)
        ensures
            supervisor@ == (SupervisorView { pool: upstreams@, state: Lifecycle::Starting }),
    {
        UpstreamsHealthCheck { upstreams, state: Lifecycle::Starting }
    }

    /// A supervisor, not yet started, for the pool of the given addresses: each of
    /// them once, ascending, all taken to be live until a probe says otherwise.
    pub fn from(addresses: Vec<BackendAddress>) -> (supervisor: UpstreamsHealthCheck)
        ensures
            supervisor@ == SupervisorView::of(addresses@),
            supervisor@.wf(),
    {
        UpstreamsHealthCheck::new(BackendPool::from_addresses(addresses))
    }

    /// The pool under supervision.
    pub fn task(&self) -> (pool: &BackendPool)
        ensures
            pool@ == self@.pool,
    {
        &self.upstreams
    }

    /// Where the supervisor stands in its life.
    pub fn state(&self) -> (state: Lifecycle)
        ensures
            state == self@.state,
    {
        self.state
    }

    /// Launches the supervisor: a `Starting` one runs from now on. On any other
    /// this does nothing; a supervisor that was stopped does not run again.
    pub fn start(&mut self)
        ensures
            final(self)@ == old(self)@.started(),
    {
        if self.state == Lifecycle::Starting {
            self.state = Lifecycle::Running;
        }
    }

    /// Tells the supervisor to stop. Its probe loop ends at the next round; a
    /// probe in flight is left to finish. Stopping twice is stopping once.
    pub fn stop(&mut self)
        ensures
            final(self)@ == old(self)@.stopping(),
    {
        if self.state == Lifecycle::Starting || self.state == Lifecycle::Running {
            self.state = Lifecycle::Stopping;
        }
    }

    /// All configured backends, live or not, in rotation order.
    pub fn get_backends(&self) -> (all: Vec<BackendAddress>)
        ensures
            all@ == self@.pool.backends,
    {
        let configured = self.upstreams.backends();
        let mut all: Vec<BackendAddress> = Vec::new();
        let mut i: usize = 0;
        while i < configured.len()
            invariant
                i <= configured.len(),
                all@ == configured@.subrange(0, i as int),
            decreases configured.len() - i,
        {
            all.push(configured[i]);
            assert(all@ =~= configured@.subrange(0, i + 1));
            i += 1;
        }
        assert(configured@.subrange(0, i as int) =~= configured@);
        all
    }

    /// Chooses the next live backend in rotation, or `None` where none is live.
    /// The supervisor's life plays no part: one that has not started yet answers
    /// already, with every backend taken to be live.
    pub fn select(&mut self) -> (picked: Option<BackendAddress>)
        requires
            old(self)@.wf(),
        ensures
            final(self)@.wf(),
            picked == old(self)@.pool.select().0,
            final(self)@ == (SupervisorView { pool: old(self)@.pool.select().1, ..old(self)@ }),
            picked is None <==> !old(self)@.pool.any_healthy(),
            picked matches Some(backend) ==> old(self)@.pool.is_healthy(backend),
    {
        self.upstreams.select()
    }

    /// Takes one report of the probe loop and says what the loop does next.
    pub fn on_event(&mut self, event: ProbeEvent) -> (action: ProbeAction)
        requires
            old(self)@.wf(),
        ensures
            final(self)@.wf(),
            (final(self)@, action@) == old(self)@.on_event(event),
    {
        match event {
            ProbeEvent::Tick => match self.state {
                Lifecycle::Starting => ProbeAction::Wait,
                Lifecycle::Running => ProbeAction::Probe(self.get_backends()),
                Lifecycle::Stopping | Lifecycle::Stopped => {
                    self.state = Lifecycle::Stopped;
                    ProbeAction::Exit
                },
            },
            ProbeEvent::Probed { backend, reachable } => match self.state {
                Lifecycle::Running => {
                    self.upstreams.set_health(backend, reachable);
                    ProbeAction::Wait
                },
                Lifecycle::Starting | Lifecycle::Stopping => ProbeAction::Wait,
                Lifecycle::Stopped => ProbeAction::Exit,
            },
            ProbeEvent::Cancelled => {
                self.state = Lifecycle::Stopped;
                ProbeAction::Exit
            },
        }
    }
}

/// `Stopped` is final: whatever is reported to a stopped supervisor, it stays as
/// it is and tells the loop to end; it asks for no probe.
pub proof fn law_stopped_is_final(supervisor: SupervisorView, event: ProbeEvent)
    requires
        supervisor.state == Lifecycle::Stopped,
    ensures
        supervisor.on_event(event) == (supervisor, ProbeActionView::Exit),
{
}

/// A supervisor that was told to stop asks for no further probe, changes no
/// liveness, and has stopped after the next round or cancellation.
pub proof fn law_stop_ends_probing(supervisor: SupervisorView, event: ProbeEvent)
    ensures
        supervisor.stopping().stopping() == supervisor.stopping(),
        !(supervisor.stopping().on_event(event).1 is Probe),
        supervisor.stopping().on_event(event).0.pool == supervisor.pool,
        event is Tick || event is Cancelled ==> supervisor.stopping().on_event(event).0.state
            == Lifecycle::Stopped,
{
}

/// No report of the probe loop touches the configured backends or the cursor,
/// and none but the outcome of a probe touches liveness.
pub proof fn law_probing_keeps_the_backends(supervisor: SupervisorView, event: ProbeEvent)
    ensures
        supervisor.on_event(event).0.pool.backends == supervisor.pool.backends,
        supervisor.on_event(event).0.pool.cursor == supervisor.pool.cursor,
        !(event is Probed) ==> supervisor.on_event(event).0.pool == supervisor.pool,
{
}

} // verus!
