//! The resolution worker: it turns control commands into running pools.
//!
//! The worker is a state machine. Its loop, which lives with the caller, waits
//! for the next event (a command, the outcome of a lookup, shutdown), hands it
//! to [`DNSResolver::step`], and carries out the actions that come back: look a
//! name up, launch the probe loop of a new pool, log a failure, end.
//!
//! One lookup is in flight at a time. Commands that arrive meanwhile wait in
//! order and are taken up when the lookup has ended, so a removal that follows
//! the registration of the same domain always finds it.

use vstd::prelude::*;
use vstd::string::StringExecFns;
use super::address::{BackendAddress, IpAddress};
use super::pool::{PoolView, lemma_pool_of};
use super::domain::{ascii_lowercase, canonical, lemma_canonical_is_idempotent};
use super::health_check::{
    Lifecycle,
    ProbeActionView,
    ProbeEvent,
    SupervisorView,
    UpstreamsHealthCheck,
};
use super::registry::{
    DomainAddressView,
    Registry,
    RegistryView,
    lemma_insert_keeps_the_invariant,
    lemma_operations_keep_the_invariant,
};
use super::{Error, ErrorView, Op, OpView};

verus! {

/// The port on which every resolved backend is contacted.
pub const BACKEND_PORT: u16 = 443;

/// Seconds after which a lookup is given up.
pub const RESOLVE_TIMEOUT_SECS: u64 = 5;

/// `hickory_resolver::config::ResolverConfig`: the name servers to ask. The
/// worker carries it from its construction to the caller that builds the
/// resolver, and reads nothing in it.
#[verifier::external_type_specification]
#[verifier::external_body]
pub struct ExResolverConfig(hickory_resolver::config::ResolverConfig);

/// `hickory_resolver::config::ResolverOpts`: how to ask. Carried like the
/// configuration, and as little read.
#[verifier::external_type_specification]
#[verifier::external_body]
pub struct ExResolverOpts(hickory_resolver::config::ResolverOpts);

/// What the worker is doing.
pub enum WorkerState {
    /// Waiting for an event.
    Idle,
    /// Waiting for the lookup of this domain to end.
    Resolving(String),
    /// Shut down. This is final.
    Stopped,
}

/// Mathematical form of [`WorkerState`].
pub enum WorkerStateView {
    Idle,
    Resolving(Seq<char>),
    Stopped,
}

impl DeepView for WorkerState {
    type V = WorkerStateView;

    open spec fn deep_view(&self) -> WorkerStateView {
        match self {
            WorkerState::Idle => WorkerStateView::Idle,
            WorkerState::Resolving(domain) => WorkerStateView::Resolving(domain@),
            WorkerState::Stopped => WorkerStateView::Stopped,
        }
    }
}

/// What the worker's loop reports to it.
#[derive(PartialEq, Eq)]
pub enum Event {
    /// The process is shutting down.
    Shutdown,
    /// A control command has arrived.
    Command(Op),
    /// The lookup of `domain` has found these addresses.
    Resolved { domain: String, addresses: Vec<IpAddress> },
    /// The lookup of `domain` has failed or timed out.
    ResolveFailed { domain: String, reason: String },
    /// No further command can arrive: the channel is closed.
    ChannelClosed,
}

/// Mathematical form of [`Event`].
pub enum EventView {
    Shutdown,
    Command(OpView),
    Resolved { domain: Seq<char>, addresses: Seq<IpAddress> },
    ResolveFailed { domain: Seq<char>, reason: Seq<char> },
    ChannelClosed,
}

impl DeepView for Event {
    type V = EventView;

    open spec fn deep_view(&self) -> EventView {
        match self {
            Event::Shutdown => EventView::Shutdown,
            Event::Command(op) => EventView::Command(op@),
            Event::Resolved { domain, addresses } => EventView::Resolved {
                domain: domain@,
                addresses: addresses@,
            },
            Event::ResolveFailed { domain, reason } => EventView::ResolveFailed {
                domain: domain@,
                reason: reason@,
            },
            Event::ChannelClosed => EventView::ChannelClosed,
        }
    }
}

/// What the worker's loop is to do.
#[derive(Debug, PartialEq, Eq)]
pub enum Action {
    /// Look `domain` up, give up after `timeout_secs`, and report the outcome as
    /// `Resolved` or `ResolveFailed`.
    Resolve { domain: String, timeout_secs: u64 },
    /// Launch the probe loop of the pool `id`, just installed for `domain`.
    Spawn { domain: String, id: u64 },
    /// Log this failure. The worker goes on.
    Report(Error),
    /// End the loop.
    Exit,
}

/// Mathematical form of [`Action`].
pub enum ActionView {
    Resolve { domain: Seq<char>, timeout_secs: int },
    Spawn { domain: Seq<char>, id: int },
    Report(ErrorView),
    Exit,
}

impl DeepView for Action {
    type V = ActionView;

    open spec fn deep_view(&self) -> ActionView {
        match self {
            Action::Resolve { domain, timeout_secs } => ActionView::Resolve {
                domain: domain@,
                timeout_secs: *timeout_secs as int,
            },
            Action::Spawn { domain, id } => ActionView::Spawn { domain: domain@, id: *id as int },
            Action::Report(error) => ActionView::Report(error@),
            Action::Exit => ActionView::Exit,
        }
    }
}

/// The detail of the error for a system configuration that cannot be read.
pub open spec fn config_failure_text(reason: Seq<char>) -> Seq<char> {
    "DNS Resolver read system config failed: "@ + reason
}

/// The detail of the error for a domain that could not be registered.
pub open spec fn resolve_failure_text(domain: Seq<char>, reason: Seq<char>) -> Seq<char> {
    "Resolve domain "@ + domain + " failed: "@ + reason
}

/// Why an empty name is not looked up.
pub open spec fn empty_name_reason() -> Seq<char> {
    "the name is empty"@
}

/// Why a pool is not installed once identifiers have run out.
pub open spec fn no_room_reason() -> Seq<char> {
    "pool identifiers are used up"@
}

/// The detail of the error for a closed command channel.
pub open spec fn channel_closed_text() -> Seq<char> {
    "Command channel closed"@
}

/// The backends of a domain that resolved to `addresses`: each address on
/// [`BACKEND_PORT`].
pub open spec fn backends_of(addresses: Seq<IpAddress>) -> Seq<BackendAddress> {
    Seq::new(addresses.len(), |i: int| BackendAddress { ip: addresses[i], port: BACKEND_PORT })
}

/// The registry once `domain` has resolved to `addresses`: a running supervisor
/// of their pool stands under the domain, in place of what was there.
pub open spec fn installed(
    registry: RegistryView,
    domain: Seq<char>,
    addresses: Seq<IpAddress>,
) -> RegistryView {
    registry.insert(domain, SupervisorView::of(backends_of(addresses)))
}

/// What the idle worker does with one command: the state it is in afterwards,
/// the registry afterwards, and what it asks for.
///
/// A registration starts the lookup of the canonical name; one of an empty name
/// is refused with a report. A removal takes the domain out at once; where the
/// domain is not registered nothing happens and nothing is reported.
pub open spec fn accept(registry: RegistryView, op: OpView) -> (
    WorkerStateView,
    RegistryView,
    Option<ActionView>,
) {
    match op {
        OpView::Add(domain) => if domain.len() == 0 {
            (
                WorkerStateView::Idle,
                registry,
                Some(
                    ActionView::Report(
                        ErrorView::Resolver(resolve_failure_text(domain, empty_name_reason())),
                    ),
                ),
            )
        } else {
            (
                WorkerStateView::Resolving(canonical(domain)),
                registry,
                Some(
                    ActionView::Resolve {
                        domain: canonical(domain),
                        timeout_secs: RESOLVE_TIMEOUT_SECS as int,
                    },
                ),
            )
        },
        OpView::Del(domain) => (WorkerStateView::Idle, registry.remove(domain), None),
    }
}

/// `actions` with `action` after them, if there is one.
pub open spec fn followed_by(actions: Seq<ActionView>, action: Option<ActionView>) -> Seq<
    ActionView,
> {
    match action {
        Some(action) => actions.push(action),
        None => actions,
    }
}

/// What the idle worker does with the commands that wait: it takes them in
/// order until one starts a lookup or none is left. `actions` is what has been
/// asked for so far; what the commands ask for follows it.
pub open spec fn drain(registry: RegistryView, pending: Seq<OpView>, actions: Seq<ActionView>) -> (
    WorkerView,
    RegistryView,
    Seq<ActionView>,
)
    decreases pending.len(),
{
    if pending.len() == 0 {
        (WorkerView { state: WorkerStateView::Idle, pending }, registry, actions)
    } else {
        let (state, next, action) = accept(registry, pending.first());
        if state is Resolving {
            (
                WorkerView { state, pending: pending.drop_first() },
                next,
                followed_by(actions, action),
            )
        } else {
            drain(next, pending.drop_first(), followed_by(actions, action))
        }
    }
}

/// Mathematical form of a [`DNSResolver`].
pub struct WorkerView {
    pub state: WorkerStateView,
    /// The commands that wait, oldest first.
    pub pending: Seq<OpView>,
}

impl WorkerView {
    /// The invariant of a worker: commands wait only while a lookup is in
    /// flight, and the name being looked up is canonical and not empty.
    pub open spec fn wf(self) -> bool {
        &&& self.state is Resolving || self.pending.len() == 0
        &&& self.state matches WorkerStateView::Resolving(domain) ==> domain.len() > 0
            && canonical(domain) == domain
    }

    /// The idle worker, with no command waiting.
    pub open spec fn idle() -> WorkerView {
        WorkerView { state: WorkerStateView::Idle, pending: Seq::empty() }
    }

    /// The worker after shutdown.
    pub open spec fn stopped() -> WorkerView {
        WorkerView { state: WorkerStateView::Stopped, pending: Seq::empty() }
    }

    /// Whether the worker waits for the lookup of `domain`. It never waits for
    /// that of an empty name.
    pub open spec fn awaits(self, domain: Seq<char>) -> bool {
        domain.len() > 0 && self.state == WorkerStateView::Resolving(canonical(domain))
    }

    /// One step: the worker and the registry after `event`, and the actions
    /// asked for, in order.
    ///
    /// - A stopped worker changes nothing and asks the loop to end.
    /// - Shutdown tells every supervisor to stop, drops the commands that wait,
    ///   and ends the loop. A closed command channel does the same, and is
    ///   reported first.
    /// - A command is taken up at once by an idle worker, and waits its turn
    ///   behind a lookup in flight.
    /// - The outcome of the lookup in flight ends it: addresses install a
    ///   running pool under the domain and ask for its probe loop; a failure is
    ///   reported and leaves the registry as it was. Then the commands that
    ///   waited are taken up.
    /// - The outcome of any other lookup is dropped.
    pub open spec fn step(self, registry: RegistryView, event: EventView) -> (
        WorkerView,
        RegistryView,
        Seq<ActionView>,
    ) {
        if self.state is Stopped {
            (self, registry, seq![ActionView::Exit])
        } else {
            match event {
                EventView::Shutdown => (
                    WorkerView::stopped(),
                    registry.stop_all(),
                    seq![ActionView::Exit],
                ),
                EventView::ChannelClosed => (
                    WorkerView::stopped(),
                    registry.stop_all(),
                    seq![
                        ActionView::Report(ErrorView::Resolver(channel_closed_text())),
                        ActionView::Exit,
                    ],
                ),
                EventView::Command(op) => if self.state is Idle {
                    drain(registry, self.pending.push(op), Seq::empty())
                } else {
                    (WorkerView { pending: self.pending.push(op), ..self }, registry, Seq::empty())
                },
                EventView::Resolved { domain, addresses } => if self.awaits(domain) {
                    if registry.has_room() {
                        drain(
                            installed(registry, domain, addresses),
                            self.pending,
                            seq![ActionView::Spawn { domain: canonical(domain), id: registry.next_id }],
                        )
                    } else {
                        drain(
                            registry,
                            self.pending,
                            seq![
                                ActionView::Report(
                                    ErrorView::Resolver(
                                        resolve_failure_text(canonical(domain), no_room_reason()),
                                    ),
                                ),
                            ],
                        )
                    }
                } else {
                    (self, registry, Seq::empty())
                },
                EventView::ResolveFailed { domain, reason } => if self.awaits(domain) {
                    drain(
                        registry,
                        self.pending,
                        seq![
                            ActionView::Report(
                                ErrorView::Resolver(resolve_failure_text(canonical(domain), reason)),
                            ),
                        ],
                    )
                } else {
                    (self, registry, Seq::empty())
                },
            }
        }
    }
}

/// The worker that turns control commands into running pools.
pub struct DNSResolver {
    config: hickory_resolver::config::ResolverConfig,
    options: hickory_resolver::config::ResolverOpts,
    state: WorkerState,
    pending: Vec<Op>,
}

impl View for DNSResolver {
    type V = WorkerView;

    closed spec fn view(&self) -> WorkerView {
        WorkerView { state: self.state.deep_view(), pending: self.pending.deep_view() }
    }
}

/// Appends `action`.
fn emit(actions: &mut Vec<Action>, action: Action)
    ensures
        final(actions).deep_view() == old(actions).deep_view().push(action.deep_view()),
{
    actions.push(action);
    assert(actions.deep_view() =~= old(actions).deep_view().push(action.deep_view()));
}

/// The error for a domain that could not be registered.
fn resolve_failure(domain: &str, reason: &str) -> (error: Error)
    ensures
        error@ == ErrorView::Resolver(resolve_failure_text(domain@, reason@)),
{
    Error::Resolver(
        String::from_str("Resolve domain ").concat(domain).concat(" failed: ").concat(reason),
    )
}

impl DNSResolver {
    /// The resolver configuration that the worker was built with.
    pub closed spec fn chosen_config(&self) -> hickory_resolver::config::ResolverConfig {
        self.config
    }

    /// The resolver options that the worker was built with.
    pub closed spec fn chosen_options(&self) -> hickory_resolver::config::ResolverOpts {
        self.options
    }

    /// Builds the worker, idle, from the outcome of reading the system's
    /// resolver configuration. `config` and `options`, where given, take the
    /// place of what the system has.
    ///
    /// A system configuration that cannot be read is fatal, whatever else is
    /// given: no worker is built.
    pub fn new(
        system: Result<
            (hickory_resolver::config::ResolverConfig, hickory_resolver::config::ResolverOpts),
            String,
        >,
        config: Option<hickory_resolver::config::ResolverConfig>,
        options: Option<hickory_resolver::config::ResolverOpts>,
    ) -> (built: Result<DNSResolver, Error>)
        ensures
            match system {
                Ok((system_config, system_options)) => {
                    &&& built matches Ok(worker)
                    &&& worker@ == (WorkerView {
                        state: WorkerStateView::Idle,
                        pending: Seq::empty(),
                    })
                    &&& worker.chosen_config() == match config {
                        Some(given) => given,
                        None => system_config,
                    }
                    &&& worker.chosen_options() == match options {
                        Some(given) => given,
                        None => system_options,
                    }
                },
                Err(reason) => {
                    &&& built matches Err(error)
                    &&& error@ == ErrorView::Resolver(config_failure_text(reason@))
                },
            },
    {
        match system {
            Ok((system_config, system_options)) => {
                let config = match config {
                    Some(given) => given,
                    None => system_config,
                };
                let options = match options {
                    Some(given) => given,
                    None => system_options,
                };
                let worker = DNSResolver {
                    config,
                    options,
                    state: WorkerState::Idle,
                    pending: Vec::new(),
                };
                assert(worker@.pending =~= Seq::empty());
                Ok(worker)
            },
            Err(reason) => Err(
                Error::Resolver(
                    String::from_str("DNS Resolver read system config failed: ").concat(
                        reason.as_str(),
                    ),
                ),
            ),
        }
    }

    /// The resolver configuration to build the resolver with.
    pub fn config(&self) -> (config: &hickory_resolver::config::ResolverConfig)
        ensures
            *config == self.chosen_config(),
    {
        &self.config
    }

    /// The resolver options to build the resolver with.
    pub fn options(&self) -> (options: &hickory_resolver::config::ResolverOpts)
        ensures
            *options == self.chosen_options(),
    {
        &self.options
    }

    /// Whether the worker has shut down.
    pub fn is_stopped(&self) -> (stopped: bool)
        ensures
            stopped == (self@.state is Stopped),
    {
        match self.state {
            WorkerState::Stopped => true,
            _ => false,
        }
    }

    /// Whether the worker waits for an event, with no lookup in flight.
    pub fn is_idle(&self) -> (idle: bool)
        ensures
            idle == (self@.state is Idle),
    {
        match self.state {
            WorkerState::Idle => true,
            _ => false,
        }
    }

    /// How many commands wait behind the lookup in flight.
    pub fn pending(&self) -> (count: usize)
        ensures
            count == self@.pending.len(),
    {
        self.pending.len()
    }

    /// Whether the worker waits for the lookup of `domain`.
    pub fn awaits(&self, domain: &str) -> (waiting: bool)
        ensures
            waiting == self@.awaits(domain@),
    {
        match &self.state {
            WorkerState::Resolving(current) => {
                let key = ascii_lowercase(domain);
                !domain.is_empty() && *current == key
            },
            _ => false,
        }
    }

    /// Installs, under `domain`, a running supervisor of the pool of `addresses`,
    /// each on [`BACKEND_PORT`], in place of what was there. Returns the
    /// identifier of the new pool, or `None` where the registry does not accept
    /// the domain and nothing was installed.
    pub fn add(backgrounds: &mut Registry, domain: &str, addresses: &Vec<IpAddress>) -> (id: Option<
        u64,
    >)
        requires
            old(backgrounds).wf(),
        ensures
            final(backgrounds).wf(),
            match id {
                Some(id) => {
                    &&& old(backgrounds)@.accepts(domain@)
                    &&& id == old(backgrounds)@.next_id
                    &&& final(backgrounds)@ == installed(old(backgrounds)@, domain@, addresses@)
                },
                None => !old(backgrounds)@.accepts(domain@) && final(backgrounds)@ == old(
                    backgrounds,
                )@,
            },
    {
        let mut backends: Vec<BackendAddress> = Vec::new();
        let mut i: usize = 0;
        while i < addresses.len()
            invariant
                i <= addresses.len(),
                backends@ == backends_of(addresses@.subrange(0, i as int)),
            decreases addresses.len() - i,
        {
            backends.push(BackendAddress::new(addresses[i], BACKEND_PORT));
            assert(backends@ =~= backends_of(addresses@.subrange(0, i + 1)));
            i += 1;
        }
        assert(addresses@.subrange(0, i as int) =~= addresses@);
        backgrounds.insert(domain, UpstreamsHealthCheck::from(backends))
    }

    /// Takes `domain` out of the registry and tells its supervisor to stop. Says
    /// whether the domain was registered; where it was not, nothing changes.
    pub fn remove(backgrounds: &mut Registry, domain: &str) -> (found: bool)
        requires
            old(backgrounds).wf(),
        ensures
            final(backgrounds).wf(),
            final(backgrounds)@ == old(backgrounds)@.remove(domain@),
            found == old(backgrounds)@.contains(domain@),
            !found ==> final(backgrounds)@ == old(backgrounds)@,
    {
        backgrounds.remove(domain).is_some()
    }

    /// Takes up one command. Meant for the idle worker.
    fn accept(&mut self, backgrounds: &mut Registry, op: Op, actions: &mut Vec<Action>)
        requires
            old(backgrounds).wf(),
        ensures
            final(backgrounds).wf(),
            final(self).pending == old(self).pending,
            final(self).config == old(self).config,
            final(self).options == old(self).options,
            final(self).state.deep_view() == accept(old(backgrounds)@, op@).0,
            final(backgrounds)@ == accept(old(backgrounds)@, op@).1,
            final(actions).deep_view() == followed_by(
                old(actions).deep_view(),
                accept(old(backgrounds)@, op@).2,
            ),
    {
        match op {
            Op::Add(domain) => {
                if domain.as_str().is_empty() {
                    self.state = WorkerState::Idle;
                    emit(
                        actions,
                        Action::Report(resolve_failure(domain.as_str(), "the name is empty")),
                    );
                } else {
                    let key = ascii_lowercase(domain.as_str());
                    self.state = WorkerState::Resolving(key.clone());
                    emit(actions, Action::Resolve { domain: key, timeout_secs: RESOLVE_TIMEOUT_SECS });
                }
            },
            Op::Del(domain) => {
                self.state = WorkerState::Idle;
                DNSResolver::remove(backgrounds, domain.as_str());
            },
        }
    }

    /// Takes up the commands that wait, in order, until one starts a lookup or
    /// none is left. Meant for the idle worker.
    fn drain(&mut self, backgrounds: &mut Registry, actions: &mut Vec<Action>)
        requires
            old(backgrounds).wf(),
        ensures
            final(backgrounds).wf(),
            final(self).config == old(self).config,
            final(self).options == old(self).options,
            (final(self)@, final(backgrounds)@, final(actions).deep_view()) == drain(
                old(backgrounds)@,
                old(self)@.pending,
                old(actions).deep_view(),
            ),
    {
        self.state = WorkerState::Idle;
        loop
            invariant_except_break
                backgrounds.wf(),
                self.config == old(self).config,
                self.options == old(self).options,
                self.state.deep_view() is Idle,
                drain(backgrounds@, self@.pending, actions.deep_view()) == drain(
                    old(backgrounds)@,
                    old(self)@.pending,
                    old(actions).deep_view(),
                ),
            ensures
                backgrounds.wf(),
                self.config == old(self).config,
                self.options == old(self).options,
                (self@, backgrounds@, actions.deep_view()) == drain(
                    old(backgrounds)@,
                    old(self)@.pending,
                    old(actions).deep_view(),
                ),
            decreases self.pending.len(),
        {
            if self.pending.len() == 0 {
                break ;
            }
            let ghost waiting = self@.pending;
            let op = self.pending.remove(0);
            assert(self@.pending =~= waiting.drop_first());
            assert(op@ == waiting.first());
            self.accept(backgrounds, op, actions);
            if !self.is_idle() {
                break ;
            }
        }
    }

    /// Takes one event and returns the actions to carry out, in order.
    pub fn step(&mut self, backgrounds: &mut Registry, event: Event) -> (actions: Vec<Action>)
        requires
            old(backgrounds).wf(),
        ensures
            final(backgrounds).wf(),
            final(self).chosen_config() == old(self).chosen_config(),
            final(self).chosen_options() == old(self).chosen_options(),
            (final(self)@, final(backgrounds)@, actions.deep_view()) == old(self)@.step(
                old(backgrounds)@,
                event.deep_view(),
            ),
    {
        let mut actions: Vec<Action> = Vec::new();
        assert(actions.deep_view() =~= Seq::empty());
        if self.is_stopped() {
            emit(&mut actions, Action::Exit);
            assert(actions.deep_view() =~= seq![ActionView::Exit]);
            return actions;
        }
        match event {
            Event::Shutdown => {
                backgrounds.stop_all();
                self.state = WorkerState::Stopped;
                self.pending = Vec::new();
                emit(&mut actions, Action::Exit);
                assert(actions.deep_view() =~= seq![ActionView::Exit]);
                assert(self@.pending =~= Seq::empty());
            },
            Event::ChannelClosed => {
                backgrounds.stop_all();
                self.state = WorkerState::Stopped;
                self.pending = Vec::new();
                emit(
                    &mut actions,
                    Action::Report(Error::Resolver(String::from_str("Command channel closed"))),
                );
                emit(&mut actions, Action::Exit);
                assert(actions.deep_view() =~= seq![
                    ActionView::Report(ErrorView::Resolver(channel_closed_text())),
                    ActionView::Exit,
                ]);
                assert(self@.pending =~= Seq::empty());
            },
            Event::Command(op) => {
                let idle = self.is_idle();
                let ghost waiting = self@.pending;
                let ghost said = op@;
                self.pending.push(op);
                assert(self@.pending =~= waiting.push(said));
                if idle {
                    self.drain(backgrounds, &mut actions);
                }
            },
            Event::Resolved { domain, addresses } => {
                if self.awaits(domain.as_str()) {
                    let key = ascii_lowercase(domain.as_str());
                    match DNSResolver::add(backgrounds, domain.as_str(), &addresses) {
                        Some(id) => {
                            emit(&mut actions, Action::Spawn { domain: key, id });
                            assert(actions.deep_view() =~= seq![
                                ActionView::Spawn {
                                    domain: canonical(domain@),
                                    id: old(backgrounds)@.next_id,
                                },
                            ]);
                        },
                        None => {
                            emit(
                                &mut actions,
                                Action::Report(
                                    resolve_failure(key.as_str(), "pool identifiers are used up"),
                                ),
                            );
                            assert(actions.deep_view() =~= seq![
                                ActionView::Report(
                                    ErrorView::Resolver(
                                        resolve_failure_text(canonical(domain@), no_room_reason()),
                                    ),
                                ),
                            ]);
                        },
                    }
                    self.drain(backgrounds, &mut actions);
                }
            },
            Event::ResolveFailed { domain, reason } => {
                if self.awaits(domain.as_str()) {
                    let key = ascii_lowercase(domain.as_str());
                    emit(&mut actions, Action::Report(resolve_failure(key.as_str(), reason.as_str())));
                    assert(actions.deep_view() =~= seq![
                        ActionView::Report(
                            ErrorView::Resolver(resolve_failure_text(canonical(domain@), reason@)),
                        ),
                    ]);
                    self.drain(backgrounds, &mut actions);
                }
            },
        }
        actions
    }
}

/// The backends of a resolved domain are its addresses, each on the backend
/// port, and nothing else.
pub proof fn lemma_backends_of(addresses: Seq<IpAddress>, backend: BackendAddress)
    ensures
        backends_of(addresses).contains(backend) <==> addresses.contains(backend.ip) && backend.port
            == BACKEND_PORT,
{
    let backends = backends_of(addresses);
    if backends.contains(backend) {
        let i = choose|i: int| 0 <= i < backends.len() && backends[i] == backend;
        assert(addresses[i] == backend.ip);
    }
    if addresses.contains(backend.ip) && backend.port == BACKEND_PORT {
        let i = choose|i: int| 0 <= i < addresses.len() && addresses[i] == backend.ip;
        assert(backends[i] == backend);
    }
}

/// Taking up the commands that wait keeps the invariants of worker and registry.
pub proof fn lemma_drain_keeps_the_invariants(
    registry: RegistryView,
    pending: Seq<OpView>,
    actions: Seq<ActionView>,
)
    requires
        registry.wf(),
    ensures
        drain(registry, pending, actions).0.wf(),
        drain(registry, pending, actions).1.wf(),
    decreases pending.len(),
{
    if pending.len() > 0 {
        let (state, next, action) = accept(registry, pending.first());
        lemma_operations_keep_the_invariant(
            registry,
            pending.first().domain(),
            0,
            ProbeEvent::Tick,
        );
        lemma_canonical_is_idempotent(pending.first().domain());
        if !(state is Resolving) {
            lemma_drain_keeps_the_invariants(
                next,
                pending.drop_first(),
                followed_by(actions, action),
            );
        }
    }
}

/// Every step keeps the invariants of worker and registry.
pub proof fn law_step_keeps_the_invariants(
    worker: WorkerView,
    registry: RegistryView,
    event: EventView,
)
    requires
        worker.wf(),
        registry.wf(),
    ensures
        worker.step(registry, event).0.wf(),
        worker.step(registry, event).1.wf(),
{
    lemma_operations_keep_the_invariant(registry, Seq::empty(), 0, ProbeEvent::Tick);
    if !(worker.state is Stopped) {
        match event {
            EventView::Command(op) => {
                lemma_drain_keeps_the_invariants(registry, worker.pending.push(op), Seq::empty());
            },
            EventView::Resolved { domain, addresses } => {
                if worker.awaits(domain) {
                    lemma_pool_of(backends_of(addresses));
                    lemma_insert_keeps_the_invariant(
                        registry,
                        domain,
                        SupervisorView::of(backends_of(addresses)),
                    );
                    if registry.has_room() {
                        lemma_drain_keeps_the_invariants(
                            installed(registry, domain, addresses),
                            worker.pending,
                            seq![
                                ActionView::Spawn { domain: canonical(domain), id: registry.next_id },
                            ],
                        );
                    } else {
                        lemma_drain_keeps_the_invariants(
                            registry,
                            worker.pending,
                            seq![
                                ActionView::Report(
                                    ErrorView::Resolver(
                                        resolve_failure_text(canonical(domain), no_room_reason()),
                                    ),
                                ),
                            ],
                        );
                    }
                }
            },
            EventView::ResolveFailed { domain, reason } => {
                if worker.awaits(domain) {
                    lemma_drain_keeps_the_invariants(
                        registry,
                        worker.pending,
                        seq![
                            ActionView::Report(
                                ErrorView::Resolver(resolve_failure_text(canonical(domain), reason)),
                            ),
                        ],
                    );
                }
            },
            _ => {},
        }
    }
}

/// A registration: the idle worker asks for the lookup of the canonical name
/// and changes nothing yet. When the lookup ends with addresses, the worker
/// installs a running pool of them, all taken to be live, asks for its probe
/// loop and is idle again. From then on the registry lists the domain with
/// exactly the resolved addresses, each on the backend port.
pub proof fn law_added_domain_is_listed(
    registry: RegistryView,
    domain: Seq<char>,
    addresses: Seq<IpAddress>,
    listing: Seq<DomainAddressView>,
)
    requires
        registry.wf(),
        registry.has_room(),
        domain.len() > 0,
        installed(registry, domain, addresses).listed_as(listing),
    ensures
        WorkerView::idle().step(registry, EventView::Command(OpView::Add(domain))) == (
            WorkerView { state: WorkerStateView::Resolving(canonical(domain)), pending: Seq::empty() },
            registry,
            seq![
                ActionView::Resolve {
                    domain: canonical(domain),
                    timeout_secs: RESOLVE_TIMEOUT_SECS as int,
                },
            ],
        ),
        (WorkerView {
            state: WorkerStateView::Resolving(canonical(domain)),
            pending: Seq::empty(),
        }).step(registry, EventView::Resolved { domain, addresses }) == (
            WorkerView::idle(),
            installed(registry, domain, addresses),
            seq![ActionView::Spawn { domain: canonical(domain), id: registry.next_id }],
        ),
        installed(registry, domain, addresses).get(domain) matches Some(supervisor)
            && supervisor.state == Lifecycle::Running && supervisor.pool.all_healthy(),
        exists|i: int|
            0 <= i < listing.len() && (#[trigger] listing[i]).domain == canonical(domain) && (
            forall|backend: BackendAddress|
                #![trigger listing[i].address.contains(backend)]
                listing[i].address.contains(backend) <==> addresses.contains(backend.ip)
                    && backend.port == BACKEND_PORT),
{
    lemma_canonical_is_idempotent(domain);
    let op = OpView::Add(domain);
    let waiting = Seq::<OpView>::empty().push(op);
    assert(waiting.first() == op);
    assert(waiting.drop_first() =~= Seq::<OpView>::empty());
    assert(followed_by(Seq::empty(), accept(registry, op).2) =~= seq![
        ActionView::Resolve { domain: canonical(domain), timeout_secs: RESOLVE_TIMEOUT_SECS as int },
    ]);
    let after = installed(registry, domain, addresses);
    lemma_pool_of(backends_of(addresses));
    let key = canonical(domain);
    assert(after.entries.dom().contains(key));
    let i = choose|i: int| 0 <= i < listing.len() && (#[trigger] listing[i]).domain == key;
    assert forall|backend: BackendAddress|
        #![trigger listing[i].address.contains(backend)]
        listing[i].address.contains(backend) <==> addresses.contains(backend.ip) && backend.port
            == BACKEND_PORT by {
        lemma_backends_of(addresses, backend);
        assert(listing[i].address == after.entries[key].supervisor.pool.backends);
        assert(PoolView::of(backends_of(addresses)).contains(backend) <==> backends_of(
            addresses,
        ).contains(backend));
    }
}

/// A removal is carried out at once by the idle worker: the domain leaves the
/// registry, nothing is asked for and nothing is reported. Where the domain is
/// not registered, nothing changes at all.
pub proof fn law_removal_is_immediate(registry: RegistryView, domain: Seq<char>)
    ensures
        WorkerView::idle().step(registry, EventView::Command(OpView::Del(domain))) == (
            WorkerView::idle(),
            registry.remove(domain),
            Seq::<ActionView>::empty(),
        ),
        !registry.remove(domain).contains(domain),
        !registry.contains(domain) ==> registry.remove(domain) == registry,
{
    let op = OpView::Del(domain);
    let waiting = Seq::<OpView>::empty().push(op);
    assert(waiting.first() == op);
    assert(waiting.drop_first() =~= Seq::<OpView>::empty());
    assert(drain(registry.remove(domain), Seq::empty(), Seq::empty()) == (
        WorkerView::idle(),
        registry.remove(domain),
        Seq::<ActionView>::empty(),
    ));
    if !registry.contains(domain) {
        assert(registry.entries.remove(canonical(domain)) =~= registry.entries);
    }
}

/// A removal that arrives while the same domain is being looked up is not lost:
/// it waits, and takes the domain out as soon as the pool has been installed.
/// The probe loop that was asked for finds its pool gone and ends.
pub proof fn law_removal_waits_for_the_registration(
    registry: RegistryView,
    domain: Seq<char>,
    addresses: Seq<IpAddress>,
    report: ProbeEvent,
)
    requires
        registry.wf(),
        registry.has_room(),
        domain.len() > 0,
    ensures
        ({
            let resolving = WorkerView {
                state: WorkerStateView::Resolving(canonical(domain)),
                pending: Seq::empty(),
            };
            let waiting = resolving.step(registry, EventView::Command(OpView::Del(domain)));
            let done = waiting.0.step(waiting.1, EventView::Resolved { domain, addresses });
            &&& waiting == (
                WorkerView { pending: seq![OpView::Del(domain)], ..resolving },
                registry,
                Seq::<ActionView>::empty(),
            )
            &&& done.0 == WorkerView::idle()
            &&& done.1 == installed(registry, domain, addresses).remove(domain)
            &&& !done.1.contains(domain)
            &&& done.2 == seq![ActionView::Spawn { domain: canonical(domain), id: registry.next_id }]
            &&& done.1.on_probe(domain, registry.next_id, report) == (done.1, ProbeActionView::Exit)
        }),
{
    let op = OpView::Del(domain);
    let waiting = Seq::<OpView>::empty().push(op);
    assert(waiting =~= seq![op]);
    assert(waiting.first() == op);
    assert(waiting.drop_first() =~= Seq::<OpView>::empty());
    let after = installed(registry, domain, addresses);
    let said = seq![ActionView::Spawn { domain: canonical(domain), id: registry.next_id }];
    assert(followed_by(said, accept(after, op).2) == said);
    assert(drain(after.remove(domain), Seq::empty(), said) == (
        WorkerView::idle(),
        after.remove(domain),
        said,
    ));
}

/// Shutdown, or the loss of the command channel, ends the worker: every
/// supervisor in the registry is told to stop, so none asks for a probe again
/// and each has stopped after its next round or cancellation; the loop is told
/// to end. From then on no event changes anything or asks for anything but the
/// end of the loop: no lookup starts and no pool is installed.
pub proof fn law_shutdown_ends_all_activity(
    worker: WorkerView,
    registry: RegistryView,
    event: EventView,
    later: EventView,
    key: Seq<char>,
    report: ProbeEvent,
)
    requires
        !(worker.state is Stopped),
        event is Shutdown || event is ChannelClosed,
    ensures
        worker.step(registry, event).0 == WorkerView::stopped(),
        worker.step(registry, event).1 == registry.stop_all(),
        worker.step(registry, event).2.last() == ActionView::Exit,
        WorkerView::stopped().step(registry.stop_all(), later) == (
            WorkerView::stopped(),
            registry.stop_all(),
            seq![ActionView::Exit],
        ),
        registry.entries.dom().contains(key) ==> {
            let supervisor = registry.stop_all().entries[key].supervisor;
            &&& registry.stop_all().entries.dom().contains(key)
            &&& supervisor.state == Lifecycle::Stopping || supervisor.state == Lifecycle::Stopped
            &&& !(supervisor.on_event(report).1 is Probe)
            &&& report is Tick || report is Cancelled ==> supervisor.on_event(report).0.state
                == Lifecycle::Stopped
        },
{
}

} // verus!
