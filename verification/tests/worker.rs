use hickory_resolver::config::{ResolverConfig, ResolverOpts};
use http_proxy::svcs::address::{BackendAddress, IpAddress};
use http_proxy::svcs::dns_resolver::{Action, Event, BACKEND_PORT, RESOLVE_TIMEOUT_SECS};
use http_proxy::svcs::health_check::{Lifecycle, ProbeAction, ProbeEvent};
use http_proxy::svcs::registry::{DomainAddress, Registry, Selection};
use http_proxy::svcs::{DNSResolver, Error, Op};

fn ip(last: u8) -> IpAddress {
    IpAddress::V4(u32::from_be_bytes([10, 0, 0, last]))
}

fn backend(last: u8) -> BackendAddress {
    BackendAddress::new(ip(last), 443)
}

fn worker() -> DNSResolver {
    DNSResolver::new(Ok((ResolverConfig::default(), ResolverOpts::default())), None, None).unwrap()
}

fn add(domain: &str) -> Event {
    Event::Command(Op::Add(String::from(domain)))
}

fn del(domain: &str) -> Event {
    Event::Command(Op::Del(String::from(domain)))
}

fn resolved(domain: &str, addresses: Vec<IpAddress>) -> Event {
    Event::Resolved { domain: String::from(domain), addresses }
}

fn failed(domain: &str, reason: &str) -> Event {
    Event::ResolveFailed { domain: String::from(domain), reason: String::from(reason) }
}

fn resolve(domain: &str) -> Action {
    Action::Resolve { domain: String::from(domain), timeout_secs: 5 }
}

fn spawn(domain: &str, id: u64) -> Action {
    Action::Spawn { domain: String::from(domain), id }
}

fn report(text: &str) -> Action {
    Action::Report(Error::Resolver(String::from(text)))
}

fn entry(domain: &str, address: Vec<BackendAddress>) -> DomainAddress {
    DomainAddress { domain: String::from(domain), address }
}

#[test]
fn backends_are_contacted_on_port_443_and_lookups_given_five_seconds() {
    assert_eq!(BACKEND_PORT, 443);
    assert_eq!(RESOLVE_TIMEOUT_SECS, 5);
}

#[test]
fn worker_is_built_idle_with_the_system_configuration() {
    let system = ResolverConfig::default();
    let mut options = ResolverOpts::default();
    options.attempts = 7;
    let built = DNSResolver::new(Ok((system.clone(), options.clone())), None, None).unwrap();
    assert!(built.is_idle());
    assert!(!built.is_stopped());
    assert_eq!(built.pending(), 0);
    assert_eq!(built.config(), &system);
    assert_eq!(built.options(), &options);
}

#[test]
fn given_configuration_and_options_take_the_place_of_the_systems() {
    let mut given_options = ResolverOpts::default();
    given_options.attempts = 9;
    let built = DNSResolver::new(
        Ok((ResolverConfig::default(), ResolverOpts::default())),
        Some(ResolverConfig::cloudflare()),
        Some(given_options.clone()),
    )
    .unwrap();
    assert_eq!(built.config(), &ResolverConfig::cloudflare());
    assert_ne!(built.config(), &ResolverConfig::default());
    assert_eq!(built.options(), &given_options);

    let mixed = DNSResolver::new(
        Ok((ResolverConfig::default(), given_options.clone())),
        Some(ResolverConfig::cloudflare()),
        None,
    )
    .unwrap();
    assert_eq!(mixed.config(), &ResolverConfig::cloudflare());
    assert_eq!(mixed.options(), &given_options);
}

#[test]
fn an_unreadable_system_configuration_is_fatal_whatever_is_given() {
    let built = DNSResolver::new(
        Err(String::from("no nameservers")),
        Some(ResolverConfig::cloudflare()),
        Some(ResolverOpts::default()),
    );
    match built {
        Err(error) => {
            assert_eq!(
                error,
                Error::Resolver(String::from(
                    "DNS Resolver read system config failed: no nameservers"
                ))
            );
            assert_eq!(
                error.to_string(),
                "DNS resolution error: DNS Resolver read system config failed: no nameservers"
            );
        }
        Ok(_) => panic!("a worker was built without a system configuration"),
    }
}

#[test]
fn a_registration_asks_for_the_lookup_of_the_canonical_name() {
    let mut registry = Registry::new();
    let mut worker = worker();
    let actions = worker.step(&mut registry, add("Example.COM"));
    assert_eq!(actions, vec![resolve("example.com")]);
    assert!(!worker.is_idle());
    assert!(worker.awaits("example.com"));
    assert!(worker.awaits("EXAMPLE.com"));
    assert!(!worker.awaits("other.example"));
    // Accepted is not resolved: nothing is registered yet.
    assert!(registry.list().is_empty());
    assert_eq!(registry.select("example.com"), Selection::NotFound);
}

#[test]
fn a_resolved_domain_is_listed_with_exactly_the_resolved_addresses() {
    let mut registry = Registry::new();
    let mut worker = worker();
    worker.step(&mut registry, add("example.com"));
    let actions = worker.step(&mut registry, resolved("example.com", vec![ip(2), ip(1), ip(2)]));
    assert_eq!(actions, vec![spawn("example.com", 0)]);
    assert!(worker.is_idle());
    assert_eq!(registry.list(), vec![entry("example.com", vec![backend(1), backend(2)])]);
    let supervisor = registry.get("example.com").unwrap();
    assert_eq!(supervisor.state(), Lifecycle::Running);
    assert!(supervisor.task().is_healthy(backend(1)));
    assert!(supervisor.task().is_healthy(backend(2)));
    assert_eq!(registry.id_of("example.com"), Some(0));
}

#[test]
fn version_6_addresses_are_registered_on_the_same_port() {
    let mut registry = Registry::new();
    let mut worker = worker();
    worker.step(&mut registry, add("six.example"));
    let one = IpAddress::V6(1);
    worker.step(&mut registry, resolved("six.example", vec![one, ip(1)]));
    assert_eq!(
        registry.list(),
        vec![entry("six.example", vec![backend(1), BackendAddress::new(one, 443)])]
    );
}

#[test]
fn a_domain_that_resolves_to_nothing_is_registered_without_backends() {
    let mut registry = Registry::new();
    let mut worker = worker();
    worker.step(&mut registry, add("empty.example"));
    let actions = worker.step(&mut registry, resolved("empty.example", Vec::new()));
    assert_eq!(actions, vec![spawn("empty.example", 0)]);
    assert_eq!(registry.list(), vec![entry("empty.example", Vec::new())]);
    assert_eq!(registry.select("empty.example"), Selection::Unavailable);
}

#[test]
fn a_failed_lookup_is_reported_and_leaves_the_domain_unregistered() {
    let mut registry = Registry::new();
    let mut worker = worker();
    worker.step(&mut registry, add("Missing.Example"));
    let actions = worker.step(&mut registry, failed("missing.example", "no record found"));
    assert_eq!(
        actions,
        vec![report("Resolve domain missing.example failed: no record found")]
    );
    assert!(worker.is_idle());
    assert!(registry.list().is_empty());
    // The worker goes on: the next command is taken up.
    assert_eq!(worker.step(&mut registry, add("example.com")), vec![resolve("example.com")]);
}

#[test]
fn a_failed_lookup_leaves_an_earlier_registration_untouched() {
    let mut registry = Registry::new();
    let mut worker = worker();
    worker.step(&mut registry, add("example.com"));
    worker.step(&mut registry, resolved("example.com", vec![ip(1)]));
    worker.step(&mut registry, add("example.com"));
    let actions = worker.step(&mut registry, failed("example.com", "timed out"));
    assert_eq!(actions, vec![report("Resolve domain example.com failed: timed out")]);
    assert_eq!(registry.list(), vec![entry("example.com", vec![backend(1)])]);
    assert_eq!(registry.id_of("example.com"), Some(0));
}

#[test]
fn a_second_registration_replaces_the_pool_and_gets_a_new_identifier() {
    let mut registry = Registry::new();
    let mut worker = worker();
    worker.step(&mut registry, add("example.com"));
    worker.step(&mut registry, resolved("example.com", vec![ip(1)]));
    worker.step(&mut registry, add("example.com"));
    let actions = worker.step(&mut registry, resolved("example.com", vec![ip(2), ip(3)]));
    assert_eq!(actions, vec![spawn("example.com", 1)]);
    assert_eq!(registry.list(), vec![entry("example.com", vec![backend(2), backend(3)])]);
    // The probe loop of the first pool is told to end and reaches nothing.
    assert_eq!(
        registry.on_probe("example.com", 0, ProbeEvent::Probed { backend: backend(2), reachable: false }),
        ProbeAction::Exit
    );
    assert!(registry.get("example.com").unwrap().task().is_healthy(backend(2)));
}

#[test]
fn a_registration_of_an_empty_name_is_refused_with_a_report() {
    let mut registry = Registry::new();
    let mut worker = worker();
    let actions = worker.step(&mut registry, add(""));
    assert_eq!(actions, vec![report("Resolve domain  failed: the name is empty")]);
    assert!(worker.is_idle());
    assert!(registry.list().is_empty());
}

#[test]
fn a_removal_takes_the_domain_out_at_once() {
    let mut registry = Registry::new();
    let mut worker = worker();
    worker.step(&mut registry, add("example.com"));
    worker.step(&mut registry, resolved("example.com", vec![ip(1)]));
    let actions = worker.step(&mut registry, del("Example.com"));
    assert_eq!(actions, Vec::new());
    assert!(worker.is_idle());
    assert!(registry.list().is_empty());
    assert!(!registry.contains("example.com"));
    // No probe of the former backends changes anything from now on.
    assert_eq!(registry.on_probe("example.com", 0, ProbeEvent::Tick), ProbeAction::Exit);
    assert_eq!(
        registry.on_probe("example.com", 0, ProbeEvent::Probed { backend: backend(1), reachable: false }),
        ProbeAction::Exit
    );
    assert!(registry.list().is_empty());
}

#[test]
fn a_removal_of_an_unknown_domain_does_nothing_and_reports_nothing() {
    let mut registry = Registry::new();
    let mut worker = worker();
    worker.step(&mut registry, add("example.com"));
    worker.step(&mut registry, resolved("example.com", vec![ip(1)]));
    assert_eq!(worker.step(&mut registry, del("unknown.example")), Vec::new());
    assert_eq!(worker.step(&mut registry, del("unknown.example")), Vec::new());
    assert!(worker.is_idle());
    assert_eq!(registry.list(), vec![entry("example.com", vec![backend(1)])]);
    assert_eq!(registry.id_of("example.com"), Some(0));
}

#[test]
fn commands_wait_in_order_behind_the_lookup_in_flight() {
    let mut registry = Registry::new();
    let mut worker = worker();
    worker.step(&mut registry, add("a.example"));
    assert_eq!(worker.step(&mut registry, del("a.example")), Vec::new());
    assert_eq!(worker.step(&mut registry, add("b.example")), Vec::new());
    assert_eq!(worker.step(&mut registry, add("c.example")), Vec::new());
    assert_eq!(worker.pending(), 3);
    assert!(worker.awaits("a.example"));
    assert!(registry.list().is_empty());

    // The lookup ends: the pool is installed, then the removal that waited
    // takes it out again, then the next registration starts its lookup.
    let actions = worker.step(&mut registry, resolved("a.example", vec![ip(1)]));
    assert_eq!(actions, vec![spawn("a.example", 0), resolve("b.example")]);
    assert!(registry.list().is_empty());
    assert!(worker.awaits("b.example"));
    assert_eq!(worker.pending(), 1);

    let actions = worker.step(&mut registry, failed("b.example", "refused"));
    assert_eq!(
        actions,
        vec![report("Resolve domain b.example failed: refused"), resolve("c.example")]
    );
    assert_eq!(worker.pending(), 0);

    let actions = worker.step(&mut registry, resolved("c.example", vec![ip(3)]));
    assert_eq!(actions, vec![spawn("c.example", 1)]);
    assert!(worker.is_idle());
    assert_eq!(registry.list(), vec![entry("c.example", vec![backend(3)])]);
}

#[test]
fn waiting_removals_and_refusals_are_all_taken_up_in_one_step() {
    let mut registry = Registry::new();
    let mut worker = worker();
    registry.insert("x.example", http_proxy::svcs::UpstreamsHealthCheck::from(vec![backend(9)]));
    worker.step(&mut registry, add("a.example"));
    worker.step(&mut registry, del("x.example"));
    worker.step(&mut registry, add(""));
    worker.step(&mut registry, del("y.example"));
    let actions = worker.step(&mut registry, resolved("a.example", vec![ip(1)]));
    assert_eq!(
        actions,
        vec![spawn("a.example", 1), report("Resolve domain  failed: the name is empty")]
    );
    assert!(worker.is_idle());
    assert_eq!(worker.pending(), 0);
    assert_eq!(registry.list(), vec![entry("a.example", vec![backend(1)])]);
}

#[test]
fn the_outcome_of_a_lookup_that_is_not_in_flight_is_dropped() {
    let mut registry = Registry::new();
    let mut worker = worker();
    // Idle: nothing is awaited.
    assert_eq!(worker.step(&mut registry, resolved("example.com", vec![ip(1)])), Vec::new());
    assert_eq!(worker.step(&mut registry, failed("example.com", "late")), Vec::new());
    assert!(worker.is_idle());
    assert!(registry.list().is_empty());
    // Resolving another name.
    worker.step(&mut registry, add("a.example"));
    assert_eq!(worker.step(&mut registry, resolved("b.example", vec![ip(1)])), Vec::new());
    assert_eq!(worker.step(&mut registry, failed("b.example", "late")), Vec::new());
    assert!(worker.awaits("a.example"));
    assert!(registry.list().is_empty());
}

#[test]
fn shutdown_stops_every_supervisor_and_ends_all_activity() {
    let mut registry = Registry::new();
    let mut worker = worker();
    worker.step(&mut registry, add("a.example"));
    worker.step(&mut registry, resolved("a.example", vec![ip(1)]));
    worker.step(&mut registry, add("b.example"));
    worker.step(&mut registry, resolved("b.example", vec![ip(2)]));
    worker.step(&mut registry, add("c.example"));
    worker.step(&mut registry, del("a.example"));

    assert_eq!(worker.step(&mut registry, Event::Shutdown), vec![Action::Exit]);
    assert!(worker.is_stopped());
    assert_eq!(worker.pending(), 0);
    // The removal that waited was dropped with the rest; both pools are stopping.
    assert_eq!(registry.get("a.example").unwrap().state(), Lifecycle::Stopping);
    assert_eq!(registry.get("b.example").unwrap().state(), Lifecycle::Stopping);

    // Within one round, or at cancellation, every probe loop ends.
    assert_eq!(registry.on_probe("a.example", 0, ProbeEvent::Tick), ProbeAction::Exit);
    assert_eq!(registry.on_probe("b.example", 1, ProbeEvent::Cancelled), ProbeAction::Exit);
    assert_eq!(registry.get("a.example").unwrap().state(), Lifecycle::Stopped);
    assert_eq!(registry.get("b.example").unwrap().state(), Lifecycle::Stopped);

    // Nothing starts afterwards: no lookup, no pool, no probe.
    assert_eq!(worker.step(&mut registry, resolved("c.example", vec![ip(3)])), vec![Action::Exit]);
    assert_eq!(worker.step(&mut registry, add("d.example")), vec![Action::Exit]);
    assert_eq!(worker.step(&mut registry, del("a.example")), vec![Action::Exit]);
    assert_eq!(worker.step(&mut registry, Event::Shutdown), vec![Action::Exit]);
    assert_eq!(worker.step(&mut registry, Event::ChannelClosed), vec![Action::Exit]);
    assert!(worker.is_stopped());
    assert_eq!(registry.list().len(), 2);
    assert_eq!(registry.on_probe("a.example", 0, ProbeEvent::Tick), ProbeAction::Exit);
    assert_eq!(
        registry.on_probe("a.example", 0, ProbeEvent::Probed { backend: backend(1), reachable: false }),
        ProbeAction::Exit
    );
    assert!(registry.get("a.example").unwrap().task().is_healthy(backend(1)));
}

#[test]
fn a_closed_command_channel_is_reported_and_shuts_the_worker_down() {
    let mut registry = Registry::new();
    let mut worker = worker();
    worker.step(&mut registry, add("a.example"));
    worker.step(&mut registry, resolved("a.example", vec![ip(1)]));
    let actions = worker.step(&mut registry, Event::ChannelClosed);
    assert_eq!(actions, vec![report("Command channel closed"), Action::Exit]);
    assert!(worker.is_stopped());
    assert_eq!(registry.get("a.example").unwrap().state(), Lifecycle::Stopping);
}

#[test]
fn add_installs_a_running_pool_on_the_backend_port() {
    let mut registry = Registry::new();
    let id = DNSResolver::add(&mut registry, "Example.com", &vec![ip(2), ip(1)]);
    assert_eq!(id, Some(0));
    assert_eq!(registry.list(), vec![entry("example.com", vec![backend(1), backend(2)])]);
    assert_eq!(registry.get("example.com").unwrap().state(), Lifecycle::Running);
}

#[test]
fn add_installs_nothing_under_an_empty_name() {
    let mut registry = Registry::new();
    assert_eq!(DNSResolver::add(&mut registry, "", &vec![ip(1)]), None);
    assert!(registry.list().is_empty());
}

#[test]
fn the_worker_never_waits_for_an_empty_name() {
    let mut registry = Registry::new();
    let mut worker = worker();
    assert!(!worker.awaits(""));
    worker.step(&mut registry, add(""));
    assert!(!worker.awaits(""));
    assert_eq!(worker.step(&mut registry, resolved("", vec![ip(1)])), Vec::new());
    assert!(registry.list().is_empty());
}

#[test]
fn remove_says_whether_the_domain_was_registered() {
    let mut registry = Registry::new();
    DNSResolver::add(&mut registry, "example.com", &vec![ip(1)]);
    assert!(!DNSResolver::remove(&mut registry, "other.example"));
    assert_eq!(registry.list().len(), 1);
    assert!(DNSResolver::remove(&mut registry, "EXAMPLE.COM"));
    assert!(registry.list().is_empty());
    assert!(!DNSResolver::remove(&mut registry, "example.com"));
}
