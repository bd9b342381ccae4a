use http_proxy::lb::{
    fail_to_proxy, upstream_peer, ErrorKind, ErrorSource, FailureResponse, RouteError,
    UpstreamDecision,
};
use http_proxy::svcs::address::{BackendAddress, IpAddress};
use http_proxy::svcs::dns_resolver::Event;
use http_proxy::svcs::health_check::ProbeEvent;
use http_proxy::svcs::registry::Registry;
use http_proxy::svcs::{DNSResolver, Op};
use hickory_resolver::config::{ResolverConfig, ResolverOpts};

fn ip(last: u8) -> IpAddress {
    IpAddress::V4(u32::from_be_bytes([10, 0, 0, last]))
}

fn backend(last: u8) -> BackendAddress {
    BackendAddress::new(ip(last), 443)
}

fn decision(last: u8, sni: &str) -> UpstreamDecision {
    UpstreamDecision { address: backend(last), tls: true, sni: String::from(sni) }
}

/// A registry in which "example.com" has resolved to 10.0.0.1 and 10.0.0.2.
fn registry_with_example() -> Registry {
    let mut registry = Registry::new();
    let mut worker =
        DNSResolver::new(Ok((ResolverConfig::default(), ResolverOpts::default())), None, None)
            .unwrap();
    worker.step(&mut registry, Event::Command(Op::Add(String::from("example.com"))));
    worker.step(
        &mut registry,
        Event::Resolved { domain: String::from("example.com"), addresses: vec![ip(1), ip(2)] },
    );
    registry
}

fn code(kind: ErrorKind, source: ErrorSource) -> u16 {
    fail_to_proxy(kind, source).code
}

#[test]
fn routing_end_to_end() {
    let mut registry = registry_with_example();
    let first = upstream_peer(&mut registry, Some("example.com")).unwrap();
    assert!(first.address == backend(1) || first.address == backend(2));
    assert!(first.tls);
    assert_eq!(first.sni, "example.com");
    assert_eq!(
        upstream_peer(&mut registry, Some("unknown.com")),
        Err(RouteError::DomainNotFound(String::from("unknown.com")))
    );
    assert_eq!(upstream_peer(&mut registry, Some("")), Err(RouteError::HostHeaderMissing));
    assert_eq!(upstream_peer(&mut registry, None), Err(RouteError::HostHeaderMissing));
}

#[test]
fn routing_rotates_over_the_backends_of_the_domain() {
    let mut registry = registry_with_example();
    assert_eq!(upstream_peer(&mut registry, Some("example.com")), Ok(decision(1, "example.com")));
    assert_eq!(upstream_peer(&mut registry, Some("example.com")), Ok(decision(2, "example.com")));
    assert_eq!(upstream_peer(&mut registry, Some("example.com")), Ok(decision(1, "example.com")));
    // Failures in between move nothing.
    assert!(upstream_peer(&mut registry, Some("unknown.com")).is_err());
    assert!(upstream_peer(&mut registry, None).is_err());
    assert_eq!(upstream_peer(&mut registry, Some("example.com")), Ok(decision(2, "example.com")));
}

#[test]
fn routing_after_failed_probes_selects_the_live_backend_only() {
    let mut registry = registry_with_example();
    let id = registry.id_of("example.com").unwrap();
    for _ in 0..3 {
        registry.on_probe(
            "example.com",
            id,
            ProbeEvent::Probed { backend: backend(1), reachable: false },
        );
    }
    for _ in 0..10 {
        assert_eq!(
            upstream_peer(&mut registry, Some("example.com")),
            Ok(decision(2, "example.com"))
        );
    }
}

#[test]
fn routing_reports_a_domain_whose_backends_are_all_down() {
    let mut registry = registry_with_example();
    let id = registry.id_of("example.com").unwrap();
    registry.on_probe("example.com", id, ProbeEvent::Probed { backend: backend(1), reachable: false });
    registry.on_probe("example.com", id, ProbeEvent::Probed { backend: backend(2), reachable: false });
    assert_eq!(
        upstream_peer(&mut registry, Some("example.com")),
        Err(RouteError::NoHealthyBackend(String::from("example.com")))
    );
    // The next request is served as soon as a backend is back.
    registry.on_probe("example.com", id, ProbeEvent::Probed { backend: backend(2), reachable: true });
    assert_eq!(upstream_peer(&mut registry, Some("example.com")), Ok(decision(2, "example.com")));
}

#[test]
fn routing_finds_the_domain_in_any_case_and_presents_the_host_as_given() {
    let mut registry = registry_with_example();
    assert_eq!(upstream_peer(&mut registry, Some("Example.COM")), Ok(decision(1, "Example.COM")));
    assert_eq!(upstream_peer(&mut registry, Some("EXAMPLE.com")), Ok(decision(2, "EXAMPLE.com")));
}

#[test]
fn routing_takes_the_host_whole() {
    let mut registry = registry_with_example();
    assert_eq!(
        upstream_peer(&mut registry, Some("example.com:6188")),
        Err(RouteError::DomainNotFound(String::from("example.com:6188")))
    );
    assert_eq!(
        upstream_peer(&mut registry, Some(" example.com")),
        Err(RouteError::DomainNotFound(String::from(" example.com")))
    );
}

#[test]
fn routing_after_removal_finds_nothing() {
    let mut registry = registry_with_example();
    DNSResolver::remove(&mut registry, "example.com");
    assert_eq!(
        upstream_peer(&mut registry, Some("example.com")),
        Err(RouteError::DomainNotFound(String::from("example.com")))
    );
}

#[test]
fn route_errors_have_their_texts() {
    assert_eq!(RouteError::HostHeaderMissing.to_string(), "Host not found ");
    assert_eq!(
        RouteError::DomainNotFound(String::from("unknown.com")).to_string(),
        "Domain unknown.com not found in backgrounds, Did you add it?"
    );
    assert_eq!(
        RouteError::NoHealthyBackend(String::from("example.com")).to_string(),
        "Select upstream failed when request example.com"
    );
}

#[test]
fn route_errors_name_who_is_at_fault() {
    let missing = RouteError::HostHeaderMissing;
    assert_eq!(missing.source(), ErrorSource::Downstream);
    assert_eq!(missing.kind(), ErrorKind::InvalidHttpHeader);
    let unknown = RouteError::DomainNotFound(String::from("unknown.com"));
    assert_eq!(unknown.source(), ErrorSource::Unset);
    assert_eq!(unknown.kind(), ErrorKind::Other);
    let down = RouteError::NoHealthyBackend(String::from("example.com"));
    assert_eq!(down.source(), ErrorSource::Internal);
    assert_eq!(down.kind(), ErrorKind::Other);
}

#[test]
fn route_failures_are_answered_with_400_and_500() {
    let missing = RouteError::HostHeaderMissing;
    assert_eq!(
        fail_to_proxy(missing.kind(), missing.source()),
        FailureResponse { code: 400, respond: true }
    );
    let unknown = RouteError::DomainNotFound(String::from("unknown.com"));
    assert_eq!(
        fail_to_proxy(unknown.kind(), unknown.source()),
        FailureResponse { code: 500, respond: true }
    );
    let down = RouteError::NoHealthyBackend(String::from("example.com"));
    assert_eq!(
        fail_to_proxy(down.kind(), down.source()),
        FailureResponse { code: 500, respond: true }
    );
}

#[test]
fn a_failure_that_names_a_status_gets_it_whatever_its_source() {
    for source in [
        ErrorSource::Upstream,
        ErrorSource::Downstream,
        ErrorSource::Internal,
        ErrorSource::Unset,
    ] {
        assert_eq!(code(ErrorKind::HttpStatus(404), source), 404);
        assert_eq!(code(ErrorKind::HttpStatus(503), source), 503);
    }
    assert_eq!(
        fail_to_proxy(ErrorKind::HttpStatus(0), ErrorSource::Upstream),
        FailureResponse { code: 0, respond: false }
    );
}

#[test]
fn upstream_failures_get_502() {
    for kind in [
        ErrorKind::WriteError,
        ErrorKind::ReadError,
        ErrorKind::ConnectionClosed,
        ErrorKind::InvalidHttpHeader,
        ErrorKind::Other,
    ] {
        assert_eq!(
            fail_to_proxy(kind, ErrorSource::Upstream),
            FailureResponse { code: 502, respond: true }
        );
    }
}

#[test]
fn downstream_failures_get_400_unless_the_connection_is_gone() {
    for kind in [ErrorKind::WriteError, ErrorKind::ReadError, ErrorKind::ConnectionClosed] {
        assert_eq!(
            fail_to_proxy(kind, ErrorSource::Downstream),
            FailureResponse { code: 0, respond: false }
        );
    }
    for kind in [ErrorKind::InvalidHttpHeader, ErrorKind::Other] {
        assert_eq!(
            fail_to_proxy(kind, ErrorSource::Downstream),
            FailureResponse { code: 400, respond: true }
        );
    }
}

#[test]
fn internal_and_unset_failures_get_500() {
    for source in [ErrorSource::Internal, ErrorSource::Unset] {
        for kind in [
            ErrorKind::WriteError,
            ErrorKind::ReadError,
            ErrorKind::ConnectionClosed,
            ErrorKind::InvalidHttpHeader,
            ErrorKind::Other,
        ] {
            assert_eq!(fail_to_proxy(kind, source), FailureResponse { code: 500, respond: true });
        }
    }
}
