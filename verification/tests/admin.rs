use http_proxy::admin::{add_domain, del_domain, get_domains};
use http_proxy::svcs::address::{BackendAddress, IpAddress};
use http_proxy::svcs::registry::{DomainAddress, Registry};
use http_proxy::svcs::{DNSResolver, Op};

fn ip(last: u8) -> IpAddress {
    IpAddress::V4(u32::from_be_bytes([10, 0, 0, last]))
}

#[test]
fn add_domain_makes_the_add_command() {
    assert!(add_domain(String::from("Example.com")) == Op::Add(String::from("Example.com")));
}

#[test]
fn del_domain_makes_the_remove_command() {
    assert!(del_domain(String::from("example.com")) == Op::Del(String::from("example.com")));
}

#[test]
fn commands_can_be_copied() {
    let op = add_domain(String::from("example.com"));
    assert!(op.clone() == op);
    assert!(op.clone() != del_domain(String::from("example.com")));
}

#[test]
fn get_domains_lists_the_registry() {
    let mut registry = Registry::new();
    assert!(get_domains(&registry).is_empty());
    DNSResolver::add(&mut registry, "example.com", &vec![ip(2), ip(1)]);
    assert_eq!(
        get_domains(&registry),
        vec![DomainAddress {
            domain: String::from("example.com"),
            address: vec![
                BackendAddress::new(ip(1), 443),
                BackendAddress::new(ip(2), 443),
            ],
        }]
    );
    DNSResolver::remove(&mut registry, "example.com");
    assert!(get_domains(&registry).is_empty());
}
