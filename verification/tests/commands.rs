use http_proxy::svcs::{Error, Op};

#[test]
fn add_command_is_described_with_its_domain() {
    let op = Op::Add(String::from("example.com"));
    assert_eq!(op.describe(), "Add domain: example.com");
}

#[test]
fn remove_command_is_described_with_its_domain() {
    let op = Op::Del(String::from("example.com"));
    assert_eq!(op.describe(), "Remove domain: example.com");
}

#[test]
fn resolver_error_text_has_the_fixed_prefix() {
    let e = Error::Resolver(String::from("DNS Resolver read system config failed"));
    assert_eq!(
        e.to_string(),
        "DNS resolution error: DNS Resolver read system config failed"
    );
}
