use http_proxy::svcs::address::{BackendAddress, IpAddress};
use http_proxy::svcs::pool::BackendPool;

fn v4(a: u8, b: u8, c: u8, d: u8, port: u16) -> BackendAddress {
    BackendAddress::new(IpAddress::V4(u32::from_be_bytes([a, b, c, d])), port)
}

fn v6(bits: u128, port: u16) -> BackendAddress {
    BackendAddress::new(IpAddress::V6(bits), port)
}

#[test]
fn pool_keeps_each_address_once_in_ascending_order() {
    let pool = BackendPool::from_addresses(vec![
        v4(10, 0, 0, 2, 443),
        v4(10, 0, 0, 1, 443),
        v4(10, 0, 0, 2, 443),
        v4(10, 0, 0, 1, 8443),
    ]);
    assert_eq!(
        pool.backends(),
        &vec![v4(10, 0, 0, 1, 443), v4(10, 0, 0, 1, 8443), v4(10, 0, 0, 2, 443)]
    );
    assert_eq!(pool.len(), 3);
}

#[test]
fn pool_order_puts_version_4_before_version_6() {
    let pool = BackendPool::from_addresses(vec![
        v6(1, 443),
        v4(255, 255, 255, 255, 443),
        v6(0, 443),
        v4(0, 0, 0, 0, 443),
    ]);
    assert_eq!(
        pool.backends(),
        &vec![v4(0, 0, 0, 0, 443), v4(255, 255, 255, 255, 443), v6(0, 443), v6(1, 443)]
    );
}

#[test]
fn address_order_is_by_address_then_port() {
    let low = v4(10, 0, 0, 1, 443);
    let high_port = v4(10, 0, 0, 1, 444);
    let high_ip = v4(10, 0, 0, 2, 1);
    assert!(low.lt(&high_port));
    assert!(!high_port.lt(&low));
    assert!(high_port.lt(&high_ip));
    assert!(!low.lt(&low));
    assert!(v4(255, 255, 255, 255, 65535).lt(&v6(0, 0)));
    assert!(!v6(0, 0).lt(&v4(255, 255, 255, 255, 65535)));
    assert!(IpAddress::V6(7).lt(&IpAddress::V6(8)));
}

#[test]
fn same_addresses_in_any_order_make_the_same_pool() {
    let a = BackendPool::from_addresses(vec![v4(1, 1, 1, 1, 443), v4(1, 0, 0, 1, 443)]);
    let b = BackendPool::from_addresses(vec![v4(1, 0, 0, 1, 443), v4(1, 1, 1, 1, 443)]);
    assert_eq!(a.backends(), b.backends());
}

#[test]
fn new_pool_takes_every_backend_to_be_live() {
    let pool = BackendPool::from_addresses(vec![v4(10, 0, 0, 1, 443), v4(10, 0, 0, 2, 443)]);
    assert!(pool.is_healthy(v4(10, 0, 0, 1, 443)));
    assert!(pool.is_healthy(v4(10, 0, 0, 2, 443)));
    assert!(!pool.is_healthy(v4(10, 0, 0, 3, 443)));
}

#[test]
fn n_selections_return_each_of_n_live_backends_once_in_rotation() {
    let a = v4(10, 0, 0, 1, 443);
    let b = v4(10, 0, 0, 2, 443);
    let c = v4(10, 0, 0, 3, 443);
    let mut pool = BackendPool::from_addresses(vec![c, a, b]);
    assert_eq!(pool.select(), Some(a));
    assert_eq!(pool.select(), Some(b));
    assert_eq!(pool.select(), Some(c));
    // The rotation is stable: the next three repeat the first three.
    assert_eq!(pool.select(), Some(a));
    assert_eq!(pool.select(), Some(b));
    assert_eq!(pool.select(), Some(c));
}

#[test]
fn a_backend_marked_down_is_passed_over_until_marked_up() {
    let a = v4(10, 0, 0, 1, 443);
    let b = v4(10, 0, 0, 2, 443);
    let c = v4(10, 0, 0, 3, 443);
    let mut pool = BackendPool::from_addresses(vec![a, b, c]);
    assert!(pool.set_health(b, false));
    assert!(!pool.is_healthy(b));
    assert_eq!(pool.select(), Some(a));
    assert_eq!(pool.select(), Some(c));
    assert_eq!(pool.select(), Some(a));
    assert_eq!(pool.select(), Some(c));
    assert!(pool.set_health(b, true));
    assert!(pool.is_healthy(b));
    assert_eq!(pool.select(), Some(a));
    assert_eq!(pool.select(), Some(b));
    assert_eq!(pool.select(), Some(c));
}

#[test]
fn selection_goes_on_from_the_cursor_when_liveness_changes() {
    let a = v4(10, 0, 0, 1, 443);
    let b = v4(10, 0, 0, 2, 443);
    let c = v4(10, 0, 0, 3, 443);
    let mut pool = BackendPool::from_addresses(vec![a, b, c]);
    assert_eq!(pool.select(), Some(a));
    // The cursor is on b. With b down the next live one after it is c.
    pool.set_health(b, false);
    assert_eq!(pool.select(), Some(c));
    // The cursor wrapped round to a.
    pool.set_health(a, false);
    assert_eq!(pool.select(), Some(c));
    assert_eq!(pool.select(), Some(c));
}

#[test]
fn a_pool_with_every_backend_down_selects_none() {
    let a = v4(10, 0, 0, 1, 443);
    let b = v4(10, 0, 0, 2, 443);
    let mut pool = BackendPool::from_addresses(vec![a, b]);
    pool.set_health(a, false);
    pool.set_health(b, false);
    assert_eq!(pool.select(), None);
    assert_eq!(pool.select(), None);
    // Nothing moved meanwhile: the first to come back is chosen at once.
    pool.set_health(b, true);
    assert_eq!(pool.select(), Some(b));
}

#[test]
fn an_empty_pool_selects_none() {
    let mut pool = BackendPool::from_addresses(Vec::new());
    assert_eq!(pool.len(), 0);
    assert_eq!(pool.select(), None);
    assert!(pool.backends().is_empty());
}

#[test]
fn a_pool_of_one_selects_it_every_time() {
    let a = v4(192, 168, 1, 1, 443);
    let mut pool = BackendPool::from_addresses(vec![a]);
    assert_eq!(pool.select(), Some(a));
    assert_eq!(pool.select(), Some(a));
}

#[test]
fn marking_an_unknown_backend_changes_nothing() {
    let a = v4(10, 0, 0, 1, 443);
    let mut pool = BackendPool::from_addresses(vec![a]);
    assert!(!pool.set_health(v4(10, 0, 0, 9, 443), false));
    assert!(pool.is_healthy(a));
    assert_eq!(pool.select(), Some(a));
    assert_eq!(pool.backends(), &vec![a]);
}
