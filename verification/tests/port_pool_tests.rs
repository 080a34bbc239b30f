use metta_bus_client::port_pool::{PortError, PortPool};

#[test]
fn init_rejects_empty_range() {
    assert!(matches!(PortPool::init(42001, 42000), Err(PortError::InvalidRange)));
}

#[test]
fn port_exhaustion_and_reuse() {
    let mut pool = PortPool::init(42000, 42001).unwrap();
    let a = pool.get_port().unwrap();
    let b = pool.get_port().unwrap();
    assert_eq!(a, 42000);
    assert_eq!(b, 42001);
    assert_ne!(a, b);
    assert!(matches!(pool.get_port(), Err(PortError::PortExhausted)));
    pool.return_port(a);
    assert_eq!(pool.get_port().unwrap(), a);
}

#[test]
fn pool_yields_full_range_before_exhaustion() {
    let mut pool = PortPool::init(42000, 42004).unwrap();
    let mut seen = Vec::new();
    for _ in 0..5 {
        let p = pool.get_port().unwrap();
        assert!(!seen.contains(&p));
        seen.push(p);
    }
    assert!(pool.get_port().is_err());
    assert_eq!(seen.len(), 5);
}

#[test]
fn released_port_is_reused_first() {
    let mut pool = PortPool::init(42000, 42005).unwrap();
    let a = pool.get_port().unwrap();
    let _b = pool.get_port().unwrap();
    pool.return_port(a);
    assert_eq!(pool.get_port().unwrap(), a);
}
