use agent_procs::daemon::port_allocator::{AUTO_PORT_MAX, AUTO_PORT_MIN, PortAllocator};
use agent_procs::daemon::process_manager::is_valid_dns_label;
use agent_procs::error::ProxyError;

#[test]
fn test_port_assignment_test_valid_dns_labels() {
    assert!(is_valid_dns_label("api"));
    assert!(is_valid_dns_label("my-service"));
    assert!(is_valid_dns_label("web123"));
    assert!(is_valid_dns_label("a"));
}

#[test]
fn test_port_assignment_test_invalid_dns_labels() {
    assert!(!is_valid_dns_label(""));
    assert!(!is_valid_dns_label("-api"));
    assert!(!is_valid_dns_label("api-"));
    assert!(!is_valid_dns_label("my service"));
    assert!(!is_valid_dns_label("API"));
    assert!(!is_valid_dns_label("my_service"));
    assert!(!is_valid_dns_label(&"a".repeat(64)));
}

#[test]
fn auto_ports_round_robin_and_skip_assigned() {
    let mut pa = PortAllocator::new();
    assert!(!pa.is_proxy_enabled());
    pa.enable_proxy();
    assert!(pa.is_proxy_enabled());
    assert_eq!(pa.auto_assign_port(&[], |_| true).ok(), Some(4000));
    assert_eq!(pa.auto_assign_port(&[4001], |_| true).ok(), Some(4002));
    assert_eq!(pa.auto_assign_port(&[], |p| p != 4003).ok(), Some(4004));
}

#[test]
fn auto_ports_wrap_and_fail() {
    let mut pa = PortAllocator::new();
    assert_eq!(pa.auto_assign_port(&[], |p| p == AUTO_PORT_MAX).ok(), Some(AUTO_PORT_MAX));
    assert_eq!(pa.auto_assign_port(&[], |_| true).ok(), Some(AUTO_PORT_MIN));
    match pa.auto_assign_port(&[], |_| false) {
        Err(ProxyError::NoFreeAutoPort { min, max, start }) => {
            assert_eq!((min, max, start), (4000, 4999, 4001));
        },
        _ => panic!("expected an error"),
    }
    let e = ProxyError::NoFreeAutoPort { min: 4000, max: 4999, start: 4001 };
    assert_eq!(e.message(), "no free port available in range 4000-4999 (started at 4001)");
}
