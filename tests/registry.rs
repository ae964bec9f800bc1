use loadbalancer::{ConfigError, ProxyState};

fn addrs(list: &[&str]) -> Vec<String> {
    list.iter().map(|a| a.to_string()).collect()
}

#[test]
fn no_upstream_is_a_configuration_error() {
    let r = ProxyState::new(Vec::new(), 5, "/".to_string());
    assert_eq!(r.err(), Some(ConfigError::NoUpstreams));
}

#[test]
fn new_state_keeps_its_settings_and_has_nothing_active() {
    let s = ProxyState::new(addrs(&["127.0.0.1:9001"]), 7, "/healthz".to_string()).unwrap();
    assert_eq!(s.health_check_interval(), 7);
    assert_eq!(s.health_check_path(), "/healthz");
    assert_eq!(s.upstream_addresses(), &addrs(&["127.0.0.1:9001"]));
    assert!(s.snapshot().is_empty());
}

#[test]
fn sweep_keeps_healthy_upstreams_in_configured_order() {
    let mut s = ProxyState::new(addrs(&["a:1", "b:2", "c:3", "d:4"]), 5, "/".to_string()).unwrap();
    s.apply_health_checks(&vec![true, false, true, true]);
    assert_eq!(s.snapshot(), addrs(&["a:1", "c:3", "d:4"]));
}

#[test]
fn snapshot_follows_each_state_change_in_one_sweep() {
    let mut s = ProxyState::new(addrs(&["x:1", "y:2"]), 5, "/".to_string()).unwrap();
    s.apply_health_checks(&vec![true, false]);
    assert_eq!(s.snapshot(), addrs(&["x:1"]));
    s.apply_health_checks(&vec![false, true]);
    assert_eq!(s.snapshot(), addrs(&["y:2"]));
    s.apply_health_checks(&vec![false, false]);
    assert!(s.snapshot().is_empty());
    s.apply_health_checks(&vec![true, true]);
    assert_eq!(s.snapshot(), addrs(&["x:1", "y:2"]));
    assert_eq!(s.upstream_addresses(), &addrs(&["x:1", "y:2"]));
}
