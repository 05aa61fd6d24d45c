use flatnet::dispatch::{build_add_result, check_outcome, gateway_for, ip_with_prefix};
use flatnet::ipam::{allocate_with_host_id, has_allocation, init_state, release};
use flatnet::veth::{generate_host_ifname, generate_mac_address};

/// A whole provisioning round under the default configuration: the request
/// succeeds, the verification passes, the teardown is idempotent.
#[test]
fn add_check_del_round() {
    let container_id = "abc123def456";
    let netns = "/proc/999/ns/net";
    let ifname = "eth0";

    // provisioning: allocate, derive names, build the result
    let config = flatnet::config::NetworkConfig {
        cni_version: "1.0.0".to_string(),
        name: "flatnet".to_string(),
        plugin_type: "flatnet".to_string(),
        prev_result: None,
        bridge: None,
        mtu: None,
        ip_masq: None,
        ipam: None,
        dns: None,
        args: None,
        host_id: None,
        registry_endpoints: None,
        registry_enabled: None,
    };
    let gateway = gateway_for(&config).unwrap();
    assert_eq!(gateway, "10.87.1.1");

    let mut state = init_state(None);
    let allocation = allocate_with_host_id(&mut state, container_id).unwrap();
    assert_eq!(allocation.prefix_len, 24);
    assert!(allocation.ip.starts_with("10.87.1."));
    let last: u8 = allocation.ip.rsplit('.').next().unwrap().parse().unwrap();
    assert!((2..=254).contains(&last));

    let host_ifname = generate_host_ifname(container_id);
    assert_eq!(host_ifname, "fn-abc123def456");
    let mac = generate_mac_address(container_id);
    assert!(mac.starts_with("02:ab:c1:23:de:f4"));

    let address = ip_with_prefix(allocation.ip.as_str(), allocation.prefix_len);
    let result = build_add_result(
        config.cni_version.as_str(),
        host_ifname.clone(),
        ifname.to_string(),
        mac.clone(),
        netns.to_string(),
        address.clone(),
        allocation.gateway.clone(),
    );
    let ifaces = result.interfaces.unwrap();
    assert_eq!(ifaces.len(), 2);
    assert_eq!(ifaces[0].name, host_ifname);
    assert_eq!(ifaces[1].name, "eth0");
    assert_eq!(ifaces[1].mac, mac);
    assert_eq!(ifaces[1].sandbox.as_deref(), Some(netns));
    let ips = result.ips.unwrap();
    assert_eq!(ips[0].address, "10.87.1.2/24");
    assert_eq!(ips[0].gateway.as_deref(), Some("10.87.1.1"));
    assert_eq!(ips[0].interface, Some(1));
    let routes = result.routes.unwrap();
    assert_eq!(routes[0].dst, "0.0.0.0/0");
    assert_eq!(routes[0].gw.as_deref(), Some("10.87.1.1"));

    // verification: bridge and interface present, allocation recorded
    assert!(check_outcome(true, true, has_allocation(&state, container_id)).is_ok());

    // teardown removes the allocation; a second teardown also succeeds
    release(&mut state, container_id).unwrap();
    assert!(!has_allocation(&state, container_id));
    release(&mut state, container_id).unwrap();
    assert!(!has_allocation(&state, container_id));
}
