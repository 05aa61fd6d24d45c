use flatnet::veth::{
    container_iface_plan, create_veth_plan, generate_host_ifname, generate_mac_address,
    is_best_effort, tolerates_existing, ContainerIfaceAction, VethAction,
};

#[test]
fn test_generate_host_ifname() {
    // Normal container ID
    let name = generate_host_ifname("abc123def456");
    assert!(name.starts_with("fn-"));
    assert!(name.len() <= 15);
    assert_eq!(name, "fn-abc123def456");

    // Long container ID (should be truncated)
    let name = generate_host_ifname("0123456789abcdef0123456789abcdef");
    assert!(name.len() <= 15);
    assert_eq!(name, "fn-0123456789ab");

    // Container ID with non-hex chars
    let name = generate_host_ifname("container-xyz-123");
    assert!(name.starts_with("fn-"));
}

#[test]
fn test_generate_mac_address() {
    let mac = generate_mac_address("abc123def456");
    assert!(mac.starts_with("02:"));
    assert_eq!(mac, "02:ab:c1:23:de:f4");

    // Short container ID
    let mac = generate_mac_address("abc");
    assert_eq!(mac, "02:ab:c0:00:00:00");
}

#[test]
fn ifname_is_deterministic() {
    let a = generate_host_ifname("abc123def456");
    let b = generate_host_ifname("abc123def456");
    assert_eq!(a, b);
}

#[test]
fn ifname_of_empty_id_is_just_the_prefix() {
    assert_eq!(generate_host_ifname(""), "fn-");
}

#[test]
fn mac_of_empty_id_is_all_zero() {
    assert_eq!(generate_mac_address(""), "02:00:00:00:00:00");
}

#[test]
fn veth_plan_reuses_existing_pair() {
    assert!(create_veth_plan(true).is_empty());
    let plan = create_veth_plan(false);
    assert_eq!(
        plan,
        vec![
            VethAction::CreatePair,
            VethAction::SetMtuBoth,
            VethAction::MoveToNamespace,
            VethAction::HostUp,
        ]
    );
}

#[test]
fn container_plan_tolerance() {
    let plan = container_iface_plan();
    assert_eq!(plan.len(), 4);
    assert!(tolerates_existing(ContainerIfaceAction::AddAddress));
    assert!(tolerates_existing(ContainerIfaceAction::AddDefaultRoute));
    assert!(!tolerates_existing(ContainerIfaceAction::InterfaceUp));
    assert!(is_best_effort(ContainerIfaceAction::LoopbackUp));
    assert!(!is_best_effort(ContainerIfaceAction::AddAddress));
}
