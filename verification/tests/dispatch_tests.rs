use flatnet::config::{IpamConfig, NetworkConfig};
use flatnet::dispatch::{
    check_outcome, command_of, gateway_for, ip_with_prefix, sanitize_command, CniCommand,
};
use flatnet::error::CniErrorCode;

fn minimal_config() -> NetworkConfig {
    NetworkConfig {
        cni_version: "1.0.0".to_string(),
        name: "flatnet".to_string(),
        plugin_type: "flatnet".to_string(),
        prev_result: None,
        bridge: None,
        mtu: None,
        ip_masq: None,
        ipam: None,
        dns: None,
        args: None,
        host_id: None,
        registry_endpoints: None,
        registry_enabled: None,
    }
}

fn minimal_ipam() -> IpamConfig {
    IpamConfig {
        plugin_type: "flatnet-ipam".to_string(),
        subnet: None,
        gateway: None,
        routes: None,
        ranges: None,
        host_id: None,
    }
}

#[test]
fn commands_are_matched_exactly() {
    assert_eq!(command_of("ADD"), CniCommand::Add);
    assert_eq!(command_of("DEL"), CniCommand::Del);
    assert_eq!(command_of("CHECK"), CniCommand::Check);
    assert_eq!(command_of("VERSION"), CniCommand::Version);
    assert_eq!(command_of("add"), CniCommand::Unknown);
    assert_eq!(command_of(""), CniCommand::Unknown);
}

#[test]
fn unknown_commands_are_sanitized() {
    assert_eq!(sanitize_command("GET_STATE"), "GET_STATE");
    assert_eq!(sanitize_command("evil\ncmd;rm -rf"), "evilcmdrm-rf");
    let long = "A".repeat(100);
    assert_eq!(sanitize_command(&long).len(), 32);
}

#[test]
fn multihost_gateway_derives_from_host_id() {
    let mut config = minimal_config();
    config.host_id = Some(7);
    assert_eq!(gateway_for(&config).unwrap(), "10.100.7.1");
}

#[test]
fn ipam_host_id_also_selects_multihost() {
    let mut config = minimal_config();
    let mut ipam = minimal_ipam();
    ipam.host_id = Some(9);
    config.ipam = Some(ipam);
    assert_eq!(gateway_for(&config).unwrap(), "10.100.9.1");
}

#[test]
fn single_host_gateway_comes_from_config_or_default() {
    let config = minimal_config();
    assert_eq!(gateway_for(&config).unwrap(), "10.87.1.1");

    let mut with_gw = minimal_config();
    let mut ipam = minimal_ipam();
    ipam.gateway = Some("10.42.0.1".to_string());
    with_gw.ipam = Some(ipam);
    assert_eq!(gateway_for(&with_gw).unwrap(), "10.42.0.1");

    let mut bad = minimal_config();
    let mut ipam2 = minimal_ipam();
    ipam2.gateway = Some("not-an-ip".to_string());
    bad.ipam = Some(ipam2);
    let err = gateway_for(&bad).unwrap_err();
    assert_eq!(err.code(), CniErrorCode::InvalidNetworkConfig);
}

#[test]
fn config_defaults_apply() {
    let config = minimal_config();
    assert_eq!(config.bridge_name(), "flatnet-br0");
    assert_eq!(config.mtu_value(), 1500);
    assert_eq!(config.host_id_value(), 1);
    assert!(!config.is_registry_enabled());
    assert!(config.registry_endpoints().is_empty());
}

#[test]
fn registry_is_on_when_endpoints_are_given() {
    let mut config = minimal_config();
    config.registry_endpoints = Some(vec!["http://10.100.0.1:8080/api/containers".to_string()]);
    assert!(config.is_registry_enabled());
    assert_eq!(config.registry_endpoints().len(), 1);
    config.registry_enabled = Some(false);
    assert!(!config.is_registry_enabled());
}

#[test]
fn check_fails_on_the_first_missing_resource() {
    assert!(check_outcome(true, true, true).is_ok());
    let e = check_outcome(false, true, true).unwrap_err();
    assert_eq!(e.code(), CniErrorCode::IoFailure);
    let e = check_outcome(true, false, true).unwrap_err();
    assert_eq!(e.code(), CniErrorCode::IoFailure);
    let e = check_outcome(true, true, false).unwrap_err();
    assert_eq!(e.code(), CniErrorCode::IpamFailure);
}

#[test]
fn address_gets_its_prefix() {
    assert_eq!(ip_with_prefix("10.100.1.10", 24), "10.100.1.10/24");
}
