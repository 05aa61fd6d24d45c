use flatnet::dispatch::{version_result, CNI_VERSION};
use flatnet::result::CniResult;

#[test]
fn test_cni_result_builder() {
    let result = CniResult::new("1.0.0".to_string())
        .with_interface(
            "eth0".to_string(),
            "02:42:ac:11:00:02".to_string(),
            Some("/var/run/netns/ctr".to_string()),
        )
        .with_ip("172.17.0.2/16".to_string(), Some("172.17.0.1".to_string()), 0)
        .with_route("0.0.0.0/0".to_string(), Some("172.17.0.1".to_string()));

    assert_eq!(result.cni_version, "1.0.0");
    assert_eq!(result.interfaces.as_ref().unwrap().len(), 1);
    assert_eq!(result.ips.as_ref().unwrap().len(), 1);
    assert_eq!(result.routes.as_ref().unwrap().len(), 1);
}

#[test]
fn builder_appends_in_order() {
    let result = CniResult::new("1.0.0".to_string())
        .with_interface("host0".to_string(), String::new(), None)
        .with_interface("eth0".to_string(), "02:00:00:00:00:01".to_string(), None);
    let ifaces = result.interfaces.unwrap();
    assert_eq!(ifaces[0].name, "host0");
    assert_eq!(ifaces[1].name, "eth0");
    assert!(result.dns.is_none());
}

#[test]
fn test_supported_versions() {
    let r = version_result();
    let versions: Vec<&str> = r.supported_versions.iter().map(|s| s.as_str()).collect();
    assert!(versions.contains(&"1.0.0"));
    assert!(versions.contains(&"0.4.0"));
    assert!(versions.contains(&"0.3.1"));
    assert!(versions.contains(&"0.3.0"));
}

#[test]
fn test_cni_version_constant() {
    assert_eq!(CNI_VERSION, "1.0.0");
}

#[test]
fn version_answer_speaks_the_current_version() {
    let r = version_result();
    assert_eq!(r.cni_version, "1.0.0");
    assert!(r.supported_versions.iter().any(|v| v == "1.0.0"));
}
