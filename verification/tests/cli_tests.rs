use flatnet::cli_config::Config;
use flatnet::commands::ps::{apply_filters, truncate_image};
use flatnet::commands::status::{extract_gateway_address, gateway_error_status};
use flatnet::gateway_client::GatewayError;
use flatnet::loki::{component_to_job, is_known_component, parse_duration};
use flatnet::podman::PodmanContainer;

#[test]
fn test_parse_duration() {
    assert_eq!(parse_duration("30s"), Some(30));
    assert_eq!(parse_duration("5m"), Some(300));
    assert_eq!(parse_duration("2h"), Some(7200));
    assert_eq!(parse_duration("1d"), Some(86400));
    assert_eq!(parse_duration("invalid"), None);
    assert_eq!(parse_duration(""), None);
}

#[test]
fn test_component_to_job() {
    assert_eq!(component_to_job("gateway"), Some("gateway"));
    assert_eq!(component_to_job("Gateway"), Some("gateway"));
    assert_eq!(component_to_job("cni"), Some("flatnet-cni"));
    assert_eq!(component_to_job("unknown"), None);
}

#[test]
fn test_is_known_component() {
    assert!(is_known_component("gateway"));
    assert!(is_known_component("prometheus"));
    assert!(!is_known_component("my-container"));
}

fn container(id: &str, name: &str, image: &str, state: &str, status: &str) -> PodmanContainer {
    PodmanContainer {
        id: id.to_string(),
        names: vec![name.to_string()],
        image: image.to_string(),
        state: state.to_string(),
        status: status.to_string(),
        created: None,
        networks: None,
    }
}

#[test]
fn test_short_id() {
    let c = container(
        "abc123def456789012345678901234567890",
        "test",
        "nginx",
        "running",
        "Up",
    );
    assert_eq!(c.short_id(), "abc123def456");
}

#[test]
fn short_ids_of_short_ids_stay_whole() {
    let c = container("abc", "t", "i", "exited", "Exited");
    assert_eq!(c.short_id(), "abc");
    assert!(!c.is_running());
    assert_eq!(c.name(), "t");
}

#[test]
fn test_truncate_image() {
    assert_eq!(truncate_image("nginx:latest"), "nginx:latest");
    assert_eq!(truncate_image("docker.io/library/nginx:latest"), "nginx:latest");
    assert_eq!(
        truncate_image("very-long-image-name-that-should-be-truncated:tag"),
        "very-long-image-name-t..."
    );
}

#[test]
fn test_apply_filters() {
    let containers = vec![
        container("abc123", "web", "nginx", "running", "Up 1 hour"),
        container("def456", "db", "postgres", "exited", "Exited (0)"),
    ];

    // Filter by name
    let filter = Some("name=web".to_string());
    let filtered = apply_filters(&containers, &filter);
    assert_eq!(filtered.len(), 1);
    assert_eq!(filtered[0].name(), "web");

    // Filter by state
    let filter = Some("state=running".to_string());
    let filtered = apply_filters(&containers, &filter);
    assert_eq!(filtered.len(), 1);
    assert_eq!(filtered[0].name(), "web");

    // No filter
    let filtered = apply_filters(&containers, &None);
    assert_eq!(filtered.len(), 2);
}

#[test]
fn bare_filter_words_match_any_field() {
    let containers = vec![
        container("abc123", "web", "nginx", "running", "Up"),
        container("def456", "db", "postgres", "exited", "Exited"),
    ];
    let filtered = apply_filters(&containers, &Some("post".to_string()));
    assert_eq!(filtered.len(), 1);
    assert_eq!(filtered[0].name(), "db");
}

#[test]
fn display_rows_carry_registered_addresses() {
    let containers = vec![
        container("abc123def456789012345678", "web", "docker.io/library/nginx:latest", "running", "Up"),
        container("fedcba987654321098765432", "db", "postgres", "exited", "Exited"),
    ];
    let refs: Vec<&flatnet::podman::PodmanContainer> = containers.iter().collect();
    let ips = vec![("web".to_string(), "10.100.1.11".to_string())];
    let rows = flatnet::commands::ps::build_display_list(&refs, &ips);
    assert_eq!(rows.len(), 2);
    assert_eq!(rows[0].id, "abc123def456");
    assert_eq!(rows[0].image, "nginx:latest");
    assert_eq!(rows[0].flatnet_ip, "10.100.1.11");
    assert_eq!(rows[1].flatnet_ip, "-");
    assert_eq!(rows[1].status, "Exited");
}

#[test]
fn test_default_config() {
    let config = Config::default();
    assert!(config.gateway.url.is_none());
    assert_eq!(config.gateway.timeout_secs, 5);
    assert!(config.display.color);
}

#[test]
fn test_extract_gateway_address() {
    assert_eq!(extract_gateway_address("http://10.100.1.1:8080"), "10.100.1.1:8080");
    assert_eq!(extract_gateway_address("https://example.com"), "example.com");
}

#[test]
fn failed_gateway_calls_earn_their_status_word() {
    let e = GatewayError::ConnectionFailed("refused".to_string());
    let s = gateway_error_status(&e, "http://10.100.1.1:8080");
    assert_eq!(s.name, "Gateway");
    assert_eq!(s.status, "Stopped");
    assert!(s.details.contains("10.100.1.1:8080"));

    let t = gateway_error_status(&GatewayError::Timeout, "http://h:1");
    assert_eq!(t.status, "Timeout");

    let r = gateway_error_status(&GatewayError::RequestFailed("x".to_string()), "http://h:1");
    assert_eq!(r.status, "Error");
}
