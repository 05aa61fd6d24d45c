use flatnet::registry::{
    delete_path, delete_request, is_success_response, parse_endpoint, post_request,
    registration_succeeded, ContainerInfo, RegistryClient,
};

#[test]
fn test_parse_endpoint() {
    let (host, port, path) = parse_endpoint("http://10.100.1.1:8080/api/containers").unwrap();
    assert_eq!(host, "10.100.1.1");
    assert_eq!(port, 8080);
    assert_eq!(path, "/api/containers");
}

#[test]
fn test_parse_endpoint_default_port() {
    let (host, port, path) = parse_endpoint("http://gateway.local/api").unwrap();
    assert_eq!(host, "gateway.local");
    assert_eq!(port, 80);
    assert_eq!(path, "/api");
}

#[test]
fn test_parse_endpoint_no_path() {
    let (host, port, path) = parse_endpoint("http://10.100.1.1:8080").unwrap();
    assert_eq!(host, "10.100.1.1");
    assert_eq!(port, 8080);
    assert_eq!(path, "/");
}

#[test]
fn test_parse_endpoint_invalid() {
    assert!(parse_endpoint("https://secure.example.com").is_err());
    assert!(parse_endpoint("not-a-url").is_err());
}

#[test]
fn test_container_info_new() {
    let info = ContainerInfo::new("abc123".to_string(), "10.100.1.10".to_string(), 1);
    assert_eq!(info.id, "abc123");
    assert_eq!(info.ip, "10.100.1.10");
    assert_eq!(info.host_id, 1);
    assert!(info.created_at.is_some());
}

#[test]
fn test_container_info_with_extras() {
    let info = ContainerInfo::new("abc123".to_string(), "10.100.1.10".to_string(), 1)
        .with_hostname("my-service".to_string())
        .with_ports(vec![80, 443]);

    assert_eq!(info.hostname, Some("my-service".to_string()));
    assert_eq!(info.ports, Some(vec![80, 443]));
}

#[test]
fn created_at_is_decimal_text() {
    let info = ContainerInfo::new("x".to_string(), "10.100.1.10".to_string(), 1);
    let stamp = info.created_at.unwrap();
    assert!(!stamp.is_empty());
    assert!(stamp.chars().all(|c| c.is_ascii_digit()));
}

#[test]
fn announce_succeeds_with_one_reachable_endpoint() {
    // one endpoint unreachable, one reachable: the announcement still counts
    let outcomes = vec![false, true];
    assert!(registration_succeeded(&outcomes));
    assert!(!registration_succeeded(&vec![false, false]));
    assert!(!registration_succeeded(&vec![]));
}

#[test]
fn client_carries_endpoints_and_timeout() {
    let client = RegistryClient::new(vec!["http://a:1/".to_string()]);
    assert_eq!(client.timeout_secs, 5);
    assert_eq!(client.endpoints.len(), 1);
    let slower = client.with_timeout(9);
    assert_eq!(slower.timeout_secs, 9);
}

#[test]
fn post_request_declares_body_length() {
    let r = post_request("h.example", "/api", "{\"id\":\"x\"}");
    assert!(r.starts_with("POST /api HTTP/1.1\r\nHost: h.example\r\n"));
    assert!(r.contains("Content-Length: 10\r\n"));
    assert!(r.ends_with("\r\n\r\n{\"id\":\"x\"}"));
}

#[test]
fn delete_request_names_the_resource() {
    let p = delete_path("/api/containers/", "abc");
    assert_eq!(p, "/api/containers/abc");
    let r = delete_request("h.example", p.as_str());
    assert!(r.starts_with("DELETE /api/containers/abc HTTP/1.1\r\nHost: h.example\r\n"));
}

#[test]
fn success_is_read_from_the_status_line() {
    assert!(is_success_response("HTTP/1.1 200 OK\r\nSpare: 500 \r\n"));
    assert!(is_success_response("HTTP/1.1 204 No Content\r\n\r\n"));
    assert!(is_success_response("HTTP/1.1 203 Non-Authoritative\r\n\r\n"));
    assert!(!is_success_response("HTTP/1.1 500 got 200 before\r\n\r\n"));
    assert!(!is_success_response("HTTP/1.1 500 Oops\r\n\r\n"));
    assert!(!is_success_response(""));
}
