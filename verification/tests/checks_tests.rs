use flatnet::bridge::{
    ensure_bridge_plan, BridgeAction, DEFAULT_BRIDGE_NAME, DEFAULT_GATEWAY, DEFAULT_PREFIX_LEN,
};
use flatnet::checks::disk::{
    classify_disk_usage, parse_disk_usage, DISK_CRITICAL_THRESHOLD, DISK_WARNING_THRESHOLD,
};
use flatnet::checks::{calculate_summary, determine_exit_code, CheckResult, CheckStatus};

#[test]
fn test_default_values() {
    assert_eq!(DEFAULT_BRIDGE_NAME, "flatnet-br0");
    assert_eq!(DEFAULT_GATEWAY, "10.87.1.1");
    assert_eq!(DEFAULT_PREFIX_LEN, 24);
}

#[test]
fn bridge_plan_is_idempotent_on_existing_bridges() {
    assert_eq!(
        ensure_bridge_plan(true),
        vec![BridgeAction::AssignAddress, BridgeAction::BringUp]
    );
    assert_eq!(
        ensure_bridge_plan(false),
        vec![BridgeAction::Create, BridgeAction::AssignAddress, BridgeAction::BringUp]
    );
}

#[test]
fn test_check_result_pass() {
    let result = CheckResult::pass("Gateway", "HTTP", "Service is running");
    assert_eq!(result.status, CheckStatus::Pass);
    assert!(result.suggestion.is_none());
}

#[test]
fn test_check_result_warning() {
    let result = CheckResult::warning("Disk", "Usage", "Disk usage at 85%", "Consider cleaning up");
    assert_eq!(result.status, CheckStatus::Warning);
    assert!(result.suggestion.is_some());
}

#[test]
fn test_check_result_fail() {
    let result = CheckResult::fail("Gateway", "HTTP", "Connection refused", "Start the Gateway service");
    assert_eq!(result.status, CheckStatus::Fail);
    assert!(result.suggestion.is_some());
}

#[test]
fn test_determine_exit_code() {
    // All pass
    let results = vec![CheckResult::pass("Test", "Test1", "OK")];
    assert_eq!(determine_exit_code(&results), 0);

    // One warning
    let results = vec![
        CheckResult::pass("Test", "Test1", "OK"),
        CheckResult::warning("Test", "Test2", "Warn", "Fix it"),
    ];
    assert_eq!(determine_exit_code(&results), 1);

    // One fail
    let results = vec![
        CheckResult::pass("Test", "Test1", "OK"),
        CheckResult::fail("Test", "Test2", "Failed", "Fix it"),
    ];
    assert_eq!(determine_exit_code(&results), 2);
}

#[test]
fn test_calculate_summary() {
    let results = vec![
        CheckResult::pass("Test", "Test1", "OK"),
        CheckResult::pass("Test", "Test2", "OK"),
        CheckResult::warning("Test", "Test3", "Warn", "Fix"),
        CheckResult::fail("Test", "Test4", "Fail", "Fix"),
    ];
    let (passed, warnings, failed) = calculate_summary(&results);
    assert_eq!(passed, 2);
    assert_eq!(warnings, 1);
    assert_eq!(failed, 1);
}

#[test]
fn cni_test_category_name() {
    assert_eq!(flatnet::checks::cni::CATEGORY, "CNI Plugin");
}

#[test]
fn network_test_category_name() {
    assert_eq!(flatnet::checks::network::CATEGORY, "Network");
}

#[test]
fn test_check_result_category() {
    // Just ensure the category constant is correct
    assert_eq!(flatnet::checks::monitoring::CATEGORY, "Monitoring");
}

#[test]
fn test_parse_disk_usage() {
    let output = "Use%\n 45%\n";
    assert_eq!(parse_disk_usage(output), Some(45));

    let output = "Use%\n  5%\n";
    assert_eq!(parse_disk_usage(output), Some(5));

    let output = "Use%\n 100%\n";
    assert_eq!(parse_disk_usage(output), Some(100));

    let output = "invalid";
    assert_eq!(parse_disk_usage(output), None);
}

#[test]
fn test_thresholds() {
    assert!(DISK_WARNING_THRESHOLD < DISK_CRITICAL_THRESHOLD);
    assert!(DISK_WARNING_THRESHOLD > 0);
    assert!(DISK_CRITICAL_THRESHOLD <= 100);
}

#[test]
fn usage_classification_follows_the_thresholds() {
    assert_eq!(classify_disk_usage(10).status, CheckStatus::Pass);
    assert_eq!(classify_disk_usage(80).status, CheckStatus::Warning);
    assert_eq!(classify_disk_usage(94).status, CheckStatus::Warning);
    assert_eq!(classify_disk_usage(95).status, CheckStatus::Fail);
    assert_eq!(classify_disk_usage(100).status, CheckStatus::Fail);
}

#[test]
fn test_extract_address() {
    assert_eq!(
        flatnet::checks::gateway::extract_address("http://10.100.1.1:8080"),
        "10.100.1.1:8080"
    );
    assert_eq!(
        flatnet::checks::gateway::extract_address("https://example.com:443"),
        "example.com:443"
    );
}

#[test]
fn test_extract_host() {
    assert_eq!(
        flatnet::checks::gateway::extract_host("http://10.100.1.1:8080"),
        Some("10.100.1.1".to_string())
    );
    assert_eq!(
        flatnet::checks::gateway::extract_host("http://localhost:8080/api"),
        Some("localhost".to_string())
    );
    assert_eq!(
        flatnet::checks::gateway::extract_host("http://example.com"),
        Some("example.com".to_string())
    );
    assert_eq!(
        flatnet::checks::gateway::extract_host("https://[::1]:8080"),
        Some("[::1]".to_string())
    );
}
