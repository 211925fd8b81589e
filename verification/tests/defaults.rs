use mcp_guards::native::rug_pull::RugPullConfig;
use mcp_guards::native::tool_poisoning::{ScanField, ToolPoisoningConfig};
use mcp_guards::wasm::{default_max_memory, default_max_wasm_stack, default_timeout_ms};

#[test]
fn rug_pull_test_default_config() {
    let config = RugPullConfig::default();
    assert!(config.enabled);
    assert_eq!(config.risk_threshold, 5);
    assert_eq!(config.removal_weight, 3);
    assert_eq!(config.schema_change_weight, 3);
    assert_eq!(config.description_change_weight, 2);
    assert_eq!(config.addition_weight, 1);
    assert!(config.detect_changes.removals);
    assert!(config.detect_changes.additions);
    assert!(config.detect_changes.description_changes);
    assert!(config.detect_changes.schema_changes);
    assert!(config.update_baseline_on_allow);
}

#[test]
fn tool_poisoning_test_default_config() {
    let config = ToolPoisoningConfig::default();
    assert!(config.strict_mode);
    assert!(config.custom_patterns.is_empty());
    assert_eq!(config.scan_fields.len(), 3);
    assert_eq!(config.scan_fields[0], ScanField::Name);
    assert_eq!(config.alert_threshold, 1);
}

#[test]
fn test_default_config_values() {
    assert_eq!(default_max_memory(), 10 * 1024 * 1024);
    assert_eq!(default_max_wasm_stack(), 2 * 1024 * 1024);
    assert_eq!(default_timeout_ms(), 100);
}
