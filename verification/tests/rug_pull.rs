use mcp_guards::decision::{GuardContext, GuardDecision};
use mcp_guards::json::Json;
use mcp_guards::native::rug_pull::{
    ChangeDetectionConfig, RugPullConfig, RugPullDetector, ServerBaseline, ToolChange,
    ToolFingerprint,
};
use mcp_guards::tool::Tool;

fn schema_text(json: &str) -> String {
    let value: serde_json::Value = serde_json::from_str(json).unwrap();
    serde_json::to_string(&value).unwrap()
}

fn create_test_tool(name: &str, description: Option<&str>) -> Tool {
    Tool::new(name, description, &schema_text(r#"{"type": "object"}"#))
}

fn create_tool_with_schema(name: &str, schema: &str) -> Tool {
    Tool::new(name, Some("A tool"), &schema_text(schema))
}

fn create_test_context() -> GuardContext {
    context_for("test-server")
}

fn context_for(server: &str) -> GuardContext {
    GuardContext { server_name: server.to_string(), identity: None, metadata: "{}".to_string() }
}

#[test]
fn test_first_encounter_establishes_baseline() {
    let config = RugPullConfig::default();
    let mut detector = RugPullDetector::new(config);
    let context = create_test_context();

    let tools = vec![
        create_test_tool("tool1", Some("Description 1")),
        create_test_tool("tool2", Some("Description 2")),
    ];

    let result = detector.evaluate_tools_list(&tools, &context);
    assert!(matches!(result, Ok(GuardDecision::Allow)));

    assert!(detector.baseline("test-server").is_some());
    assert_eq!(detector.baseline("test-server").unwrap().tools.len(), 2);
}

#[test]
fn test_no_changes_allows() {
    let config = RugPullConfig::default();
    let mut detector = RugPullDetector::new(config);
    let context = create_test_context();

    let tools = vec![
        create_test_tool("tool1", Some("Description 1")),
        create_test_tool("tool2", Some("Description 2")),
    ];

    detector.evaluate_tools_list(&tools, &context).unwrap();

    let result = detector.evaluate_tools_list(&tools, &context);
    assert!(matches!(result, Ok(GuardDecision::Allow)));
}

#[test]
fn test_detects_tool_removal() {
    let config = RugPullConfig { risk_threshold: 5, removal_weight: 3, ..Default::default() };
    let mut detector = RugPullDetector::new(config);
    let context = create_test_context();

    let initial_tools = vec![
        create_test_tool("tool1", Some("Description 1")),
        create_test_tool("tool2", Some("Description 2")),
    ];

    detector.evaluate_tools_list(&initial_tools, &context).unwrap();

    let reduced_tools = vec![create_test_tool("tool1", Some("Description 1"))];

    let result = detector.evaluate_tools_list(&reduced_tools, &context);
    assert!(matches!(result, Ok(GuardDecision::Allow)));

    let mut detector2 = RugPullDetector::new(RugPullConfig {
        risk_threshold: 5,
        removal_weight: 3,
        ..Default::default()
    });
    detector2.evaluate_tools_list(&initial_tools, &context).unwrap();

    let empty_tools: Vec<Tool> = vec![];
    let result = detector2.evaluate_tools_list(&empty_tools, &context);
    assert!(matches!(result, Ok(GuardDecision::Deny(_))));
}

#[test]
fn test_detects_tool_addition() {
    let config = RugPullConfig { risk_threshold: 5, addition_weight: 2, ..Default::default() };
    let mut detector = RugPullDetector::new(config);
    let context = create_test_context();

    let initial_tools = vec![create_test_tool("tool1", Some("Description 1"))];

    detector.evaluate_tools_list(&initial_tools, &context).unwrap();

    let expanded_tools = vec![
        create_test_tool("tool1", Some("Description 1")),
        create_test_tool("tool2", Some("Description 2")),
        create_test_tool("tool3", Some("Description 3")),
    ];

    let result = detector.evaluate_tools_list(&expanded_tools, &context);
    assert!(matches!(result, Ok(GuardDecision::Allow)));
}

#[test]
fn test_detects_description_change() {
    let config =
        RugPullConfig { risk_threshold: 5, description_change_weight: 3, ..Default::default() };
    let mut detector = RugPullDetector::new(config);
    let context = create_test_context();

    let initial_tools = vec![
        create_test_tool("tool1", Some("Original description")),
        create_test_tool("tool2", Some("Another description")),
    ];

    detector.evaluate_tools_list(&initial_tools, &context).unwrap();

    let changed_tools = vec![
        create_test_tool("tool1", Some("Modified description")),
        create_test_tool("tool2", Some("Another description")),
    ];

    let result = detector.evaluate_tools_list(&changed_tools, &context);
    assert!(matches!(result, Ok(GuardDecision::Allow)));
}

#[test]
fn test_detects_schema_change() {
    let config = RugPullConfig { risk_threshold: 5, schema_change_weight: 3, ..Default::default() };
    let mut detector = RugPullDetector::new(config);
    let context = create_test_context();

    let initial_tools = vec![create_tool_with_schema(
        "tool1",
        r#"{"type": "object", "properties": {"arg1": {"type": "string"}}}"#,
    )];

    detector.evaluate_tools_list(&initial_tools, &context).unwrap();

    let changed_tools = vec![create_tool_with_schema(
        "tool1",
        r#"{"type": "object", "properties": {"arg1": {"type": "number"}}}"#,
    )];

    let result = detector.evaluate_tools_list(&changed_tools, &context);
    assert!(matches!(result, Ok(GuardDecision::Allow)));
}

#[test]
fn test_below_threshold_allows() {
    let config = RugPullConfig { risk_threshold: 10, removal_weight: 3, ..Default::default() };
    let mut detector = RugPullDetector::new(config);
    let context = create_test_context();

    let initial_tools = vec![
        create_test_tool("tool1", Some("Desc 1")),
        create_test_tool("tool2", Some("Desc 2")),
        create_test_tool("tool3", Some("Desc 3")),
    ];

    detector.evaluate_tools_list(&initial_tools, &context).unwrap();

    let reduced_tools = vec![create_test_tool("tool1", Some("Desc 1"))];

    let result = detector.evaluate_tools_list(&reduced_tools, &context);
    assert!(matches!(result, Ok(GuardDecision::Allow)));
}

#[test]
fn test_at_threshold_denies() {
    let config = RugPullConfig { risk_threshold: 6, removal_weight: 3, ..Default::default() };
    let mut detector = RugPullDetector::new(config);
    let context = create_test_context();

    let initial_tools =
        vec![create_test_tool("tool1", Some("Desc 1")), create_test_tool("tool2", Some("Desc 2"))];

    detector.evaluate_tools_list(&initial_tools, &context).unwrap();

    let empty_tools: Vec<Tool> = vec![];
    let result = detector.evaluate_tools_list(&empty_tools, &context);
    assert!(matches!(result, Ok(GuardDecision::Deny(_))));
}

#[test]
fn test_above_threshold_denies() {
    let config = RugPullConfig { risk_threshold: 5, removal_weight: 3, ..Default::default() };
    let mut detector = RugPullDetector::new(config);
    let context = create_test_context();

    let initial_tools =
        vec![create_test_tool("tool1", Some("Desc 1")), create_test_tool("tool2", Some("Desc 2"))];

    detector.evaluate_tools_list(&initial_tools, &context).unwrap();

    let empty_tools: Vec<Tool> = vec![];
    let result = detector.evaluate_tools_list(&empty_tools, &context);
    assert!(matches!(result, Ok(GuardDecision::Deny(_))));
}

#[test]
fn test_cumulative_scoring() {
    let config = RugPullConfig {
        risk_threshold: 6,
        removal_weight: 2,
        schema_change_weight: 2,
        description_change_weight: 2,
        addition_weight: 1,
        ..Default::default()
    };
    let mut detector = RugPullDetector::new(config);
    let context = create_test_context();

    let initial_tools = vec![
        create_test_tool("tool1", Some("Desc 1")),
        create_tool_with_schema("tool2", r#"{"type": "object", "properties": {}}"#),
    ];

    detector.evaluate_tools_list(&initial_tools, &context).unwrap();

    let changed_tools = vec![
        create_tool_with_schema(
            "tool2",
            r#"{"type": "object", "properties": {"new": {"type": "string"}}}"#,
        ),
        create_test_tool("tool3", Some("New tool")),
    ];

    let result = detector.evaluate_tools_list(&changed_tools, &context);
    assert!(matches!(result, Ok(GuardDecision::Allow)));
}

#[test]
fn test_custom_weights() {
    let config = RugPullConfig {
        risk_threshold: 10,
        removal_weight: 5,
        addition_weight: 5,
        ..Default::default()
    };
    let mut detector = RugPullDetector::new(config);
    let context = create_test_context();

    let initial_tools = vec![create_test_tool("tool1", Some("Desc"))];

    detector.evaluate_tools_list(&initial_tools, &context).unwrap();

    let changed_tools = vec![create_test_tool("tool2", Some("New tool"))];

    let result = detector.evaluate_tools_list(&changed_tools, &context);
    assert!(matches!(result, Ok(GuardDecision::Deny(_))));
}

#[test]
fn test_disable_specific_change_types() {
    let config = RugPullConfig {
        risk_threshold: 1,
        removal_weight: 3,
        detect_changes: ChangeDetectionConfig { removals: false, ..Default::default() },
        ..Default::default()
    };
    let mut detector = RugPullDetector::new(config);
    let context = create_test_context();

    let initial_tools = vec![create_test_tool("tool1", Some("Desc"))];

    detector.evaluate_tools_list(&initial_tools, &context).unwrap();

    let empty_tools: Vec<Tool> = vec![];
    let result = detector.evaluate_tools_list(&empty_tools, &context);
    assert!(matches!(result, Ok(GuardDecision::Allow)));
}

#[test]
fn test_disabled_guard_allows_all() {
    let config = RugPullConfig { enabled: false, risk_threshold: 0, ..Default::default() };
    let mut detector = RugPullDetector::new(config);
    let context = create_test_context();

    let tools = vec![create_test_tool("tool1", Some("Desc"))];

    let result = detector.evaluate_tools_list(&tools, &context);
    assert!(matches!(result, Ok(GuardDecision::Allow)));
}

#[test]
fn test_separate_baselines_per_server() {
    let config = RugPullConfig::default();
    let mut detector = RugPullDetector::new(config);

    let context1 = context_for("server-1");
    let context2 = context_for("server-2");

    let tools1 = vec![create_test_tool("tool1", Some("Desc 1"))];
    let tools2 =
        vec![create_test_tool("tool2", Some("Desc 2")), create_test_tool("tool3", Some("Desc 3"))];

    detector.evaluate_tools_list(&tools1, &context1).unwrap();
    detector.evaluate_tools_list(&tools2, &context2).unwrap();

    assert_eq!(detector.baseline("server-1").unwrap().tools.len(), 1);
    assert_eq!(detector.baseline("server-2").unwrap().tools.len(), 2);
}

#[test]
fn rug_pull_test_empty_tools_list() {
    let config = RugPullConfig::default();
    let mut detector = RugPullDetector::new(config);
    let context = create_test_context();

    let empty_tools: Vec<Tool> = vec![];
    let result = detector.evaluate_tools_list(&empty_tools, &context);
    assert!(matches!(result, Ok(GuardDecision::Allow)));

    assert!(detector.baseline("test-server").unwrap().tools.is_empty());
}

#[test]
fn test_tools_without_description() {
    let config = RugPullConfig::default();
    let mut detector = RugPullDetector::new(config);
    let context = create_test_context();

    let tools =
        vec![create_test_tool("tool1", None), create_test_tool("tool2", Some("Has description"))];

    let result = detector.evaluate_tools_list(&tools, &context);
    assert!(matches!(result, Ok(GuardDecision::Allow)));

    let result = detector.evaluate_tools_list(&tools, &context);
    assert!(matches!(result, Ok(GuardDecision::Allow)));
}

#[test]
fn test_baseline_update_on_allow() {
    let config = RugPullConfig {
        risk_threshold: 10,
        removal_weight: 2,
        update_baseline_on_allow: true,
        ..Default::default()
    };
    let mut detector = RugPullDetector::new(config);
    let context = create_test_context();

    let initial_tools =
        vec![create_test_tool("tool1", Some("Desc")), create_test_tool("tool2", Some("Desc"))];

    detector.evaluate_tools_list(&initial_tools, &context).unwrap();

    let reduced_tools = vec![create_test_tool("tool1", Some("Desc"))];

    let result = detector.evaluate_tools_list(&reduced_tools, &context);
    assert!(matches!(result, Ok(GuardDecision::Allow)));

    let empty_tools: Vec<Tool> = vec![];
    let result = detector.evaluate_tools_list(&empty_tools, &context);
    assert!(matches!(result, Ok(GuardDecision::Allow)));
    assert_eq!(detector.baseline("test-server").unwrap().update_count, 2);
}

#[test]
fn test_no_baseline_update_when_disabled() {
    let config = RugPullConfig {
        risk_threshold: 10,
        removal_weight: 2,
        update_baseline_on_allow: false,
        ..Default::default()
    };
    let mut detector = RugPullDetector::new(config);
    let context = create_test_context();

    let initial_tools =
        vec![create_test_tool("tool1", Some("Desc")), create_test_tool("tool2", Some("Desc"))];

    detector.evaluate_tools_list(&initial_tools, &context).unwrap();

    let reduced_tools = vec![create_test_tool("tool1", Some("Desc"))];

    let result = detector.evaluate_tools_list(&reduced_tools, &context);
    assert!(matches!(result, Ok(GuardDecision::Allow)));

    let empty_tools: Vec<Tool> = vec![];
    let result = detector.evaluate_tools_list(&empty_tools, &context);
    assert!(matches!(result, Ok(GuardDecision::Allow)));
    assert_eq!(detector.baseline("test-server").unwrap().tools.len(), 2);
    assert_eq!(detector.baseline("test-server").unwrap().update_count, 0);
}

#[test]
fn test_deny_reason_contains_change_details() {
    let config = RugPullConfig { risk_threshold: 3, removal_weight: 4, ..Default::default() };
    let mut detector = RugPullDetector::new(config);
    let context = create_test_context();

    let initial_tools = vec![create_test_tool("critical_tool", Some("Important"))];

    detector.evaluate_tools_list(&initial_tools, &context).unwrap();

    let empty_tools: Vec<Tool> = vec![];
    let result = detector.evaluate_tools_list(&empty_tools, &context);

    match result {
        Ok(GuardDecision::Deny(reason)) => {
            assert_eq!(reason.code, "rug_pull_detected");
            assert!(reason.message.contains("risk score"));
            assert!(reason.details.is_some());

            let details = reason.details.unwrap();
            let changes = details.get("changes").unwrap().as_array().unwrap();
            assert_eq!(changes.len(), 1);
            assert_eq!(changes[0].get("type").unwrap().as_str(), Some("removed"));
            assert_eq!(changes[0].get("tool").unwrap().as_str(), Some("critical_tool"));
            assert_eq!(details.get("total_risk_score").unwrap().as_u64(), Some(4));
            assert_eq!(details.get("threshold").unwrap().as_u64(), Some(3));
        },
        other => panic!("Expected Deny decision, got {:?}", other),
    }
}

#[test]
fn test_deny_reason_code() {
    let config = RugPullConfig { risk_threshold: 1, removal_weight: 2, ..Default::default() };
    let mut detector = RugPullDetector::new(config);
    let context = create_test_context();

    let tools = vec![create_test_tool("tool", Some("Desc"))];
    detector.evaluate_tools_list(&tools, &context).unwrap();

    let empty: Vec<Tool> = vec![];
    let result = detector.evaluate_tools_list(&empty, &context);

    match result {
        Ok(GuardDecision::Deny(reason)) => {
            assert_eq!(reason.code, "rug_pull_detected");
        },
        other => panic!("Expected Deny, got {:?}", other),
    }
}

#[test]
fn test_fingerprint_same_tool() {
    let tool1 = create_test_tool("test", Some("Description"));
    let tool2 = create_test_tool("test", Some("Description"));

    let fp1 = ToolFingerprint::from_tool(&tool1);
    let fp2 = ToolFingerprint::from_tool(&tool2);

    assert_eq!(fp1, fp2);
}

#[test]
fn test_fingerprint_different_description() {
    let tool1 = create_test_tool("test", Some("Description 1"));
    let tool2 = create_test_tool("test", Some("Description 2"));

    let fp1 = ToolFingerprint::from_tool(&tool1);
    let fp2 = ToolFingerprint::from_tool(&tool2);

    assert_eq!(fp1.name, fp2.name);
    assert_ne!(fp1.description_hash, fp2.description_hash);
    assert_eq!(fp1.schema_hash, fp2.schema_hash);
}

#[test]
fn test_fingerprint_different_schema() {
    let tool1 = create_tool_with_schema("test", r#"{"type": "object"}"#);
    let tool2 = create_tool_with_schema("test", r#"{"type": "object", "properties": {}}"#);

    let fp1 = ToolFingerprint::from_tool(&tool1);
    let fp2 = ToolFingerprint::from_tool(&tool2);

    assert_eq!(fp1.name, fp2.name);
    assert_ne!(fp1.schema_hash, fp2.schema_hash);
    assert_eq!(fp1.description_hash, fp2.description_hash);
}

#[test]
fn test_fingerprint_no_description() {
    let tool1 = create_test_tool("test", None);
    let tool2 = create_test_tool("test", Some("Has description"));

    let fp1 = ToolFingerprint::from_tool(&tool1);
    let fp2 = ToolFingerprint::from_tool(&tool2);

    assert!(fp1.description_hash.is_none());
    assert!(fp2.description_hash.is_some());
}

#[test]
fn seed_then_drift_then_sticky_block() {
    let mut detector = RugPullDetector::new(RugPullConfig::default());
    let context = create_test_context();
    let first = vec![
        create_tool_with_schema("t1", r#"{"type": "object", "a": 1}"#),
        create_tool_with_schema("t2", r#"{"type": "object", "b": 2}"#),
    ];
    assert!(matches!(detector.evaluate_tools_list(&first, &context), Ok(GuardDecision::Allow)));

    match detector.evaluate_tools_list(&vec![], &context) {
        Ok(GuardDecision::Deny(reason)) => {
            assert_eq!(reason.code, "rug_pull_detected");
            assert_eq!(
                reason.message,
                "Suspicious tool changes detected (risk score: 6 >= threshold: 5)"
            );
            let details = reason.details.unwrap();
            assert_eq!(details.get("total_risk_score").unwrap().as_u64(), Some(6));
            assert_eq!(details.get("threshold").unwrap().as_u64(), Some(5));
            let changes = details.get("changes").unwrap().as_array().unwrap();
            assert_eq!(changes.len(), 2);
            assert_eq!(changes[0].get("tool").unwrap().as_str(), Some("t1"));
            assert_eq!(changes[1].get("tool").unwrap().as_str(), Some("t2"));
            assert_eq!(changes[1].get("weight").unwrap().as_u64(), Some(3));
        },
        other => panic!("expected a denial, got {:?}", other),
    }
    assert!(detector.baseline("test-server").unwrap().blocked);

    let third = vec![create_tool_with_schema("t1", r#"{"type": "object", "a": 1}"#)];
    match detector.evaluate_tools_list(&third, &context) {
        Ok(GuardDecision::Deny(reason)) => {
            assert_eq!(reason.code, "rug_pull_server_blocked");
            assert_eq!(
                reason.message,
                "Server 'test-server' is blocked due to previous rug pull detection"
            );
            let details = reason.details.unwrap();
            assert_eq!(
                details.get("original_reason").unwrap().as_str(),
                Some("Suspicious tool changes detected (risk score: 6 >= threshold: 5)")
            );
        },
        other => panic!("expected a denial, got {:?}", other),
    }
    // The same list as at first is denied too: the block is sticky.
    assert!(matches!(detector.evaluate_tools_list(&first, &context), Ok(GuardDecision::Deny(_))));
}

#[test]
fn blocked_server_denies_tool_invocations_until_reset() {
    let mut detector =
        RugPullDetector::new(RugPullConfig { risk_threshold: 1, ..Default::default() });
    let context = create_test_context();
    let other = context_for("other-server");
    let tools = vec![create_test_tool("tool", Some("Desc"))];
    detector.evaluate_tools_list(&tools, &context).unwrap();
    detector.evaluate_tools_list(&tools, &other).unwrap();

    assert!(matches!(
        detector.evaluate_tool_invoke("tool", &Json::Null, &context),
        Ok(GuardDecision::Allow)
    ));
    assert!(matches!(detector.evaluate_tools_list(&vec![], &context), Ok(GuardDecision::Deny(_))));

    match detector.evaluate_tool_invoke("tool", &Json::Null, &context) {
        Ok(GuardDecision::Deny(reason)) => {
            assert_eq!(reason.code, "rug_pull_server_blocked");
            assert_eq!(
                reason.message,
                "Tool 'tool' blocked - server 'test-server' is blocked due to rug pull detection"
            );
            let details = reason.details.unwrap();
            assert_eq!(details.get("blocked_tool").unwrap().as_str(), Some("tool"));
        },
        other => panic!("expected a denial, got {:?}", other),
    }
    // The other server is not touched, and resetting it does not unblock.
    assert!(matches!(
        detector.evaluate_tool_invoke("tool", &Json::Null, &other),
        Ok(GuardDecision::Allow)
    ));
    detector.reset_server("other-server");
    assert!(detector.baseline("other-server").is_none());
    assert!(matches!(
        detector.evaluate_tool_invoke("tool", &Json::Null, &context),
        Ok(GuardDecision::Deny(_))
    ));

    detector.reset_server("test-server");
    assert!(detector.baseline("test-server").is_none());
    assert_eq!(detector.server_count(), 0);
    assert!(matches!(
        detector.evaluate_tool_invoke("tool", &Json::Null, &context),
        Ok(GuardDecision::Allow)
    ));
    assert!(matches!(detector.evaluate_tools_list(&vec![], &context), Ok(GuardDecision::Allow)));
}

#[test]
fn changes_come_in_baseline_order_then_additions() {
    let baseline = ServerBaseline::establish(&vec![
        create_test_tool("a", Some("one")),
        create_tool_with_schema("b", r#"{"x": 1}"#),
        create_test_tool("c", None),
    ]);
    let current = vec![
        create_test_tool("d", None),
        create_tool_with_schema("b", r#"{"x": 2}"#),
        create_test_tool("a", Some("two")),
    ];
    let changes = baseline.detect_changes(&current, &ChangeDetectionConfig::default());
    let kinds: Vec<(&str, &str)> =
        changes.iter().map(|c| (c.change_type(), c.tool_name())).collect();
    assert_eq!(
        kinds,
        vec![
            ("description_changed", "a"),
            ("schema_changed", "b"),
            ("removed", "c"),
            ("added", "d"),
        ]
    );
    assert!(matches!(&changes[2], ToolChange::Removed { name } if name == "c"));

    let detector = RugPullDetector::new(RugPullConfig::default());
    assert_eq!(detector.calculate_risk_score(&changes), 2 + 3 + 3 + 1);

    let only_additions = ChangeDetectionConfig {
        removals: false,
        additions: true,
        description_changes: false,
        schema_changes: false,
    };
    let changes = baseline.detect_changes(&current, &only_additions);
    assert_eq!(changes.len(), 1);
    assert_eq!(changes[0].change_type(), "added");
}

#[test]
fn risk_score_saturates() {
    let detector = RugPullDetector::new(RugPullConfig {
        removal_weight: u32::MAX,
        ..Default::default()
    });
    let changes = vec![
        ToolChange::Removed { name: "a".to_string() },
        ToolChange::Removed { name: "b".to_string() },
    ];
    assert_eq!(detector.calculate_risk_score(&changes), u32::MAX);
    assert_eq!(detector.calculate_risk_score(&vec![]), 0);
}

#[test]
fn later_tool_of_the_same_name_counts() {
    let baseline = ServerBaseline::establish(&vec![
        create_test_tool("dup", Some("first")),
        create_test_tool("other", None),
        create_test_tool("dup", Some("second")),
    ]);
    assert_eq!(baseline.tools.len(), 2);
    assert_eq!(baseline.tools[0].name, "dup");
    assert_eq!(
        baseline.tools[0],
        ToolFingerprint::from_tool(&create_test_tool("dup", Some("second")))
    );
    assert_eq!(baseline.update_count, 0);
    assert!(!baseline.blocked);
}

#[test]
fn test_concurrent_access() {
    // Ten sessions, each with a server of its own, come to the one detector
    // that their lock guards; here they come one after the other.
    let config = RugPullConfig::default();
    let mut detector = RugPullDetector::new(config);

    for i in 0..10 {
        let context = context_for(&format!("server-{}", i));
        let tools = vec![create_test_tool(&format!("tool-{}", i), Some("Desc"))];
        let result = detector.evaluate_tools_list(&tools, &context);
        assert!(matches!(result, Ok(GuardDecision::Allow)));
    }

    // All 10 servers should have baselines
    assert_eq!(detector.server_count(), 10);
}
