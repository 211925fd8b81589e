use mcp_guards::decision::{GuardContext, GuardDecision, GuardError};
use mcp_guards::json::{Json, JsonNumber};
use mcp_guards::native::pii_detection::{
    build_pii_patterns, default_action, default_confidence_threshold, default_pii_types,
    default_scan_fields, redact_pii, PiiAction, PiiDetectionConfig, PiiDetector, PiiType,
    ScanField,
};
use mcp_guards::tool::Tool;

fn create_test_tool(name: &str, description: Option<&str>) -> Tool {
    Tool::new(name, description, "{\"type\":\"object\"}")
}

fn create_test_context() -> GuardContext {
    GuardContext {
        server_name: "test-server".to_string(),
        identity: None,
        metadata: "{}".to_string(),
    }
}

#[test]
fn test_detects_email() {
    let config = PiiDetectionConfig {
        pii_types: vec![PiiType::EmailAddress],
        confidence_threshold: 800,
        scan_fields: vec![ScanField::Description],
        action: PiiAction::Block,
    };

    let detector = PiiDetector::new(config).unwrap();
    let context = create_test_context();

    let tool_with_email =
        create_test_tool("email_tool", Some("Contact us at support@example.com for help"));

    let result = detector.evaluate_tools_list(&vec![tool_with_email], &context);
    assert!(matches!(result, Ok(GuardDecision::Deny(_))));
}

#[test]
fn test_detects_phone_number() {
    let config = PiiDetectionConfig {
        pii_types: vec![PiiType::PhoneNumber],
        confidence_threshold: 700,
        scan_fields: vec![ScanField::Description],
        action: PiiAction::Block,
    };

    let detector = PiiDetector::new(config).unwrap();
    let context = create_test_context();

    let tool_with_phone = create_test_tool("phone_tool", Some("Call 555-123-4567 for support"));

    let result = detector.evaluate_tools_list(&vec![tool_with_phone], &context);
    assert!(matches!(result, Ok(GuardDecision::Deny(_))));
}

#[test]
fn test_detects_ssn() {
    let config = PiiDetectionConfig {
        pii_types: vec![PiiType::SocialSecurityNumber],
        confidence_threshold: 900,
        scan_fields: vec![ScanField::Description],
        action: PiiAction::Block,
    };

    let detector = PiiDetector::new(config).unwrap();
    let context = create_test_context();

    let tool_with_ssn = create_test_tool("ssn_tool", Some("SSN: 123-45-6789"));

    let result = detector.evaluate_tools_list(&vec![tool_with_ssn], &context);
    assert!(matches!(result, Ok(GuardDecision::Deny(_))));
}

#[test]
fn test_allows_clean_tools() {
    let config = PiiDetectionConfig {
        pii_types: vec![
            PiiType::EmailAddress,
            PiiType::PhoneNumber,
            PiiType::SocialSecurityNumber,
        ],
        confidence_threshold: 800,
        scan_fields: vec![ScanField::Name, ScanField::Description],
        action: PiiAction::Block,
    };

    let detector = PiiDetector::new(config).unwrap();
    let context = create_test_context();

    let clean_tool = create_test_tool("file_reader", Some("Reads files from the local filesystem"));

    let result = detector.evaluate_tools_list(&vec![clean_tool], &context);
    assert!(matches!(result, Ok(GuardDecision::Allow)));
}

#[test]
fn test_warn_action() {
    let config = PiiDetectionConfig {
        pii_types: vec![PiiType::EmailAddress],
        confidence_threshold: 800,
        scan_fields: vec![ScanField::Description],
        action: PiiAction::Warn,
    };

    let detector = PiiDetector::new(config).unwrap();
    let context = create_test_context();

    let tool_with_email = create_test_tool("email_tool", Some("Email: test@example.com"));

    let result = detector.evaluate_tools_list(&vec![tool_with_email], &context);
    assert!(matches!(result, Ok(GuardDecision::Allow)));
}

#[test]
fn test_confidence_threshold() {
    let config = PiiDetectionConfig {
        pii_types: vec![PiiType::IpAddress],
        confidence_threshold: 750,
        scan_fields: vec![ScanField::Description],
        action: PiiAction::Block,
    };

    let detector = PiiDetector::new(config).unwrap();
    let context = create_test_context();

    let tool_with_ip = create_test_tool("ip_tool", Some("Server IP: 192.168.1.1"));

    let result = detector.evaluate_tools_list(&vec![tool_with_ip], &context);
    assert!(matches!(result, Ok(GuardDecision::Allow)));
}

#[test]
fn detector_defaults() {
    assert_eq!(
        default_pii_types(),
        vec![
            PiiType::EmailAddress,
            PiiType::PhoneNumber,
            PiiType::SocialSecurityNumber,
            PiiType::CreditCardNumber
        ]
    );
    assert_eq!(default_confidence_threshold(), 800);
    assert_eq!(default_scan_fields(), vec![ScanField::Description, ScanField::InputSchema]);
    assert_eq!(default_action(), PiiAction::Block);
    let all = vec![
        PiiType::EmailAddress,
        PiiType::PhoneNumber,
        PiiType::SocialSecurityNumber,
        PiiType::CreditCardNumber,
        PiiType::IpAddress,
        PiiType::PhysicalAddress,
    ];
    let confidences: Vec<u32> = all.iter().map(|t| t.base_confidence()).collect();
    assert_eq!(confidences, vec![900, 800, 950, 750, 700, 650]);
    assert_eq!(PiiType::IpAddress.kind_name(), "IpAddress");
    let patterns: Result<_, GuardError> = build_pii_patterns(&all);
    assert_eq!(patterns.unwrap().len(), 6);
}

#[test]
fn values_are_redacted() {
    assert_eq!(redact_pii("support@example.com", &PiiType::EmailAddress), "s***@example.com");
    assert_eq!(redact_pii("a@b@c", &PiiType::EmailAddress), "a***@b@c");
    assert_eq!(redact_pii("@x.org", &PiiType::EmailAddress), "@***@x.org");
    assert_eq!(redact_pii("\u{e9}t\u{e9}@x.org", &PiiType::EmailAddress), "***@x.org");
    assert_eq!(redact_pii("no at sign", &PiiType::EmailAddress), "[REDACTED_EMAIL]");
    assert_eq!(redact_pii("", &PiiType::EmailAddress), "[REDACTED_EMAIL]");
    assert_eq!(redact_pii("(555) 123-4567", &PiiType::PhoneNumber), "***-***-4567");
    assert_eq!(redact_pii("12-3", &PiiType::PhoneNumber), "[REDACTED_PHONE]");
    assert_eq!(redact_pii("123-45-6789", &PiiType::SocialSecurityNumber), "***-**-****");
    assert_eq!(
        redact_pii("4111 1111 1111 1234", &PiiType::CreditCardNumber),
        "****-****-****-1234"
    );
    assert_eq!(redact_pii("4 1 1", &PiiType::CreditCardNumber), "[REDACTED_CC]");
    assert_eq!(redact_pii("192.168.1.17", &PiiType::IpAddress), "***.***.***.17");
    assert_eq!(redact_pii("192.168.1.", &PiiType::IpAddress), "***.***.***.");
    assert_eq!(redact_pii("192.168.1", &PiiType::IpAddress), "[REDACTED_IP]");
    assert_eq!(redact_pii("1.2.3.4.5", &PiiType::IpAddress), "[REDACTED_IP]");
    assert_eq!(redact_pii("12 Main Street", &PiiType::PhysicalAddress), "[REDACTED_ADDRESS]");
}

#[test]
fn denial_reports_redacted_findings() {
    let config = PiiDetectionConfig {
        pii_types: vec![PiiType::IpAddress, PiiType::EmailAddress, PiiType::PhysicalAddress],
        confidence_threshold: 700,
        scan_fields: vec![ScanField::Name, ScanField::Description, ScanField::InputSchema],
        action: PiiAction::Block,
    };
    let detector = PiiDetector::new(config).unwrap();
    let tools = vec![
        Tool::new("clean", None, "{}"),
        Tool::new(
            "mailer",
            Some("Write to ops@example.com at 12 Main Street, host 10.0.0.7 or 10.0.0.8"),
            "{\"default\":\"root@example.org\"}",
        ),
    ];
    let found = detector.scan_tool(&tools[1]);
    let seen: Vec<(PiiType, &str, &str, u32)> = found
        .iter()
        .map(|d| (d.pii_type, d.field.as_str(), d.matched_text.as_str(), d.confidence))
        .collect();
    assert_eq!(
        seen,
        vec![
            (PiiType::IpAddress, "tool.description", "***.***.***.7", 700),
            (PiiType::EmailAddress, "tool.description", "o***@example.com", 900),
            (PiiType::PhysicalAddress, "tool.description", "[REDACTED_ADDRESS]", 650),
            (PiiType::EmailAddress, "tool.input_schema", "r***@example.org", 900),
        ]
    );
    match detector.evaluate_tools_list(&tools, &create_test_context()) {
        Ok(GuardDecision::Deny(reason)) => {
            assert_eq!(reason.code, "pii_detected");
            // The address is below the threshold and does not count.
            assert_eq!(reason.message, "Detected 3 PII field(s) in MCP server response");
            let details = reason.details.unwrap();
            assert_eq!(
                details.get("threshold"),
                Some(&Json::Number(JsonNumber::Real("0.700".to_string())))
            );
            let detections = details.get("detections").unwrap().as_array().unwrap();
            assert_eq!(detections.len(), 3);
            assert_eq!(detections[0].get("type").unwrap().as_str(), Some("IpAddress"));
            assert_eq!(detections[0].get("field").unwrap().as_str(), Some("tool.description"));
            assert_eq!(
                detections[1].get("redacted_value").unwrap().as_str(),
                Some("o***@example.com")
            );
            assert_eq!(
                detections[2].get("confidence"),
                Some(&Json::Number(JsonNumber::Real("0.900".to_string())))
            );
        },
        other => panic!("expected a denial, got {:?}", other),
    }
}
