use mcp_guards::decision::{GuardContext, GuardDecision, ModifyAction};
use mcp_guards::json::{Json, JsonNumber};
use mcp_guards::native::pii_guard::{PiiAction, PiiGuard, PiiGuardConfig};
use mcp_guards::pii::{PiiType, RecognizerResult};
use mcp_guards::tool::Tool;

fn create_test_context() -> GuardContext {
    GuardContext {
        server_name: "test-server".to_string(),
        identity: None,
        metadata: "{}".to_string(),
    }
}

fn to_json(v: &serde_json::Value) -> Json {
    match v {
        serde_json::Value::Null => Json::Null,
        serde_json::Value::Bool(b) => Json::Bool(*b),
        serde_json::Value::Number(n) => {
            if let Some(u) = n.as_u64() {
                Json::Number(JsonNumber::Unsigned(u))
            } else if let Some(i) = n.as_i64() {
                Json::Number(JsonNumber::Signed(i))
            } else {
                Json::Number(JsonNumber::Real(n.to_string()))
            }
        },
        serde_json::Value::String(s) => Json::Str(s.clone()),
        serde_json::Value::Array(a) => Json::Array(a.iter().map(to_json).collect()),
        serde_json::Value::Object(m) => {
            Json::Object(m.iter().map(|(k, v)| (k.clone(), to_json(v))).collect())
        },
    }
}

fn json(text: &str) -> Json {
    to_json(&serde_json::from_str::<serde_json::Value>(text).unwrap())
}

fn text_at<'a>(value: &'a Json, path: &[&str]) -> &'a str {
    let mut v = value;
    for key in path {
        v = match key.parse::<usize>() {
            Ok(i) if v.as_array().is_some() => v.at(i).unwrap(),
            _ => v.get(key).unwrap(),
        };
    }
    v.as_str().unwrap()
}

fn guard(detect: Vec<PiiType>, action: PiiAction, min_score: u32, message: Option<&str>) -> PiiGuard {
    PiiGuard::new(PiiGuardConfig {
        detect,
        action,
        min_score,
        rejection_message: message.map(|m| m.to_string()),
    })
}

#[test]
fn test_mask_email_in_json() {
    let guard = guard(vec![PiiType::Email], PiiAction::Mask, 0, None);
    let context = create_test_context();

    let request = json(
        r#"{
            "message": "Contact me at test@example.com",
            "nested": {
                "email": "another@test.org"
            }
        }"#,
    );

    let result = guard.evaluate_request(&request, &context);

    match result {
        Ok(GuardDecision::Modify(ModifyAction::Transform(masked))) => {
            let msg = text_at(&masked, &["message"]);
            assert!(msg.contains("<EMAIL_ADDRESS>"), "Expected masked email in message: {}", msg);
            assert!(!msg.contains("test@example.com"), "Expected email to be removed: {}", msg);

            let nested_email = text_at(&masked, &["nested", "email"]);
            assert!(
                nested_email.contains("<EMAIL_ADDRESS>"),
                "Expected masked email in nested: {}",
                nested_email
            );
        },
        other => panic!("Expected Modify decision, got {:?}", other),
    }
}

#[test]
fn test_reject_on_ssn() {
    let guard = guard(vec![PiiType::Ssn], PiiAction::Reject, 0, Some("SSN data not allowed"));
    let context = create_test_context();

    let request = json(r#"{"data": "My SSN is 123-45-6789"}"#);

    let result = guard.evaluate_request(&request, &context);

    match result {
        Ok(GuardDecision::Deny(reason)) => {
            assert_eq!(reason.code, "pii_detected");
            assert!(reason.message.contains("SSN data not allowed"));
        },
        other => panic!("Expected Deny decision, got {:?}", other),
    }
}

#[test]
fn test_allow_clean_request() {
    let guard = guard(
        vec![PiiType::Email, PiiType::PhoneNumber, PiiType::Ssn],
        PiiAction::Reject,
        0,
        None,
    );
    let context = create_test_context();

    let request = json(r#"{"query": "What is the weather today?", "location": "New York"}"#);

    let result = guard.evaluate_request(&request, &context);
    assert!(matches!(result, Ok(GuardDecision::Allow)));
}

#[test]
fn test_multiple_pii_types() {
    let guard = guard(vec![PiiType::Email, PiiType::PhoneNumber], PiiAction::Mask, 0, None);
    let context = create_test_context();

    let request = json(r#"{"email": "test@example.com", "phone": "(555) 123-4567"}"#);

    let result = guard.evaluate_request(&request, &context);

    match result {
        Ok(GuardDecision::Modify(ModifyAction::Transform(masked))) => {
            assert!(text_at(&masked, &["email"]).contains("<EMAIL_ADDRESS>"));
            assert!(text_at(&masked, &["phone"]).contains("<PHONE_NUMBER>"));
        },
        other => panic!("Expected Modify decision, got {:?}", other),
    }
}

#[test]
fn test_min_score_filtering() {
    let guard = guard(vec![PiiType::Ssn], PiiAction::Reject, 600, None);
    let context = create_test_context();

    let request = json(r#"{"data": "ID: 123456789"}"#);

    let result = guard.evaluate_request(&request, &context);
    assert!(matches!(result, Ok(GuardDecision::Allow)));
}

#[test]
fn pii_guard_test_default_config() {
    let config = PiiGuardConfig::default();
    assert_eq!(config.detect.len(), 6);
    assert_eq!(config.action, PiiAction::Mask);
    assert_eq!(config.min_score, 300);
    assert!(config.rejection_message.is_none());
}

#[test]
fn test_credit_card_detection() {
    let guard =
        guard(vec![PiiType::CreditCard], PiiAction::Reject, 0, Some("Credit card not allowed"));
    let context = create_test_context();

    let test_cases = vec![
        ("4111111111111111", true),
        ("4111 1111 1111 1111", true),
        ("4111-1111-1111-1111", true),
        ("5500000000000004", true),
        ("371449635398431", true),
        ("6011111111111117", true),
        ("1234567890", false),
        ("hello world", false),
    ];

    for (card, should_detect) in test_cases {
        let request = Json::Object(vec![("card_number".to_string(), Json::Str(card.to_string()))]);

        let result = guard.evaluate_request(&request, &context);

        if should_detect {
            assert!(
                matches!(result, Ok(GuardDecision::Deny(_))),
                "Expected credit card '{}' to be detected and rejected, got {:?}",
                card,
                result
            );
        } else {
            assert!(
                matches!(result, Ok(GuardDecision::Allow)),
                "Expected '{}' to be allowed (no credit card), got {:?}",
                card,
                result
            );
        }
    }
}

#[test]
fn test_array_scanning() {
    let guard = guard(vec![PiiType::Email], PiiAction::Mask, 0, None);
    let context = create_test_context();

    let request = json(
        r#"{"contacts": [{"email": "first@example.com"}, {"email": "second@example.com"}]}"#,
    );

    let result = guard.evaluate_request(&request, &context);

    match result {
        Ok(GuardDecision::Modify(ModifyAction::Transform(masked))) => {
            let contacts = masked.get("contacts").unwrap().as_array().unwrap();
            assert_eq!(contacts.len(), 2);
            for contact in contacts {
                let email = contact.get("email").unwrap().as_str().unwrap();
                assert!(email.contains("<EMAIL_ADDRESS>"));
            }
        },
        other => panic!("Expected Modify decision, got {:?}", other),
    }
}

#[test]
fn test_url_detection() {
    let guard = guard(vec![PiiType::Url], PiiAction::Mask, 0, None);
    let context = create_test_context();

    let test_cases = vec![
        ("https://example.com/path", true),
        ("http://api.service.io/v1/data", true),
        ("https://subdomain.example.org:8080/path?query=1", true),
        ("just some text", false),
        ("not a url at all", false),
    ];

    for (url, should_detect) in test_cases {
        let request = Json::Object(vec![("link".to_string(), Json::Str(url.to_string()))]);

        let result = guard.evaluate_request(&request, &context);

        if should_detect {
            assert!(
                matches!(result, Ok(GuardDecision::Modify(_))),
                "Expected URL '{}' to be detected and masked, got {:?}",
                url,
                result
            );
        } else {
            assert!(
                matches!(result, Ok(GuardDecision::Allow)),
                "Expected '{}' to be allowed (no URL), got {:?}",
                url,
                result
            );
        }
    }
}

#[test]
fn test_phone_number_formats() {
    let guard =
        guard(vec![PiiType::PhoneNumber], PiiAction::Reject, 0, Some("Phone numbers not allowed"));
    let context = create_test_context();

    let test_cases = vec![
        ("(123) 456-7890", true),
        ("555-123-4567", true),
        ("+1-800-555-1234", true),
        ("555.123.4567", true),
        ("12345", false),
        ("hello world", false),
    ];

    for (phone, should_detect) in test_cases {
        let request = Json::Object(vec![("contact".to_string(), Json::Str(phone.to_string()))]);

        let result = guard.evaluate_request(&request, &context);

        if should_detect {
            assert!(
                matches!(result, Ok(GuardDecision::Deny(_))),
                "Expected phone '{}' to be detected and rejected, got {:?}",
                phone,
                result
            );
        } else {
            assert!(
                matches!(result, Ok(GuardDecision::Allow)),
                "Expected '{}' to be allowed (no phone), got {:?}",
                phone,
                result
            );
        }
    }
}

#[test]
fn test_canadian_sin_detection() {
    let guard = guard(vec![PiiType::CaSin], PiiAction::Reject, 0, Some("Canadian SIN not allowed"));
    let context = create_test_context();

    let test_cases = vec![
        ("046-454-286", true),
        ("046 454 286", true),
        ("046454286", true),
        ("12345", false),
        ("hello world", false),
    ];

    for (sin, should_detect) in test_cases {
        let request = Json::Object(vec![("id".to_string(), Json::Str(sin.to_string()))]);

        let result = guard.evaluate_request(&request, &context);

        if should_detect {
            assert!(
                matches!(result, Ok(GuardDecision::Deny(_))),
                "Expected SIN '{}' to be detected and rejected, got {:?}",
                sin,
                result
            );
        } else {
            assert!(
                matches!(result, Ok(GuardDecision::Allow)),
                "Expected '{}' to be allowed (no SIN), got {:?}",
                sin,
                result
            );
        }
    }
}

#[test]
fn test_tool_invoke_evaluation() {
    let guard = guard(vec![PiiType::Email, PiiType::Ssn], PiiAction::Mask, 0, None);
    let context = create_test_context();

    let arguments = json(
        r#"{"user_email": "john.doe@company.com", "ssn": "123-45-6789", "query": "find user data"}"#,
    );

    let result = guard.evaluate_tool_invoke("search_tool", &arguments, &context);

    match result {
        Ok(GuardDecision::Modify(ModifyAction::Transform(masked))) => {
            assert!(
                text_at(&masked, &["user_email"]).contains("<EMAIL_ADDRESS>"),
                "Expected email to be masked"
            );
            assert!(text_at(&masked, &["ssn"]).contains("<SSN>"), "Expected SSN to be masked");
            assert_eq!(
                text_at(&masked, &["query"]),
                "find user data",
                "Non-PII field should not be modified"
            );
        },
        other => panic!("Expected Modify decision, got {:?}", other),
    }
}

#[test]
fn test_tool_invoke_rejection() {
    let guard = guard(
        vec![PiiType::CreditCard],
        PiiAction::Reject,
        0,
        Some("Credit card data not allowed in tool calls"),
    );
    let context = create_test_context();

    let arguments = json(r#"{"payment_info": "4111111111111111"}"#);

    let result = guard.evaluate_tool_invoke("process_payment", &arguments, &context);

    match result {
        Ok(GuardDecision::Deny(reason)) => {
            assert_eq!(reason.code, "pii_detected");
            assert!(reason.message.contains("Credit card data not allowed"));
        },
        other => panic!("Expected Deny decision, got {:?}", other),
    }
}

#[test]
fn test_response_evaluation() {
    let guard = guard(vec![PiiType::Email, PiiType::PhoneNumber], PiiAction::Mask, 0, None);
    let context = create_test_context();

    let response = json(
        r#"{
            "result": {
                "users": [
                    {"name": "John", "email": "john@example.com", "phone": "(555) 111-2222"},
                    {"name": "Jane", "email": "jane@example.com", "phone": "(555) 333-4444"}
                ]
            }
        }"#,
    );

    let result = guard.evaluate_response(&response, &context);

    match result {
        Ok(GuardDecision::Modify(ModifyAction::Transform(masked))) => {
            let users = masked.get("result").unwrap().get("users").unwrap().as_array().unwrap();
            assert_eq!(users.len(), 2);
            for user in users {
                assert!(
                    user.get("email").unwrap().as_str().unwrap().contains("<EMAIL_ADDRESS>"),
                    "Expected email to be masked in response"
                );
                assert!(
                    user.get("phone").unwrap().as_str().unwrap().contains("<PHONE_NUMBER>"),
                    "Expected phone to be masked in response"
                );
            }
        },
        other => panic!("Expected Modify decision, got {:?}", other),
    }
}

#[test]
fn test_tools_list_pii_in_description_reject() {
    let guard = guard(vec![PiiType::Email], PiiAction::Reject, 0, None);
    let context = create_test_context();

    let tool_with_pii = Tool::new(
        "email_tool",
        Some("Contact support at admin@internal.company.com for help"),
        "{\"type\":\"object\"}",
    );

    let result = guard.evaluate_tools_list(&vec![tool_with_pii], &context);

    match result {
        Ok(GuardDecision::Deny(reason)) => {
            assert_eq!(reason.code, "pii_in_tool_description");
            assert!(reason.message.contains("email_tool"));
        },
        other => panic!("Expected Deny decision, got {:?}", other),
    }
}

#[test]
fn test_tools_list_clean_descriptions() {
    let guard = guard(
        vec![PiiType::Email, PiiType::PhoneNumber, PiiType::Ssn],
        PiiAction::Reject,
        0,
        None,
    );
    let context = create_test_context();

    let clean_tool = Tool::new(
        "file_reader",
        Some("Reads files from the local filesystem"),
        "{\"type\":\"object\"}",
    );

    let result = guard.evaluate_tools_list(&vec![clean_tool], &context);
    assert!(matches!(result, Ok(GuardDecision::Allow)));
}

#[test]
fn test_deeply_nested_pii() {
    let guard = guard(vec![PiiType::Email], PiiAction::Mask, 0, None);
    let context = create_test_context();

    let request = json(
        r#"{"level1": {"level2": {"level3": {"level4": {"email": "deeply@nested.com"}}}}}"#,
    );

    let result = guard.evaluate_request(&request, &context);

    match result {
        Ok(GuardDecision::Modify(ModifyAction::Transform(masked))) => {
            let email = text_at(&masked, &["level1", "level2", "level3", "level4", "email"]);
            assert!(
                email.contains("<EMAIL_ADDRESS>"),
                "Expected deeply nested email to be masked: {}",
                email
            );
        },
        other => panic!("Expected Modify decision, got {:?}", other),
    }
}

#[test]
fn test_mixed_pii_types_in_single_field() {
    let guard = guard(vec![PiiType::Email, PiiType::PhoneNumber], PiiAction::Mask, 0, None);
    let context = create_test_context();

    let request = json(r#"{"message": "Contact me at user@example.com or call (555) 123-4567"}"#);

    let result = guard.evaluate_request(&request, &context);

    match result {
        Ok(GuardDecision::Modify(ModifyAction::Transform(masked))) => {
            let msg = text_at(&masked, &["message"]);
            assert!(msg.contains("<EMAIL_ADDRESS>"), "Expected email to be masked: {}", msg);
            assert!(msg.contains("<PHONE_NUMBER>"), "Expected phone to be masked: {}", msg);
            assert!(!msg.contains("user@example.com"), "Original email should be removed: {}", msg);
            assert!(!msg.contains("(555) 123-4567"), "Original phone should be removed: {}", msg);
            assert_eq!(msg, "Contact me at <EMAIL_ADDRESS> or call <PHONE_NUMBER>");
        },
        other => panic!("Expected Modify decision, got {:?}", other),
    }
}

fn result(entity_type: PiiType, start: usize, end: usize) -> RecognizerResult {
    RecognizerResult { entity_type, start, end, score: 500 }
}

#[test]
fn mask_text_replaces_each_span_by_its_placeholder() {
    let text = "mail a@b.co card 4111111111111111 end";
    let results = vec![result(PiiType::CreditCard, 17, 33), result(PiiType::Email, 5, 11)];
    assert_eq!(PiiGuard::mask_text(text, &results), "mail <EMAIL_ADDRESS> card <CREDIT_CARD> end");
    assert_eq!(PiiGuard::mask_text(text, &vec![]), text);
}

#[test]
fn mask_text_first_of_overlapping_results_wins() {
    let text = "0123456789";
    // In descending order of start: the second overlaps the first and is
    // dropped, the third touches the first and stays.
    let results = vec![
        result(PiiType::Url, 5, 8),
        result(PiiType::Email, 4, 6),
        result(PiiType::Ssn, 2, 5),
    ];
    assert_eq!(PiiGuard::mask_text(text, &results), "01<SSN><URL>89");
}

#[test]
fn mask_text_discards_results_that_do_not_fit() {
    let text = "h\u{e9}llo w\u{f6}rld";
    // Out of range, inside a character, empty, and reversed.
    let results = vec![
        result(PiiType::Email, 10, 40),
        result(PiiType::Email, 9, 11),
        result(PiiType::Email, 4, 4),
        result(PiiType::Email, 3, 2),
        result(PiiType::Email, 2, 5),
    ];
    assert_eq!(PiiGuard::mask_text(text, &results), text);
    // On character boundaries the span is masked, whatever it holds.
    let results = vec![result(PiiType::Url, 7, 13), result(PiiType::Email, 1, 3)];
    assert_eq!(PiiGuard::mask_text(text, &results), "h<EMAIL_ADDRESS>llo <URL>");
}

#[test]
fn scan_text_sorts_by_descending_start_and_filters_by_score() {
    let g = guard(vec![PiiType::Ssn, PiiType::Email], PiiAction::Mask, 100, None);
    let found = g.scan_text("ssn 123-45-6789, mail x@y.org, id 123456789");
    let spans: Vec<(PiiType, usize, usize, u32)> =
        found.iter().map(|r| (r.entity_type, r.start, r.end, r.score)).collect();
    // The weak nine-digit pattern scores 50 and is filtered out.
    assert_eq!(spans, vec![(PiiType::Email, 22, 29, 500), (PiiType::Ssn, 4, 15, 500)]);

    let g = guard(vec![PiiType::Ssn, PiiType::Email], PiiAction::Mask, 0, None);
    let found = g.scan_text("ssn 123-45-6789, mail x@y.org, id 123456789");
    let spans: Vec<(usize, u32)> = found.iter().map(|r| (r.start, r.score)).collect();
    assert_eq!(spans, vec![(34, 50), (22, 500), (4, 500)]);
}

#[test]
fn rejection_lists_detections_with_path_and_score() {
    let g = guard(vec![PiiType::Email, PiiType::CreditCard], PiiAction::Reject, 0, None);
    let request = json(
        r#"{"users": [{"mail": "a@b.org"}, {"mail": "nothing", "card": "4111111111111111"}]}"#,
    );
    match g.evaluate_request(&request, &create_test_context()) {
        Ok(GuardDecision::Deny(reason)) => {
            assert_eq!(reason.code, "pii_detected");
            assert_eq!(reason.message, "Request rejected: 2 PII item(s) detected");
            let details = reason.details.unwrap();
            let detections = details.get("detections").unwrap().as_array().unwrap();
            assert_eq!(detections.len(), 2);
            let paths: Vec<&str> =
                detections.iter().map(|d| d.get("path").unwrap().as_str().unwrap()).collect();
            assert!(paths.contains(&"users.0.mail"));
            assert!(paths.contains(&"users.1.card"));
            for d in detections {
                let path = d.get("path").unwrap().as_str().unwrap();
                let kind = d.get("type").unwrap().as_str().unwrap();
                let score = d.get("score").unwrap();
                if path == "users.0.mail" {
                    assert_eq!(kind, "EMAIL_ADDRESS");
                    assert_eq!(score, &Json::Number(JsonNumber::Real("0.500".to_string())));
                } else {
                    assert_eq!(kind, "CREDIT_CARD");
                    assert_eq!(score, &Json::Number(JsonNumber::Real("1.000".to_string())));
                }
            }
        },
        other => panic!("expected a denial, got {:?}", other),
    }
}

#[test]
fn masking_is_idempotent_on_concrete_payloads() {
    let g = guard(PiiType::all(), PiiAction::Mask, 0, None);
    let context = create_test_context();
    let payload = json(
        r#"{"a": "mail a@b.org, card 4111 1111 1111 1111", "b": [1, true, null, "https://x.io/y"],
            "c": {"ssn": "123-45-6789", "sin": "046 454 286", "tel": "+1-800-555-1234"}}"#,
    );
    let once = g.mask_json_value(&payload);
    assert_ne!(once, payload);
    let twice = g.mask_json_value(&once);
    assert_eq!(twice, once);
    assert!(matches!(g.evaluate_request(&once, &context), Ok(GuardDecision::Allow)));
    assert_eq!(text_at(&once, &["a"]), "mail <EMAIL_ADDRESS>, card <CREDIT_CARD>");
    assert_eq!(text_at(&once, &["c", "ssn"]), "<SSN>");
    assert_eq!(text_at(&once, &["c", "sin"]), "<CA_SIN>");
    assert_eq!(once.get("b").unwrap().at(0), Some(&Json::Number(JsonNumber::Unsigned(1))));
    assert_eq!(once.get("b").unwrap().at(1), Some(&Json::Bool(true)));
    assert_eq!(once.get("b").unwrap().at(2), Some(&Json::Null));
    assert_eq!(text_at(&once, &["b", "3"]), "<URL>");
}

#[test]
fn mask_mode_allows_tools_list_with_pii_in_description() {
    let g = guard(vec![PiiType::Email], PiiAction::Mask, 0, None);
    let tool = Tool::new("t", Some("write to root@example.com"), "{}");
    let result = g.evaluate_tools_list(&vec![tool], &create_test_context());
    assert!(matches!(result, Ok(GuardDecision::Allow)));
}

#[test]
fn reject_names_the_first_tool_with_pii() {
    let g = guard(vec![PiiType::Email], PiiAction::Reject, 0, None);
    let tools = vec![
        Tool::new("clean", Some("nothing here"), "{}"),
        Tool::new("no_description", None, "{}"),
        Tool::new("first", Some("root@example.com"), "{}"),
        Tool::new("second", Some("admin@example.com"), "{}"),
    ];
    match g.evaluate_tools_list(&tools, &create_test_context()) {
        Ok(GuardDecision::Deny(reason)) => {
            assert_eq!(reason.message, "PII detected in tool 'first' description");
            assert!(reason.details.is_none());
        },
        other => panic!("expected a denial, got {:?}", other),
    }
}

#[test]
fn masking_again_can_find_what_an_overlap_hid() {
    // The URL spans the address; the address begins later, is taken first,
    // and the URL that overlaps it is passed over. In the masked text the
    // rest of the URL stands alone and is found.
    let g = guard(vec![PiiType::Email, PiiType::Url], PiiAction::Mask, 0, None);
    let payload = Json::Str("see https://x.io/a@b.org".to_string());
    let once = g.mask_json_value(&payload);
    assert_eq!(once, Json::Str("see https://x.io/<EMAIL_ADDRESS>".to_string()));
    let twice = g.mask_json_value(&once);
    assert_eq!(twice, Json::Str("see <URL><EMAIL_ADDRESS>".to_string()));
    assert_eq!(g.mask_json_value(&twice), twice);
}

#[test]
fn no_score_exceeds_one() {
    let text = "mail a.b@example.com, card 4111111111111111, ssn 123-45-6789, \
                call (555) 123-4567, see https://example.com/x";
    let results = mcp_guards::pii::scan_all(text);
    assert!(!results.is_empty());
    for r in &results {
        assert!(r.score <= 1000, "score {} of {:?}", r.score, r.entity_type);
        assert!(r.start < r.end && r.end <= text.len());
    }
}
