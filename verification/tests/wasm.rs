use mcp_guards::decision::{DenyReason, GuardDecision, GuardError, ModifyAction};
use mcp_guards::json::Json;
use mcp_guards::wasm::{
    default_max_wasm_stack, log_level, GuestVerdict, LogLevel, ModuleLoad, WasmGuard,
    WasmGuardConfig, WitValue, GUARD_INTERFACE, HOST_INTERFACE, NATIVE_STACK_BYTES,
};

fn text(s: &str) -> WitValue {
    WitValue::Text(s.to_string())
}

fn boxed(v: WitValue) -> Option<Box<WitValue>> {
    Some(Box::new(v))
}

fn ok(decision: WitValue) -> Vec<WitValue> {
    vec![WitValue::Outcome(Ok(boxed(decision)))]
}

fn variant(name: &str, payload: Option<WitValue>) -> WitValue {
    WitValue::Variant(name.to_string(), payload.map(Box::new))
}

fn wasm_error(m: &str) -> GuardError {
    GuardError::WasmError(m.to_string())
}

fn loaded(timeout_ms: u64, config: Vec<(&str, &str)>) -> WasmGuard {
    WasmGuard::new(
        "g".to_string(),
        WasmGuardConfig {
            component_path: "./guards/test.wasm".to_string(),
            max_memory: 5242880,
            max_wasm_stack: default_max_wasm_stack(),
            timeout_ms,
            config: config.into_iter().map(|(k, v)| (k.to_string(), v.to_string())).collect(),
        },
        ModuleLoad::Loaded,
    )
    .unwrap()
}

#[test]
fn test_wasm_config_validation() {
    let invalid_config = WasmGuardConfig {
        component_path: String::new(),
        max_memory: 1024 * 1024,
        max_wasm_stack: default_max_wasm_stack(),
        timeout_ms: 100,
        config: vec![],
    };

    let result = WasmGuard::new("test".to_string(), invalid_config, ModuleLoad::Loaded);
    assert!(result.is_err());

    let valid_config = WasmGuardConfig {
        component_path: "/path/to/probe.wasm".to_string(),
        max_memory: 10 * 1024 * 1024,
        max_wasm_stack: default_max_wasm_stack(),
        timeout_ms: 100,
        config: vec![],
    };

    // File doesn't exist, so this should also error
    let result = WasmGuard::new(
        "test".to_string(),
        valid_config,
        ModuleLoad::NotFound("/path/to/probe.wasm".to_string()),
    );
    assert!(result.is_err());
}

#[test]
fn each_load_outcome_has_its_error() {
    let config = |path: &str| WasmGuardConfig {
        component_path: path.to_string(),
        max_memory: 1,
        max_wasm_stack: 1,
        timeout_ms: 1,
        config: vec![],
    };
    let err = |path: &str, load: ModuleLoad| match WasmGuard::new("g".to_string(), config(path), load) {
        Err(e) => e,
        Ok(_) => panic!("expected an error"),
    };
    // An empty path is found first, whatever the host says of loading.
    assert_eq!(
        err("", ModuleLoad::CompileFailed("x".to_string())),
        GuardError::ConfigError("module_path cannot be empty".to_string())
    );
    assert_eq!(
        err("~x", ModuleLoad::ExpandFailed("no home".to_string())),
        GuardError::ConfigError("Failed to expand path: no home".to_string())
    );
    assert_eq!(
        err("p", ModuleLoad::NotFound("/abs/p".to_string())),
        GuardError::ConfigError("WASM module not found: /abs/p".to_string())
    );
    assert_eq!(
        err("p", ModuleLoad::EngineFailed("e".to_string())),
        wasm_error("Failed to create wasmtime engine: e")
    );
    assert_eq!(
        err("p", ModuleLoad::CompileFailed("bad magic".to_string())),
        wasm_error("Failed to load WASM component: bad magic")
    );
    assert_eq!(loaded(1, vec![]).id(), "g");
}

#[test]
fn host_interface() {
    assert_eq!(NATIVE_STACK_BYTES, 8 * 1024 * 1024);
    assert_eq!(HOST_INTERFACE, "mcp:security-guard/host@0.1.0");
    assert_eq!(GUARD_INTERFACE, "mcp:security-guard/guard@0.1.0");
    assert_eq!(log_level(0), LogLevel::Trace);
    assert_eq!(log_level(1), LogLevel::Debug);
    assert_eq!(log_level(2), LogLevel::Info);
    assert_eq!(log_level(3), LogLevel::Warn);
    assert_eq!(log_level(4), LogLevel::Error);
    assert_eq!(log_level(5), LogLevel::Info);
    assert_eq!(log_level(255), LogLevel::Info);

    let g = loaded(100, vec![("blocked", "[\"delete\"]"), ("mode", "\"strict\""), ("blocked", "[]")]);
    assert_eq!(g.get_config("blocked"), "[\"delete\"]");
    assert_eq!(g.get_config("mode"), "\"strict\"");
    assert_eq!(g.get_config("missing"), "");
    assert!(!g.execute_with_timeout(100));
    assert!(g.execute_with_timeout(101));
}

#[test]
fn string_calls() {
    let g = loaded(100, vec![]);
    let call = g.get_settings_schema();
    assert_eq!(call.function, "get-settings-schema");
    assert_eq!(call.guard_id, "g");
    assert!(call.args.is_empty());
    assert_eq!(call.timeout_ms, 100);
    assert_eq!(g.get_default_config().function, "get-default-config");
    assert_eq!(g.call_string_func("other").function, "other");

    assert_eq!(WasmGuard::parse_string(&vec![text("{}")], "f"), Ok("{}".to_string()));
    assert_eq!(
        WasmGuard::parse_string(&vec![WitValue::Flag(false)], "get-settings-schema"),
        Err(wasm_error("Expected string from get-settings-schema"))
    );
    assert_eq!(WasmGuard::parse_string(&vec![], "f"), Err(wasm_error("Expected string from f")));
}

fn decision(result: &Vec<WitValue>, parsed: Option<Json>) -> Result<GuardDecision, GuardError> {
    WasmGuard::parse_decision(result).map(|v| v.into_decision(parsed))
}

#[test]
fn allow_and_warn_are_allowed() {
    assert_eq!(decision(&ok(variant("allow", None)), None), Ok(GuardDecision::Allow));
    assert_eq!(decision(&vec![WitValue::Outcome(Ok(None))], None), Ok(GuardDecision::Allow));
    let warn = ok(variant(
        "warn",
        Some(WitValue::List(vec![text("first"), WitValue::Flag(true), text("second")])),
    ));
    let verdict = WasmGuard::parse_decision(&warn).unwrap();
    assert_eq!(verdict.warnings(), vec!["first".to_string(), "second".to_string()]);
    assert_eq!(verdict.json_text(), None);
    assert_eq!(verdict.into_decision(None), GuardDecision::Allow);
    assert_eq!(decision(&ok(variant("warn", None)), None), Ok(GuardDecision::Allow));
    assert!(WasmGuard::parse_decision(&ok(variant("allow", None))).unwrap().warnings().is_empty());
}

#[test]
fn deny_reads_the_record() {
    let record = WitValue::Record(vec![
        ("code".to_string(), text("first_code")),
        ("message".to_string(), text("contains delete")),
        ("ignored".to_string(), text("x")),
        ("details".to_string(), WitValue::Maybe(boxed(text("{\"tool\":\"delete_file\"}")))),
        ("code".to_string(), text("pattern_blocked")),
        ("message".to_string(), WitValue::Flag(true)),
    ]);
    let verdict = WasmGuard::parse_decision(&ok(variant("deny", Some(record)))).unwrap();
    assert_eq!(verdict.json_text(), Some("{\"tool\":\"delete_file\"}"));
    let details = Json::Object(vec![("tool".to_string(), Json::text("delete_file"))]);
    assert_eq!(
        verdict.into_decision(Some(details.clone())),
        GuardDecision::Deny(DenyReason {
            code: "pattern_blocked".to_string(),
            message: "contains delete".to_string(),
            details: Some(details),
        })
    );

    // Details that are not JSON are dropped; without details nothing is
    // taken from what was parsed.
    let record = WitValue::Record(vec![(
        "details".to_string(),
        WitValue::Maybe(boxed(text("not json"))),
    )]);
    assert_eq!(
        decision(&ok(variant("deny", Some(record))), None),
        Ok(GuardDecision::Deny(DenyReason {
            code: "wasm_denied".to_string(),
            message: "Denied by WASM guard".to_string(),
            details: None,
        }))
    );
    let record = WitValue::Record(vec![("details".to_string(), WitValue::Maybe(None))]);
    assert_eq!(
        decision(&ok(variant("deny", Some(record))), Some(Json::Null)),
        Ok(GuardDecision::Deny(DenyReason {
            code: "wasm_denied".to_string(),
            message: "Denied by WASM guard".to_string(),
            details: None,
        }))
    );
    assert_eq!(
        decision(&ok(variant("deny", None)), None),
        Ok(GuardDecision::Deny(DenyReason {
            code: "wasm_denied".to_string(),
            message: "Denied by WASM guard".to_string(),
            details: None,
        }))
    );
    assert_eq!(
        decision(&ok(variant("deny", Some(text("reason")))), None),
        Err(wasm_error("Expected record for deny reason"))
    );
}

#[test]
fn modify_replaces_the_payload() {
    let modify = ok(variant("modify", Some(text("{\"a\":1}"))));
    let verdict = WasmGuard::parse_decision(&modify).unwrap();
    assert_eq!(verdict.json_text(), Some("{\"a\":1}"));
    let parsed = Json::Object(vec![("a".to_string(), Json::unsigned(1))]);
    assert_eq!(
        verdict.into_decision(Some(parsed.clone())),
        GuardDecision::Modify(ModifyAction::Transform(parsed))
    );
    // A payload that is not JSON, or none, gives null.
    assert_eq!(
        decision(&modify, None),
        Ok(GuardDecision::Modify(ModifyAction::Transform(Json::Null)))
    );
    assert_eq!(
        decision(&ok(variant("modify", None)), Some(Json::Bool(true))),
        Ok(GuardDecision::Modify(ModifyAction::Transform(Json::Null)))
    );
    assert_eq!(
        decision(&ok(variant("modify", Some(WitValue::Flag(true)))), None),
        Ok(GuardDecision::Modify(ModifyAction::Transform(Json::Null)))
    );
}

#[test]
fn malformed_answers_are_errors() {
    assert_eq!(decision(&vec![], None), Err(wasm_error("Empty result from WASM guard")));
    assert_eq!(
        decision(&vec![WitValue::Flag(false)], None),
        Err(wasm_error("Unexpected return type from WASM guard"))
    );
    assert_eq!(
        decision(&vec![WitValue::Outcome(Err(boxed(text("guest failed"))))], None),
        Err(wasm_error("guest failed"))
    );
    assert_eq!(
        decision(&vec![WitValue::Outcome(Err(boxed(WitValue::Other)))], None),
        Err(wasm_error("Unknown error from WASM guard"))
    );
    assert_eq!(
        decision(&vec![WitValue::Outcome(Err(None))], None),
        Err(wasm_error("Unknown error from WASM guard"))
    );
    assert_eq!(
        decision(&ok(variant("block", None)), None),
        Err(wasm_error("Unknown decision variant: block"))
    );
    assert_eq!(
        decision(&ok(text("allow")), None),
        Err(wasm_error("Expected variant from WASM guard"))
    );
    assert!(matches!(WasmGuard::parse_deny_reason(&WitValue::Other), Err(_)));
    assert!(matches!(
        WasmGuard::parse_decision_variant(&variant("allow", None)),
        Ok(GuestVerdict::Allow)
    ));
}
