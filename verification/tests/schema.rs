use mcp_guards::json::{Json, JsonNumber};
use mcp_guards::schema::{collect_wasm_schemas_from_config, file_schema, WasmGuardSchema};

fn to_json(v: &serde_json::Value) -> Json {
    match v {
        serde_json::Value::Null => Json::Null,
        serde_json::Value::Bool(b) => Json::Bool(*b),
        serde_json::Value::Number(n) => {
            if let Some(u) = n.as_u64() {
                Json::Number(JsonNumber::Unsigned(u))
            } else if let Some(i) = n.as_i64() {
                Json::Number(JsonNumber::Signed(i))
            } else {
                Json::Number(JsonNumber::Real(n.to_string()))
            }
        },
        serde_json::Value::String(s) => Json::Str(s.clone()),
        serde_json::Value::Array(a) => Json::Array(a.iter().map(to_json).collect()),
        serde_json::Value::Object(m) => {
            Json::Object(m.iter().map(|(k, v)| (k.clone(), to_json(v))).collect())
        },
    }
}

fn json(text: &str) -> Json {
    to_json(&serde_json::from_str::<serde_json::Value>(text).unwrap())
}

#[test]
fn guards_that_run_as_components_are_found_in_the_configuration() {
    let config = json(
        r#"{
            "backends": [
                {"mcp": {"security_guards": [
                    {"id": "tp", "type": "tool_poisoning"},
                    {"id": "w1", "type": "wasm", "module_path": "a.wasm"},
                    {"type": "wasm", "module_path": "nameless.wasm"},
                    {"id": 7, "type": "wasm"},
                    {"id": "no-type"}
                ]}},
                {"ai": {}},
                {"mcp": {"targets": []}},
                {"mcp": {"security_guards": {"id": "w0", "type": "wasm"}}},
                {"mcp": {"security_guards": [{"id": "w2", "type": "wasm"}]}}
            ]
        }"#,
    );
    let found = collect_wasm_schemas_from_config(&config);
    let ids: Vec<&str> = found.iter().map(|(id, _)| id.as_str()).collect();
    assert_eq!(ids, vec!["w1", "w2"]);
    assert_eq!(found[0].1.get("module_path").unwrap().as_str(), Some("a.wasm"));
    assert_eq!(found[1].1, json(r#"{"id": "w2", "type": "wasm"}"#));

    assert!(collect_wasm_schemas_from_config(&json("{}")).is_empty());
    assert!(collect_wasm_schemas_from_config(&json(r#"{"backends": {}}"#)).is_empty());
    assert!(collect_wasm_schemas_from_config(&json("[]")).is_empty());
}

#[test]
fn schemas_are_filed_under_their_guard_type() {
    let mut schemas: Vec<(String, Json)> = Vec::new();
    let typed = json(r#"{"x-guard-meta": {"guardType": "pattern"}, "title": "one"}"#);
    file_schema(&mut schemas, "w1", typed.clone());
    let untyped = json(r#"{"title": "two"}"#);
    file_schema(&mut schemas, "w2", untyped.clone());
    let odd = json(r#"{"x-guard-meta": {"guardType": 3}}"#);
    file_schema(&mut schemas, "w3", odd.clone());
    assert_eq!(
        schemas,
        vec![
            ("pattern".to_string(), typed),
            ("w2".to_string(), untyped),
            ("w3".to_string(), odd)
        ]
    );
    // A second schema of the same type takes the place of the first.
    let again = json(r#"{"x-guard-meta": {"guardType": "pattern"}, "title": "three"}"#);
    file_schema(&mut schemas, "w9", again.clone());
    assert_eq!(schemas.len(), 3);
    assert_eq!(schemas[0], ("pattern".to_string(), again));
}

#[test]
fn missing_answers_have_their_stand_ins() {
    let s = WasmGuardSchema::new(None, None);
    assert_eq!(s.settings_schema, Json::Null);
    assert_eq!(s.default_config, Json::Object(vec![]));
    let s = WasmGuardSchema::new(Some(Json::Bool(true)), Some(Json::unsigned(1)));
    assert_eq!(s.settings_schema, Json::Bool(true));
    assert_eq!(s.default_config, Json::unsigned(1));
}
