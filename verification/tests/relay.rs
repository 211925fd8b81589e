use mcp_guards::decision::{DenyReason, FailureMode, GuardDecision, GuardError, GuardPhase};
use mcp_guards::executor::{Evaluation, GuardExecutor};
use mcp_guards::guard::{McpGuardKind, McpSecurityGuard};
use mcp_guards::json::Json;
use mcp_guards::native::rug_pull::RugPullConfig;
use mcp_guards::native::tool_poisoning::{ScanField, ToolPoisoningConfig};
use mcp_guards::registry::GuardExecutorRegistry;
use mcp_guards::relay::{
    resource_name, BaselineFinding, BaselineStep, ClientError, InitializeAnswer, MCPSession,
    McpBackendGroup, Prompt, Relay, Resource, ResourceTemplate, UpstreamError, UpstreamEvent,
    UpstreamState, UpstreamTarget, DELIMITER, INSTRUCTIONS,
};
use mcp_guards::relay::UpstreamEvent::{
    BaselineAllowed, ConnectionAllowed, Reset, RugPullDenied, Served,
};
use mcp_guards::relay::UpstreamState::{BaselineEstablished, Blocked, Initialized, New, Serving};
use mcp_guards::tool::Tool;

fn target(name: &str, always_use_prefix: bool) -> UpstreamTarget {
    UpstreamTarget { name: name.to_string(), always_use_prefix }
}

fn backend(name: &str, targets: Vec<UpstreamTarget>, guards: Vec<McpSecurityGuard>) -> McpBackendGroup {
    McpBackendGroup { name: name.to_string(), targets, security_guards: guards }
}

fn relay(targets: Vec<UpstreamTarget>) -> Relay {
    let mut registry = GuardExecutorRegistry::new();
    Relay::new(backend("backend", targets, vec![]), &mut registry)
}

fn rug_pull_guard() -> McpSecurityGuard {
    McpSecurityGuard {
        id: "rug-pull".to_string(),
        description: None,
        priority: 1,
        failure_mode: FailureMode::FailClosed,
        timeout_ms: 100,
        runs_on: vec![GuardPhase::ToolsList, GuardPhase::ToolInvoke],
        enabled: true,
        kind: McpGuardKind::RugPull(RugPullConfig::default()),
    }
}

fn result_of(e: Evaluation) -> Result<GuardDecision, GuardError> {
    e.into_result().unwrap()
}

#[test]
fn single_target_names_are_bare() {
    let r = relay(vec![target("only", false)]);
    assert!(!r.is_multiplexing());
    assert_eq!(r.default_target_name(), Some("only".to_string()));
    assert_eq!(r.count(), 1);
    assert_eq!(r.parse_resource_name("ping"), Ok(("only", "ping")));
    assert_eq!(r.parse_resource_name("a_b_c"), Ok(("only", "a_b_c")));
    assert_eq!(r.parse_resource_name(""), Ok(("only", "")));
    assert_eq!(resource_name(Some(&"only".to_string()), "only", "ping"), "ping");
    assert_eq!(r.send_single_without_multiplexing("resources/read"), Ok("only"));
}

#[test]
fn multiplex_names_are_prefixed() {
    let r = relay(vec![target("A", false), target("B", false)]);
    assert!(r.is_multiplexing());
    assert_eq!(r.default_target_name(), None);
    assert_eq!(r.count(), 2);
    assert_eq!(DELIMITER, "_");
    assert_eq!(resource_name(None, "A", "ping"), "A_ping");
    assert_eq!(r.parse_resource_name("A_ping"), Ok(("A", "ping")));
    assert_eq!(r.parse_resource_name("B_read_file"), Ok(("B", "read_file")));
    assert_eq!(r.parse_resource_name("_x"), Ok(("", "x")));
    assert_eq!(r.parse_resource_name("x_"), Ok(("x", "")));
    assert_eq!(r.parse_resource_name("\u{e9}t\u{e9}_caf\u{e9}"), Ok(("\u{e9}t\u{e9}", "caf\u{e9}")));
    assert_eq!(
        r.parse_resource_name("ping"),
        Err(UpstreamError::InvalidRequest("invalid resource name".to_string()))
    );
    assert_eq!(
        r.parse_resource_name(""),
        Err(UpstreamError::InvalidRequest("invalid resource name".to_string()))
    );
    assert_eq!(
        r.send_single_without_multiplexing("resources/read"),
        Err(UpstreamError::InvalidMethod("resources/read".to_string()))
    );
}

#[test]
fn naming_round_trip() {
    let r = relay(vec![target("A", false), target("B", false)]);
    for upstream in ["A", "B", "some-server", ""] {
        for resource in ["ping", "read_file", "_", "", "a_b_c"] {
            let name = resource_name(None, upstream, resource);
            assert_eq!(r.parse_resource_name(&name), Ok((upstream, resource)));
        }
    }
    let single = relay(vec![target("one", false)]);
    for resource in ["ping", "read_file", ""] {
        let name = resource_name(Some(&"one".to_string()), "one", resource);
        assert_eq!(single.parse_resource_name(&name), Ok(("one", resource)));
    }
}

#[test]
fn one_upstream_that_asks_for_its_prefix_has_no_default() {
    let r = relay(vec![target("only", true)]);
    assert!(!r.is_multiplexing());
    assert_eq!(r.default_target_name(), None);
    assert_eq!(r.parse_resource_name("only_ping"), Ok(("only", "ping")));
    let none = relay(vec![]);
    assert!(none.is_multiplexing());
    assert_eq!(none.default_target_name(), None);
    assert_eq!(none.count(), 0);
}

#[test]
fn targets_are_found_by_name() {
    let r = relay(vec![target("A", false), target("B", false)]);
    assert_eq!(r.target("B"), Ok(1));
    assert_eq!(r.target("A"), Ok(0));
    assert_eq!(r.target("C"), Err(UpstreamError::InvalidRequest("unknown service C".to_string())));
    assert_eq!(r.upstream_name(1), Some("B"));
    assert_eq!(r.upstream_name(2), None);
    assert_eq!(r.backend_name(), "backend");
    assert!(r.has_shared_guards());
}

#[test]
fn multiplex_rename() {
    let r = relay(vec![target("A", false), target("B", false)]);
    let mut executor = GuardExecutor::empty();
    let ping = || vec![Tool::new("ping", Some("Pings"), "{}")];
    let mut merged: Vec<Tool> = Vec::new();
    for server in ["A", "B"] {
        let tools = ping();
        let context = Relay::context_for(server, None);
        let decision = result_of(executor.evaluate_tools_list(&tools, &context));
        merged = r.merge_tools(merged, server, tools, &vec![true], decision).unwrap();
    }
    let names: Vec<&str> = merged.iter().map(|t| t.name.as_str()).collect();
    assert_eq!(names, vec!["A_ping", "B_ping"]);
    assert_eq!(merged[0].description, Some("Pings".to_string()));
    assert_eq!(merged[0].input_schema, "{}");
    // A call to `A_ping` goes to `A` under the name `ping`.
    let (upstream, tool) = r.parse_resource_name("A_ping").unwrap();
    assert_eq!((upstream, tool), ("A", "ping"));
    assert_eq!(r.target(upstream), Ok(0));
}

#[test]
fn merge_filters_by_authorization() {
    let r = relay(vec![target("A", false), target("B", false)]);
    let tools = vec![
        Tool::new("one", None, "{}"),
        Tool::new("two", None, "{}"),
        Tool::new("three", None, "{}"),
    ];
    let merged = r
        .merge_tools(
            vec![Tool::new("kept", None, "{}")],
            "A",
            tools,
            &vec![true, false],
            Ok(GuardDecision::Allow),
        )
        .unwrap();
    let names: Vec<&str> = merged.iter().map(|t| t.name.as_str()).collect();
    // The third tool has no decision and is not allowed.
    assert_eq!(names, vec!["kept", "A_one"]);
}

#[test]
fn denial_for_one_upstream_fails_the_merge() {
    let r = relay(vec![target("A", false), target("B", false)]);
    let denial = GuardDecision::Deny(DenyReason {
        code: "tool_poisoning_detected".to_string(),
        message: "Detected 1 pattern".to_string(),
        details: None,
    });
    assert_eq!(
        r.merge_tools(vec![], "B", vec![Tool::new("t", None, "{}")], &vec![true], Ok(denial)),
        Err(ClientError {
            message:
                "Security guard denied for server 'B': tool_poisoning_detected - Detected 1 pattern"
                    .to_string()
        })
    );
    assert_eq!(
        r.merge_tools(
            vec![],
            "B",
            vec![],
            &vec![],
            Err(GuardError::ExecutionError("Guard g failed: x".to_string()))
        ),
        Err(ClientError {
            message:
                "Security guard failed for server 'B': Guard execution error: Guard g failed: x"
                    .to_string()
        })
    );
}

#[test]
fn prompts_and_resources_merge() {
    let r = relay(vec![target("A", false), target("B", false)]);
    let prompt = |n: &str| Prompt { name: n.to_string(), description: Some("d".to_string()) };
    let merged = r.merge_prompts(vec![], "A", vec![prompt("p"), prompt("q")], &vec![false, true]);
    let merged = r.merge_prompts(merged, "B", vec![prompt("p")], &vec![true]);
    assert_eq!(merged, vec![prompt("A_q"), prompt("B_p")]);

    let single = relay(vec![target("only", false)]);
    assert_eq!(single.merge_prompts(vec![], "only", vec![prompt("p")], &vec![true]), vec![prompt("p")]);

    let resource = |u: &str| Resource { uri: u.to_string(), name: "n".to_string() };
    let merged = r.merge_resources(
        vec![resource("file:///kept")],
        vec![resource("file:///a"), resource("file:///b"), resource("file:///c")],
        &vec![true, false, true],
    );
    assert_eq!(merged, vec![resource("file:///kept"), resource("file:///a"), resource("file:///c")]);

    let template =
        |u: &str| ResourceTemplate { uri_template: u.to_string(), name: "n".to_string() };
    let merged =
        r.merge_resource_templates(vec![], vec![template("a/{x}"), template("b/{y}")], &vec![false, true]);
    assert_eq!(merged, vec![template("b/{y}")]);
}

#[test]
fn initialize_forwards_or_answers_for_itself() {
    let v = |s: &str| Some(s.to_string());
    assert_eq!(
        Relay::merge_initialize("2025-06-18", false, &vec![v("2024-11-05")]),
        InitializeAnswer::Forward(0)
    );
    match Relay::merge_initialize("2025-06-18", false, &vec![None]) {
        InitializeAnswer::Synthesized(info) => {
            assert_eq!(info.protocol_version, "2025-06-18");
            assert!(info.tools && info.prompts && info.resources);
        },
        other => panic!("unexpected {:?}", other),
    }
    match Relay::merge_initialize(
        "2025-06-18",
        true,
        &vec![v("2025-03-26"), None, v("2024-11-05"), v("2025-06-18"), v("2024-11-05")],
    ) {
        InitializeAnswer::Synthesized(info) => {
            assert_eq!(info.protocol_version, "2024-11-05");
            assert!(info.tools);
            assert!(!info.prompts);
            assert!(!info.resources);
            assert_eq!(info.instructions, INSTRUCTIONS);
        },
        other => panic!("unexpected {:?}", other),
    }
    match Relay::merge_initialize("2025-06-18", true, &vec![None, None]) {
        InitializeAnswer::Synthesized(info) => assert_eq!(info.protocol_version, "2025-06-18"),
        other => panic!("unexpected {:?}", other),
    }
    match Relay::merge_initialize("pv", true, &vec![]) {
        InitializeAnswer::Synthesized(info) => assert_eq!(info.protocol_version, "pv"),
        other => panic!("unexpected {:?}", other),
    }
    let info = Relay::get_info("x", false);
    assert!(info.prompts && info.resources && info.tools);
}

#[test]
fn sessions_are_kept_per_upstream() {
    let mut r = relay(vec![target("A", false), target("B", false)]);
    assert_eq!(r.get_sessions(), None);
    let session = |s: &str, b: Option<&str>| MCPSession {
        session: s.to_string(),
        backend: b.map(|x| x.to_string()),
    };
    r.set_sessions(vec![session("s-a", None)]);
    assert_eq!(r.get_sessions(), None);
    r.set_sessions(vec![session("s-a2", Some("pin")), session("s-b", None), session("extra", None)]);
    assert_eq!(r.get_sessions(), Some(vec![session("s-a2", Some("pin")), session("s-b", None)]));
    assert_eq!(relay(vec![]).get_sessions(), Some(vec![]));
}

#[test]
fn upstream_states_follow_one_another() {
    assert_eq!(New.next(ConnectionAllowed), Initialized);
    assert_eq!(Initialized.next(BaselineAllowed), BaselineEstablished);
    assert_eq!(BaselineEstablished.next(Served), Serving);
    assert_eq!(Serving.next(Served), Serving);
    // Out of turn nothing happens.
    assert_eq!(New.next(BaselineAllowed), New);
    assert_eq!(New.next(Served), New);
    assert_eq!(Initialized.next(ConnectionAllowed), Initialized);
    assert_eq!(Serving.next(ConnectionAllowed), Serving);
    // Blocked is sticky until a reset.
    for s in [New, Initialized, BaselineEstablished, Serving, Blocked] {
        assert_eq!(s.next(RugPullDenied), Blocked);
        assert_eq!(s.next(Reset), New);
    }
    for e in [ConnectionAllowed, BaselineAllowed, Served, RugPullDenied] {
        assert_eq!(Blocked.next(e), Blocked);
    }
}

#[test]
fn baselines_are_established_upstream_by_upstream() {
    let mut r = relay(vec![target("A", false), target("B", false), target("C", false)]);
    let step = r.establish_security_baselines();
    assert_eq!(step, BaselineStep::CheckConnection(0));
    // A: allowed, then seeded.
    let step = r.baseline_step(step, BaselineFinding::Passed);
    assert_eq!(step, BaselineStep::SeedTools(0));
    assert_eq!(r.state(0), Some(UpstreamState::Initialized));
    let step = r.baseline_step(step, BaselineFinding::Passed);
    assert_eq!(step, BaselineStep::CheckConnection(1));
    assert_eq!(r.state(0), Some(UpstreamState::BaselineEstablished));
    // B: its connection is denied; it is passed over.
    let step = r.baseline_step(step, BaselineFinding::Denied);
    assert_eq!(step, BaselineStep::CheckConnection(2));
    assert_eq!(r.state(1), Some(UpstreamState::New));
    // C: allowed, but its tools are denied; that fails nothing.
    let step = r.baseline_step(step, BaselineFinding::Passed);
    assert_eq!(step, BaselineStep::SeedTools(2));
    let step = r.baseline_step(step, BaselineFinding::Denied);
    assert_eq!(step, BaselineStep::Done);
    assert_eq!(r.state(2), Some(UpstreamState::Initialized));
    assert_eq!(r.baseline_step(step, BaselineFinding::Passed), BaselineStep::Done);
    assert_eq!(r.state(3), None);

    assert_eq!(relay(vec![]).establish_security_baselines(), BaselineStep::Done);
    let mut one = relay(vec![target("A", false)]);
    assert_eq!(
        one.baseline_step(BaselineStep::CheckConnection(0), BaselineFinding::Failed),
        BaselineStep::Done
    );
    assert_eq!(
        one.baseline_step(BaselineStep::CheckConnection(5), BaselineFinding::Passed),
        BaselineStep::Done
    );

    assert_eq!(Relay::baseline_finding(&Ok(GuardDecision::Allow)), BaselineFinding::Passed);
    assert_eq!(
        Relay::baseline_finding(&Err(GuardError::Timeout(1))),
        BaselineFinding::Failed
    );
    let denial = GuardDecision::Deny(DenyReason {
        code: "c".to_string(),
        message: "m".to_string(),
        details: None,
    });
    assert_eq!(Relay::baseline_finding(&Ok(denial)), BaselineFinding::Denied);
}

#[test]
fn relay_works_on_the_executor_of_the_registry() {
    let mut registry = GuardExecutorRegistry::new();
    let mut r = Relay::new(
        backend("b", vec![target("A", false), target("B", false)], vec![rug_pull_guard()]),
        &mut registry,
    );
    assert!(r.has_shared_guards());
    let at = registry.find(r.backend_name()).unwrap();
    let executor = registry.executor_mut(at).unwrap();

    let tools = vec![Tool::new("t1", None, "{}"), Tool::new("t2", None, "{}")];
    for server in ["A", "B"] {
        let context = Relay::context_for(server, None);
        assert_eq!(result_of(executor.evaluate_tools_list(&tools, &context)), Ok(GuardDecision::Allow));
    }
    let context = Relay::context_for("A", None);
    assert!(matches!(
        result_of(executor.evaluate_tools_list(&vec![], &context)),
        Ok(GuardDecision::Deny(_))
    ));
    r.observe(0, UpstreamEvent::RugPullDenied);
    assert_eq!(r.state(0), Some(UpstreamState::Blocked));
    match result_of(r.evaluate_tool_invoke(executor, "t1", &Json::Null, "A", Some("bob".to_string())))
    {
        Ok(GuardDecision::Deny(reason)) => assert_eq!(reason.code, "rug_pull_server_blocked"),
        other => panic!("expected a denial, got {:?}", other),
    }
    assert_eq!(
        result_of(r.evaluate_tool_invoke(executor, "t1", &Json::Null, "B", None)),
        Ok(GuardDecision::Allow)
    );

    r.reset_all_security_guards(executor);
    assert_eq!(r.state(0), Some(UpstreamState::New));
    assert_eq!(
        result_of(r.evaluate_tool_invoke(executor, "t1", &Json::Null, "A", None)),
        Ok(GuardDecision::Allow)
    );
    let context = Relay::context_for("B", None);
    assert_eq!(result_of(executor.evaluate_tools_list(&vec![], &context)), Ok(GuardDecision::Allow));
}

#[test]
fn relay_without_guards_where_they_cannot_be_made() {
    let mut registry = GuardExecutorRegistry::new();
    let bad = McpSecurityGuard {
        kind: McpGuardKind::ToolPoisoning(ToolPoisoningConfig {
            strict_mode: true,
            custom_patterns: vec!["(".to_string()],
            scan_fields: vec![ScanField::Name],
            alert_threshold: 1,
        }),
        ..rug_pull_guard()
    };
    let r = Relay::new(backend("b", vec![target("A", false)], vec![bad]), &mut registry);
    assert!(!r.has_shared_guards());
    assert_eq!(registry.find("b"), None);
}
