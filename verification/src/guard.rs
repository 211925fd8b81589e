//! Guard configurations, and the guards that are made from them.
use crate::decision::{
    ContextView, DecisionView, ErrorView, FailureMode, GuardContext, GuardError, GuardPhase,
    GuardResult, result_view, texts_view,
};
use crate::json::{Json, JsonValue};
use crate::native::pii_guard::{
    json_decision, tools_decision, PiiAction, PiiGuard, PiiGuardConfig,
};
use crate::native::rug_pull::{
    invoke_decision, list_outcome, without_server, Baselines, RugPullConfig, RugPullDetector,
};
use crate::native::server_whitelist::{
    connection_decision, ServerWhitelistChecker, ServerWhitelistConfig,
};
use crate::native::tool_poisoning::{
    all_sources, poisoning_decision, ScanField, ToolPoisoningConfig, ToolPoisoningDetector,
};
use crate::native::tool_shadowing::{
    shadowing_decision, ToolShadowingConfig, ToolShadowingDetector,
};
use crate::pattern::pattern_accepted;
use crate::pii::PiiType;
use crate::tool::{opt_text, Tool, ToolView, tools_view};
use crate::wasm::{
    config_view, connection_call, load_error, tools_list_call, GuestCall, GuestCallView, ModuleLoad,
    ModuleLoadView, WasmGuard, WasmGuardConfig,
};
use vstd::prelude::*;

verus! {

/// The kinds of guard, each with its configuration.
#[derive(Debug)]
pub enum McpGuardKind {
    ToolPoisoning(ToolPoisoningConfig),
    RugPull(RugPullConfig),
    ToolShadowing(ToolShadowingConfig),
    ServerWhitelist(ServerWhitelistConfig),
    Pii(PiiGuardConfig),
    /// A guard that runs as a component, with the outcome of loading the
    /// component.
    Wasm(WasmGuardConfig, ModuleLoad),
}

/// A guard as it is configured.
#[derive(Debug)]
pub struct McpSecurityGuard {
    /// The identifier of the guard.
    pub id: String,
    pub description: Option<String>,
    /// Guards with a lower priority run first.
    pub priority: u32,
    pub failure_mode: FailureMode,
    /// The time, in milliseconds, that one evaluation should not exceed.
    pub timeout_ms: u64,
    /// The phases on which the guard runs.
    pub runs_on: Vec<GuardPhase>,
    pub enabled: bool,
    pub kind: McpGuardKind,
}

/// The priority of a guard that names none.
pub fn default_priority() -> (res: u32)
    ensures
        res == 100,
{
    100
}

/// The time, in milliseconds, of a guard that names none.
pub fn default_timeout() -> (res: u64)
    ensures
        res == 100,
{
    100
}

/// Whether a guard is enabled that does not say.
pub fn default_enabled() -> (res: bool)
    ensures
        res,
{
    true
}

/// The mathematical value of a [`McpGuardKind`], as far as guards are made from
/// it.
pub enum KindView {
    ToolPoisoning { custom: Seq<Seq<char>>, fields: Seq<ScanField>, threshold: usize },
    RugPull(RugPullConfig),
    ToolShadowing { protected: Seq<Seq<char>>, trusted: Seq<Seq<char>> },
    ServerWhitelist { allowed: Seq<Seq<char>>, urls: Seq<Seq<char>>, typosquats: bool },
    Pii { detect: Seq<PiiType>, action: PiiAction, min_score: u32, message: Option<Seq<char>> },
    Wasm {
        path: Seq<char>,
        timeout_ms: u64,
        settings: Seq<(Seq<char>, Seq<char>)>,
        load: ModuleLoadView,
    },
}

impl View for McpGuardKind {
    type V = KindView;

    open spec fn view(&self) -> KindView {
        match self {
            McpGuardKind::ToolPoisoning(c) => KindView::ToolPoisoning {
                custom: texts_view(c.custom_patterns@),
                fields: c.scan_fields@,
                threshold: c.alert_threshold,
            },
            McpGuardKind::RugPull(c) => KindView::RugPull(*c),
            McpGuardKind::ToolShadowing(c) => KindView::ToolShadowing {
                protected: texts_view(c.protected_names@),
                trusted: texts_view(c.trusted_servers@),
            },
            McpGuardKind::ServerWhitelist(c) => KindView::ServerWhitelist {
                allowed: texts_view(c.allowed_servers@),
                urls: texts_view(c.allowed_urls@),
                typosquats: c.detect_typosquats,
            },
            McpGuardKind::Pii(c) => KindView::Pii {
                detect: c.detect@,
                action: c.action,
                min_score: c.min_score,
                message: opt_text(c.rejection_message),
            },
            McpGuardKind::Wasm(c, load) => KindView::Wasm {
                path: c.component_path@,
                timeout_ms: c.timeout_ms,
                settings: config_view(c.config@),
                load: load@,
            },
        }
    }
}

/// The mathematical value of a [`McpSecurityGuard`].
pub struct GuardConfigView {
    pub id: Seq<char>,
    pub priority: u32,
    pub failure_mode: FailureMode,
    pub timeout_ms: u64,
    pub runs_on: Seq<GuardPhase>,
    pub enabled: bool,
    pub kind: KindView,
}

impl View for McpSecurityGuard {
    type V = GuardConfigView;

    open spec fn view(&self) -> GuardConfigView {
        GuardConfigView {
            id: self.id@,
            priority: self.priority,
            failure_mode: self.failure_mode,
            timeout_ms: self.timeout_ms,
            runs_on: self.runs_on@,
            enabled: self.enabled,
            kind: self.kind@,
        }
    }
}

/// The values of a list of configurations.
pub open spec fn configs_view(configs: Seq<McpSecurityGuard>) -> Seq<GuardConfigView> {
    Seq::new(configs.len(), |i: int| configs[i]@)
}

/// A guard: one of the built-in policy engines, or a guard that runs as a
/// component. Every guard can be asked on every phase; a guard allows what
/// it does not look at.
pub enum NativeGuard {
    ToolPoisoning(ToolPoisoningDetector),
    RugPull(RugPullDetector),
    ToolShadowing(ToolShadowingDetector),
    ServerWhitelist(ServerWhitelistChecker),
    Pii(PiiGuard),
    Wasm(WasmGuard),
}

/// The mathematical value of a [`NativeGuard`]: what the guard is configured
/// with and what it remembers.
pub enum GuardView {
    ToolPoisoning { threshold: usize, fields: Seq<ScanField>, sources: Seq<Seq<char>> },
    RugPull { config: RugPullConfig, baselines: Baselines },
    ToolShadowing { protected: Seq<Seq<char>>, trusted: Seq<Seq<char>> },
    ServerWhitelist { allowed: Seq<Seq<char>>, urls: Seq<Seq<char>>, typosquats: bool },
    Pii { action: PiiAction, message: Option<Seq<char>>, detect: Seq<PiiType>, min_score: u32 },
    Wasm { guard_id: Seq<char>, timeout_ms: u64, settings: Seq<(Seq<char>, Seq<char>)> },
}

impl View for NativeGuard {
    type V = GuardView;

    open spec fn view(&self) -> GuardView {
        match self {
            NativeGuard::ToolPoisoning(d) => GuardView::ToolPoisoning {
                threshold: d.alert_threshold(),
                fields: d.scan_fields(),
                sources: d.sources(),
            },
            NativeGuard::RugPull(d) => GuardView::RugPull {
                config: d.config(),
                baselines: d.baselines(),
            },
            NativeGuard::ToolShadowing(d) => GuardView::ToolShadowing {
                protected: d.protected_names(),
                trusted: d.trusted_servers(),
            },
            NativeGuard::ServerWhitelist(d) => GuardView::ServerWhitelist {
                allowed: d.allowed_servers(),
                urls: d.allowed_urls(),
                typosquats: d.detect_typosquats(),
            },
            NativeGuard::Pii(g) => GuardView::Pii {
                action: g.action(),
                message: g.rejection_message(),
                detect: g.detect(),
                min_score: g.min_score(),
            },
            NativeGuard::Wasm(g) => GuardView::Wasm {
                guard_id: g.guard_id(),
                timeout_ms: g.timeout_ms(),
                settings: g.settings(),
            },
        }
    }
}

/// Whether no guard can be made from a configuration of this kind.
pub open spec fn build_fails(kind: KindView) -> bool {
    match kind {
        KindView::ToolPoisoning { custom, .. } => exists|i: int|
            0 <= i < all_sources(custom).len() && !pattern_accepted(
                #[trigger] all_sources(custom)[i],
            ),
        KindView::Wasm { path, load, .. } => load_error(path, load) is Some,
        _ => false,
    }
}

/// Whether `e` is the error of making a guard from a configuration of this
/// kind.
pub open spec fn is_build_error(kind: KindView, e: ErrorView) -> bool {
    match kind {
        KindView::ToolPoisoning { .. } => e matches ErrorView::ConfigError(m) && m.len() >= 23
            && m.subrange(0, 23) == "Invalid regex pattern: "@,
        KindView::Wasm { path, load, .. } => load_error(path, load) == Some(e),
        _ => false,
    }
}

/// The guard that is made from a configuration with the identifier `id`.
pub open spec fn guard_of(id: Seq<char>, kind: KindView) -> GuardView {
    match kind {
        KindView::ToolPoisoning { custom, fields, threshold } => GuardView::ToolPoisoning {
            threshold,
            fields,
            sources: all_sources(custom),
        },
        KindView::RugPull(config) => GuardView::RugPull { config, baselines: Seq::empty() },
        KindView::ToolShadowing { protected, trusted } => GuardView::ToolShadowing {
            protected,
            trusted,
        },
        KindView::ServerWhitelist { allowed, urls, typosquats } => GuardView::ServerWhitelist {
            allowed,
            urls,
            typosquats,
        },
        KindView::Pii { detect, action, min_score, message } => GuardView::Pii {
            action,
            message,
            detect,
            min_score,
        },
        KindView::Wasm { timeout_ms, settings, .. } => GuardView::Wasm {
            guard_id: id,
            timeout_ms,
            settings,
        },
    }
}

/// What a chain of guards is run on.
#[derive(Debug)]
pub enum ChainInput {
    Connection { server_name: String, server_url: Option<String> },
    ToolsList { tools: Vec<Tool> },
    ToolInvoke { tool_name: String, arguments: Json },
    Response { response: Json },
}

/// The mathematical value of a [`ChainInput`].
pub enum InputView {
    Connection { server_name: Seq<char>, server_url: Option<Seq<char>> },
    ToolsList { tools: Seq<ToolView> },
    ToolInvoke { tool_name: Seq<char>, arguments: JsonValue },
    Response { response: JsonValue },
}

impl View for ChainInput {
    type V = InputView;

    open spec fn view(&self) -> InputView {
        match self {
            ChainInput::Connection { server_name, server_url } => InputView::Connection {
                server_name: server_name@,
                server_url: opt_text(*server_url),
            },
            ChainInput::ToolsList { tools } => InputView::ToolsList { tools: tools_view(tools@) },
            ChainInput::ToolInvoke { tool_name, arguments } => InputView::ToolInvoke {
                tool_name: tool_name@,
                arguments: arguments@,
            },
            ChainInput::Response { response } => InputView::Response { response: response@ },
        }
    }
}

impl InputView {
    /// The phase that the input belongs to.
    pub open spec fn phase(self) -> GuardPhase {
        match self {
            InputView::Connection { .. } => GuardPhase::Connection,
            InputView::ToolsList { .. } => GuardPhase::ToolsList,
            InputView::ToolInvoke { .. } => GuardPhase::ToolInvoke,
            InputView::Response { .. } => GuardPhase::Response,
        }
    }

    /// The payload that a guard can replace: the arguments of an invocation
    /// or a response.
    pub open spec fn payload(self) -> Option<JsonValue> {
        match self {
            InputView::ToolInvoke { arguments, .. } => Some(arguments),
            InputView::Response { response } => Some(response),
            _ => None,
        }
    }

    /// The input with its payload replaced by `v`, if it has a payload.
    pub open spec fn with_payload(self, v: JsonValue) -> InputView {
        match self {
            InputView::ToolInvoke { tool_name, .. } => InputView::ToolInvoke {
                tool_name,
                arguments: v,
            },
            InputView::Response { .. } => InputView::Response { response: v },
            other => other,
        }
    }
}

/// Whether a guard that runs on the phases `runs_on` runs on an input of
/// `phase`. A list of tools also passes the guards of responses, and an
/// invocation also passes the guards of requests.
pub open spec fn runs_in(runs_on: Seq<GuardPhase>, phase: GuardPhase) -> bool {
    match phase {
        GuardPhase::ToolsList => runs_on.contains(GuardPhase::ToolsList) || runs_on.contains(
            GuardPhase::Response,
        ),
        GuardPhase::ToolInvoke => runs_on.contains(GuardPhase::ToolInvoke) || runs_on.contains(
            GuardPhase::Request,
        ),
        other => runs_on.contains(other),
    }
}

/// The call into the guest that a guard needs before it can decide, if it
/// needs one: guards that run as components ask their guest about
/// connections and about lists of tools.
pub open spec fn guest_call(g: GuardView, input: InputView, context: ContextView) -> Option<
    GuestCallView,
> {
    match (g, input) {
        (GuardView::Wasm { guard_id, timeout_ms, .. }, InputView::ToolsList { tools }) => Some(
            tools_list_call(guard_id, timeout_ms, tools, context),
        ),
        (
            GuardView::Wasm { guard_id, timeout_ms, .. },
            InputView::Connection { server_url, .. },
        ) => Some(connection_call(guard_id, timeout_ms, server_url, context)),
        _ => None,
    }
}

/// The error of a guard that is asked directly where it needs its guest.
pub open spec fn guest_needed() -> ErrorView {
    ErrorView::WasmError("WASM guard must be evaluated through its guest"@)
}

/// What a guard decides by itself on an input, and the guard after it. A
/// guard that needs its guest for the input fails.
pub open spec fn native_outcome(g: GuardView, input: InputView, context: ContextView) -> (
    Result<DecisionView, ErrorView>,
    GuardView,
) {
    if guest_call(g, input, context) is Some {
        (Err(guest_needed()), g)
    } else {
        let o = native_decision(g, input, context);
        (Ok(o.0), o.1)
    }
}

/// What a guard that needs no guest decides on an input, and the guard
/// after it.
pub open spec fn native_decision(g: GuardView, input: InputView, context: ContextView) -> (
    DecisionView,
    GuardView,
) {
    match (g, input) {
        (
            GuardView::ToolPoisoning { threshold, fields, sources },
            InputView::ToolsList { tools },
        ) => (poisoning_decision(threshold, fields, sources, tools), g),
        (GuardView::RugPull { config, baselines }, InputView::ToolsList { tools }) => {
            let o = list_outcome(config, baselines, context.server_name, tools);
            (o.0, GuardView::RugPull { config, baselines: o.1 })
        },
        (GuardView::RugPull { config, baselines }, InputView::ToolInvoke { tool_name, .. }) => (
            invoke_decision(config, baselines, context.server_name, tool_name),
            g,
        ),
        (GuardView::ToolShadowing { protected, trusted }, InputView::ToolsList { tools }) => (
            shadowing_decision(protected, trusted, context.server_name, tools),
            g,
        ),
        (
            GuardView::ServerWhitelist { allowed, urls, typosquats },
            InputView::Connection { server_name, server_url },
        ) => (connection_decision(allowed, urls, typosquats, server_name, server_url), g),
        (GuardView::Pii { action, message, detect, min_score }, InputView::ToolsList { tools }) => (
            tools_decision(action, detect, min_score, tools),
            g,
        ),
        (
            GuardView::Pii { action, message, detect, min_score },
            InputView::ToolInvoke { arguments, .. },
        ) => (json_decision(action, message, detect, min_score, arguments), g),
        (
            GuardView::Pii { action, message, detect, min_score },
            InputView::Response { response },
        ) => (json_decision(action, message, detect, min_score, response), g),
        _ => (DecisionView::Allow, g),
    }
}

/// A guard after the state of `server` was reset.
pub open spec fn reset_guard(g: GuardView, server: Seq<char>) -> GuardView {
    match g {
        GuardView::RugPull { config, baselines } => GuardView::RugPull {
            config,
            baselines: without_server(baselines, server),
        },
        other => other,
    }
}

/// Whether `phase` is among `runs_on`.
fn has_phase(runs_on: &Vec<GuardPhase>, phase: GuardPhase) -> (res: bool)
    ensures
        res == runs_on@.contains(phase),
{
    let mut i: usize = 0;
    while i < runs_on.len()
        invariant
            i <= runs_on.len(),
            forall|k: int| 0 <= k < i ==> runs_on@[k] != phase,
        decreases runs_on.len() - i,
    {
        if runs_on[i] == phase {
            return true;
        }
        i += 1;
    }
    false
}

/// Whether a guard that runs on the phases `runs_on` runs on an input of
/// `phase`.
pub fn runs_on_phase(runs_on: &Vec<GuardPhase>, phase: GuardPhase) -> (res: bool)
    ensures
        res == runs_in(runs_on@, phase),
{
    match phase {
        GuardPhase::ToolsList => has_phase(runs_on, GuardPhase::ToolsList) || has_phase(
            runs_on,
            GuardPhase::Response,
        ),
        GuardPhase::ToolInvoke => has_phase(runs_on, GuardPhase::ToolInvoke) || has_phase(
            runs_on,
            GuardPhase::Request,
        ),
        GuardPhase::Connection => has_phase(runs_on, GuardPhase::Connection),
        GuardPhase::Request => has_phase(runs_on, GuardPhase::Request),
        GuardPhase::Response => has_phase(runs_on, GuardPhase::Response),
    }
}

impl ChainInput {
    /// The phase that the input belongs to.
    pub fn phase(&self) -> (res: GuardPhase)
        ensures
            res == self@.phase(),
    {
        match self {
            ChainInput::Connection { .. } => GuardPhase::Connection,
            ChainInput::ToolsList { .. } => GuardPhase::ToolsList,
            ChainInput::ToolInvoke { .. } => GuardPhase::ToolInvoke,
            ChainInput::Response { .. } => GuardPhase::Response,
        }
    }

    /// The input with its payload replaced by `v`, if it has a payload.
    pub fn with_payload(self, v: Json) -> (res: ChainInput)
        ensures
            res@ == self@.with_payload(v@),
    {
        match self {
            ChainInput::ToolInvoke { tool_name, arguments } => ChainInput::ToolInvoke {
                tool_name,
                arguments: v,
            },
            ChainInput::Response { response } => ChainInput::Response { response: v },
            other => other,
        }
    }

    /// A copy of the payload, if the input has one.
    pub fn payload(&self) -> (res: Option<Json>)
        ensures
            crate::decision::opt_json(res) == self@.payload(),
    {
        match self {
            ChainInput::ToolInvoke { arguments, .. } => Some(arguments.clone()),
            ChainInput::Response { response } => Some(response.clone()),
            _ => None,
        }
    }
}

fn guest_needed_error() -> (res: GuardError)
    ensures
        res@ == guest_needed(),
{
    GuardError::WasmError("WASM guard must be evaluated through its guest".to_owned())
}

impl NativeGuard {
    /// The guard that is made from the configuration `kind` of the guard
    /// `id`.
    pub fn build(id: &str, kind: McpGuardKind) -> (res: Result<NativeGuard, GuardError>)
        ensures
            res is Err <==> build_fails(kind@),
            res matches Ok(g) ==> g@ == guard_of(id@, kind@),
            res matches Err(e) ==> is_build_error(kind@, e@),
    {
        match kind {
            McpGuardKind::ToolPoisoning(config) => {
                match ToolPoisoningDetector::new(config) {
                    Ok(d) => Ok(NativeGuard::ToolPoisoning(d)),
                    Err(e) => Err(e),
                }
            },
            McpGuardKind::RugPull(config) => Ok(NativeGuard::RugPull(RugPullDetector::new(config))),
            McpGuardKind::ToolShadowing(config) => Ok(
                NativeGuard::ToolShadowing(ToolShadowingDetector::new(config)),
            ),
            McpGuardKind::ServerWhitelist(config) => Ok(
                NativeGuard::ServerWhitelist(ServerWhitelistChecker::new(config)),
            ),
            McpGuardKind::Pii(config) => Ok(NativeGuard::Pii(PiiGuard::new(config))),
            McpGuardKind::Wasm(config, load) => {
                match WasmGuard::new(id.to_owned(), config, load) {
                    Ok(g) => Ok(NativeGuard::Wasm(g)),
                    Err(e) => Err(e),
                }
            },
        }
    }

    /// The call into the guest that the guard needs before it can decide on
    /// `input`, if it needs one.
    pub fn guest_call(&self, input: &ChainInput, context: &GuardContext) -> (res: Option<GuestCall>)
        ensures
            match res {
                Some(c) => guest_call(self@, input@, context@) == Some(c@),
                None => guest_call(self@, input@, context@) is None,
            },
    {
        match self {
            NativeGuard::Wasm(g) => match input {
                ChainInput::ToolsList { tools } => Some(g.evaluate_tools_list(tools, context)),
                ChainInput::Connection { server_url, .. } => Some(
                    g.evaluate_connection(server_url, context),
                ),
                _ => None,
            },
            _ => None,
        }
    }

    /// Decides on a connection to a server.
    pub fn evaluate_connection(
        &mut self,
        server_name: &str,
        server_url: Option<&str>,
        context: &GuardContext,
    ) -> (res: GuardResult)
        ensures
            (result_view(res), final(self)@) == (
                native_outcome(
                    old(self)@,
                    InputView::Connection {
                        server_name: server_name@,
                        server_url: match server_url {
                            Some(u) => Some(u@),
                            None => None,
                        },
                    },
                    context@,
                ).0,
                native_outcome(
                    old(self)@,
                    InputView::Connection {
                        server_name: server_name@,
                        server_url: match server_url {
                            Some(u) => Some(u@),
                            None => None,
                        },
                    },
                    context@,
                ).1,
            ),
    {
        match self {
            NativeGuard::ServerWhitelist(d) => d.evaluate_connection(
                server_name,
                server_url,
                context,
            ),
            NativeGuard::Wasm(_) => Err(guest_needed_error()),
            _ => Ok(crate::decision::GuardDecision::Allow),
        }
    }

    /// Decides on a list of tools.
    pub fn evaluate_tools_list(&mut self, tools: &Vec<Tool>, context: &GuardContext) -> (res:
        GuardResult)
        ensures
            (result_view(res), final(self)@) == (
                native_outcome(
                    old(self)@,
                    InputView::ToolsList { tools: tools_view(tools@) },
                    context@,
                ).0,
                native_outcome(
                    old(self)@,
                    InputView::ToolsList { tools: tools_view(tools@) },
                    context@,
                ).1,
            ),
    {
        match self {
            NativeGuard::ToolPoisoning(d) => d.evaluate_tools_list(tools, context),
            NativeGuard::RugPull(d) => d.evaluate_tools_list(tools, context),
            NativeGuard::ToolShadowing(d) => d.evaluate_tools_list(tools, context),
            NativeGuard::Pii(g) => g.evaluate_tools_list(tools, context),
            NativeGuard::Wasm(_) => Err(guest_needed_error()),
            _ => Ok(crate::decision::GuardDecision::Allow),
        }
    }

    /// Decides on a tool invocation.
    pub fn evaluate_tool_invoke(
        &mut self,
        tool_name: &str,
        arguments: &Json,
        context: &GuardContext,
    ) -> (res: GuardResult)
        ensures
            (result_view(res), final(self)@) == (
                native_outcome(
                    old(self)@,
                    InputView::ToolInvoke { tool_name: tool_name@, arguments: arguments@ },
                    context@,
                ).0,
                native_outcome(
                    old(self)@,
                    InputView::ToolInvoke { tool_name: tool_name@, arguments: arguments@ },
                    context@,
                ).1,
            ),
    {
        match self {
            NativeGuard::RugPull(d) => d.evaluate_tool_invoke(tool_name, arguments, context),
            NativeGuard::Pii(g) => g.evaluate_tool_invoke(tool_name, arguments, context),
            _ => Ok(crate::decision::GuardDecision::Allow),
        }
    }

    /// Decides on a request.
    pub fn evaluate_request(&mut self, request: &Json, context: &GuardContext) -> (res: GuardResult)
        ensures
            final(self)@ == old(self)@,
            result_view(res) == Ok::<DecisionView, ErrorView>(
                match old(self)@ {
                    GuardView::Pii { action, message, detect, min_score } => json_decision(
                        action,
                        message,
                        detect,
                        min_score,
                        request@,
                    ),
                    _ => DecisionView::Allow,
                },
            ),
    {
        match self {
            NativeGuard::Pii(g) => g.evaluate_request(request, context),
            _ => Ok(crate::decision::GuardDecision::Allow),
        }
    }

    /// Decides on a response.
    pub fn evaluate_response(&mut self, response: &Json, context: &GuardContext) -> (res:
        GuardResult)
        ensures
            (result_view(res), final(self)@) == (
                native_outcome(
                    old(self)@,
                    InputView::Response { response: response@ },
                    context@,
                ).0,
                native_outcome(
                    old(self)@,
                    InputView::Response { response: response@ },
                    context@,
                ).1,
            ),
    {
        match self {
            NativeGuard::Pii(g) => g.evaluate_response(response, context),
            _ => Ok(crate::decision::GuardDecision::Allow),
        }
    }

    /// Decides on an input.
    pub fn evaluate(&mut self, input: &ChainInput, context: &GuardContext) -> (res: GuardResult)
        ensures
            (result_view(res), final(self)@) == (
                native_outcome(old(self)@, input@, context@).0,
                native_outcome(old(self)@, input@, context@).1,
            ),
    {
        match input {
            ChainInput::Connection { server_name, server_url } => {
                let url = match server_url {
                    Some(u) => Some(u.as_str()),
                    None => None,
                };
                self.evaluate_connection(server_name.as_str(), url, context)
            },
            ChainInput::ToolsList { tools } => self.evaluate_tools_list(tools, context),
            ChainInput::ToolInvoke { tool_name, arguments } => self.evaluate_tool_invoke(
                tool_name.as_str(),
                arguments,
                context,
            ),
            ChainInput::Response { response } => self.evaluate_response(response, context),
        }
    }

    /// Forgets what the guard remembers of a server.
    pub fn reset_server(&mut self, server_name: &str)
        ensures
            final(self)@ == reset_guard(old(self)@, server_name@),
    {
        match self {
            NativeGuard::RugPull(d) => {
                d.reset_server(server_name);
            },
            _ => {},
        }
    }
}

} // verus!
