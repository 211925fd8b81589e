//! Guards that run as WebAssembly components.
//!
//! The component itself is loaded and called by the host program. This
//! module holds what surrounds the call: the configuration, the arguments
//! that a call is made with, and the reading of what the guest answered.
//! Values that cross the boundary are held as [`WitValue`], the host's plain
//! picture of a value of the component model.
use crate::decision::{
    DecisionView, DenyReason, DenyReasonView, ErrorView, GuardContext, GuardDecision, GuardError,
    ModifyAction, ModifyView, ContextView, opt_json, texts_view,
};
use crate::json::{Json, JsonValue};
use crate::order::{first_where, lemma_first_where_is};
use crate::text::text_eq;
use crate::tool::{opt_text, Tool, ToolView, tools_view};
use vstd::prelude::*;

verus! {

/// The native stack, in bytes, that the host provides for compiling and for
/// calling a component.
pub const NATIVE_STACK_BYTES: usize = 8388608;

/// The interface that the host offers to the guest.
pub const HOST_INTERFACE: &'static str = "mcp:security-guard/host@0.1.0";

/// The interface that the guest offers to the host.
pub const GUARD_INTERFACE: &'static str = "mcp:security-guard/guard@0.1.0";

/// Configuration of a guard that runs as a component. The values of `config`
/// are JSON texts.
#[derive(Debug)]
pub struct WasmGuardConfig {
    /// Path of the component file.
    pub component_path: String,
    /// Memory limit of an instance, in bytes.
    pub max_memory: usize,
    /// Limit of the guest's stack, in bytes.
    pub max_wasm_stack: usize,
    /// The time, in milliseconds, that a call should not exceed.
    pub timeout_ms: u64,
    /// What the guest reads with `get-config`: keys with the JSON text of
    /// their values.
    pub config: Vec<(String, String)>,
}

/// The default memory limit of an instance: 10 MiB.
pub fn default_max_memory() -> (res: usize)
    ensures
        res == 10 * 1024 * 1024,
{
    10485760
}

/// The default limit of the guest's stack: 2 MiB.
pub fn default_max_wasm_stack() -> (res: usize)
    ensures
        res == 2 * 1024 * 1024,
{
    2097152
}

/// The default time of a call, in milliseconds.
pub fn default_timeout_ms() -> (res: u64)
    ensures
        res == 100,
{
    100
}

/// How the host fared when it loaded the component of a guard.
#[derive(Debug)]
pub enum ModuleLoad {
    /// The component was found and compiled.
    Loaded,
    /// The path could not be expanded; with the reason.
    ExpandFailed(String),
    /// No file stands at the expanded path; with that path.
    NotFound(String),
    /// The engine could not be made; with the reason.
    EngineFailed(String),
    /// The component could not be compiled; with the reason.
    CompileFailed(String),
}

/// The mathematical value of a [`ModuleLoad`].
pub enum ModuleLoadView {
    Loaded,
    ExpandFailed(Seq<char>),
    NotFound(Seq<char>),
    EngineFailed(Seq<char>),
    CompileFailed(Seq<char>),
}

impl View for ModuleLoad {
    type V = ModuleLoadView;

    open spec fn view(&self) -> ModuleLoadView {
        match self {
            ModuleLoad::Loaded => ModuleLoadView::Loaded,
            ModuleLoad::ExpandFailed(m) => ModuleLoadView::ExpandFailed(m@),
            ModuleLoad::NotFound(m) => ModuleLoadView::NotFound(m@),
            ModuleLoad::EngineFailed(m) => ModuleLoadView::EngineFailed(m@),
            ModuleLoad::CompileFailed(m) => ModuleLoadView::CompileFailed(m@),
        }
    }
}

/// A value of the component model.
#[derive(Debug, PartialEq, Eq)]
pub enum WitValue {
    Flag(bool),
    Text(String),
    List(Vec<WitValue>),
    Record(Vec<(String, WitValue)>),
    Maybe(Option<Box<WitValue>>),
    Outcome(Result<Option<Box<WitValue>>, Option<Box<WitValue>>>),
    Variant(String, Option<Box<WitValue>>),
    /// A value of a kind that guards do not exchange.
    Other,
}

/// The mathematical value of a [`WitValue`].
#[verifier::ext_equal]
pub enum WitView {
    Flag(bool),
    Text(Seq<char>),
    List(Seq<WitView>),
    Record(Seq<(Seq<char>, WitView)>),
    Maybe(Option<Box<WitView>>),
    Outcome(Result<Option<Box<WitView>>, Option<Box<WitView>>>),
    Variant(Seq<char>, Option<Box<WitView>>),
    Other,
}

/// The mathematical value of a value of the component model.
pub open spec fn wit_value_of(v: WitValue) -> WitView
    decreases v,
{
    match v {
        WitValue::Flag(b) => WitView::Flag(b),
        WitValue::Text(s) => WitView::Text(s@),
        WitValue::List(items) => WitView::List(
            Seq::new(
                items@.len(),
                |i: int|
                    if 0 <= i < items@.len() {
                        wit_value_of(items@[i])
                    } else {
                        WitView::Other
                    },
            ),
        ),
        WitValue::Record(fields) => WitView::Record(
            Seq::new(
                fields@.len(),
                |i: int|
                    if 0 <= i < fields@.len() {
                        (fields@[i].0@, wit_value_of(fields@[i].1))
                    } else {
                        (Seq::empty(), WitView::Other)
                    },
            ),
        ),
        WitValue::Maybe(inner) => WitView::Maybe(
            match inner {
                Some(b) => Some(Box::new(wit_value_of(*b))),
                None => None,
            },
        ),
        WitValue::Outcome(r) => WitView::Outcome(
            match r {
                Ok(Some(b)) => Ok(Some(Box::new(wit_value_of(*b)))),
                Ok(None) => Ok(None),
                Err(Some(b)) => Err(Some(Box::new(wit_value_of(*b)))),
                Err(None) => Err(None),
            },
        ),
        WitValue::Variant(name, payload) => WitView::Variant(
            name@,
            match payload {
                Some(b) => Some(Box::new(wit_value_of(*b))),
                None => None,
            },
        ),
        WitValue::Other => WitView::Other,
    }
}

impl View for WitValue {
    type V = WitView;

    open spec fn view(&self) -> WitView {
        wit_value_of(*self)
    }
}

/// The values of a list of values.
pub open spec fn wit_values(items: Seq<WitValue>) -> Seq<WitView> {
    Seq::new(items.len(), |i: int| items[i]@)
}

/// The names and values of a list of fields.
pub open spec fn wit_fields(fields: Seq<(String, WitValue)>) -> Seq<(Seq<char>, WitView)> {
    Seq::new(fields.len(), |i: int| (fields[i].0@, fields[i].1@))
}

/// The view of a list is the list of its items' views.
pub proof fn lemma_list_view(items: Vec<WitValue>)
    ensures
        WitValue::List(items)@ == WitView::List(wit_values(items@)),
{
    let a = WitValue::List(items)@;
    assert(a is List);
    assert(a->List_0 =~= wit_values(items@));
}

/// The view of a record is the sequence of its fields' names and views.
pub proof fn lemma_record_view(fields: Vec<(String, WitValue)>)
    ensures
        WitValue::Record(fields)@ == WitView::Record(wit_fields(fields@)),
{
    let a = WitValue::Record(fields)@;
    assert(a is Record);
    assert(a->Record_0 =~= wit_fields(fields@));
}

/// A value and its view are of the same kind.
pub proof fn lemma_shape(v: WitValue)
    ensures
        (v is Flag) == (v@ is Flag),
        (v is Text) == (v@ is Text),
        (v is List) == (v@ is List),
        (v is Record) == (v@ is Record),
        (v is Maybe) == (v@ is Maybe),
        (v is Outcome) == (v@ is Outcome),
        (v is Variant) == (v@ is Variant),
        (v is Other) == (v@ is Other),
        v matches WitValue::Text(s) ==> v@ == WitView::Text(s@),
        v matches WitValue::List(items) ==> v@ == WitView::List(wit_values(items@)),
        v matches WitValue::Record(fields) ==> v@ == WitView::Record(wit_fields(fields@)),
{
    match v {
        WitValue::List(items) => {
            lemma_list_view(items);
        },
        WitValue::Record(fields) => {
            lemma_record_view(fields);
        },
        _ => {},
    }
}

/// A call that the host is to make into the guest of a guard.
#[derive(Debug)]
pub struct GuestCall {
    /// The guard whose component is called.
    pub guard_id: String,
    /// The function of the guard interface.
    pub function: String,
    pub args: Vec<WitValue>,
    /// The time, in milliseconds, that the call should not exceed.
    pub timeout_ms: u64,
}

/// The mathematical value of a [`GuestCall`].
pub struct GuestCallView {
    pub guard_id: Seq<char>,
    pub function: Seq<char>,
    pub args: Seq<WitView>,
    pub timeout_ms: u64,
}

impl View for GuestCall {
    type V = GuestCallView;

    open spec fn view(&self) -> GuestCallView {
        GuestCallView {
            guard_id: self.guard_id@,
            function: self.function@,
            args: wit_values(self.args@),
            timeout_ms: self.timeout_ms,
        }
    }
}

/// An optional text as a value of the component model.
pub open spec fn maybe_text(s: Option<Seq<char>>) -> WitView {
    match s {
        Some(t) => WitView::Maybe(Some(Box::new(WitView::Text(t)))),
        None => WitView::Maybe(None),
    }
}

/// A tool as the guest receives it.
pub open spec fn tool_record(tool: ToolView) -> WitView {
    WitView::Record(
        seq![
            ("name"@, WitView::Text(tool.name)),
            ("description"@, maybe_text(tool.description)),
            ("input-schema"@, WitView::Text(tool.input_schema)),
        ],
    )
}

/// The context of a call as the guest receives it.
pub open spec fn context_record(context: ContextView, server_url: Option<Seq<char>>) -> WitView {
    WitView::Record(
        seq![
            ("server-name"@, WitView::Text(context.server_name)),
            ("server-url"@, maybe_text(server_url)),
            ("identity"@, maybe_text(context.identity)),
            ("metadata"@, WitView::Text(context.metadata)),
        ],
    )
}

/// The call that evaluates a list of tools.
pub open spec fn tools_list_call(
    guard_id: Seq<char>,
    timeout_ms: u64,
    tools: Seq<ToolView>,
    context: ContextView,
) -> GuestCallView {
    GuestCallView {
        guard_id,
        function: "evaluate-tools-list"@,
        args: seq![
            WitView::List(Seq::new(tools.len(), |i: int| tool_record(tools[i]))),
            context_record(context, None),
        ],
        timeout_ms,
    }
}

/// The call that evaluates a connection.
pub open spec fn connection_call(
    guard_id: Seq<char>,
    timeout_ms: u64,
    server_url: Option<Seq<char>>,
    context: ContextView,
) -> GuestCallView {
    GuestCallView {
        guard_id,
        function: "evaluate-server-connection"@,
        args: seq![context_record(context, server_url)],
        timeout_ms,
    }
}

/// What a guest decided, before the JSON text that it may carry is parsed.
#[derive(Debug)]
pub enum GuestVerdict {
    Allow,
    /// Denied; `details` is the JSON text of the details.
    Deny { code: String, message: String, details: Option<String> },
    /// The payload is to be replaced; `json` is the JSON text of the new
    /// payload.
    Modify { json: Option<String> },
    /// Allowed, with warnings to be logged.
    Warn(Vec<String>),
}

/// The mathematical value of a [`GuestVerdict`].
pub enum VerdictView {
    Allow,
    Deny { code: Seq<char>, message: Seq<char>, details: Option<Seq<char>> },
    Modify { json: Option<Seq<char>> },
    Warn(Seq<Seq<char>>),
}

impl View for GuestVerdict {
    type V = VerdictView;

    open spec fn view(&self) -> VerdictView {
        match self {
            GuestVerdict::Allow => VerdictView::Allow,
            GuestVerdict::Deny { code, message, details } => VerdictView::Deny {
                code: code@,
                message: message@,
                details: opt_text(*details),
            },
            GuestVerdict::Modify { json } => VerdictView::Modify { json: opt_text(*json) },
            GuestVerdict::Warn(w) => VerdictView::Warn(texts_view(w@)),
        }
    }
}

/// The value of the reading of a guest's answer.
pub open spec fn verdict_result_view(r: Result<GuestVerdict, GuardError>) -> Result<
    VerdictView,
    ErrorView,
> {
    match r {
        Ok(v) => Ok(v@),
        Err(e) => Err(e@),
    }
}

/// The texts among the first `n` items of a list.
pub open spec fn warning_texts(items: Seq<WitView>, n: nat) -> Seq<Seq<char>>
    decreases n,
{
    if n == 0 || n > items.len() {
        Seq::empty()
    } else {
        let head = warning_texts(items, (n - 1) as nat);
        match items[n - 1] {
            WitView::Text(s) => head.push(s),
            _ => head,
        }
    }
}

/// What the first `n` fields of a deny record say: the code, the message and
/// the JSON text of the details. A later field overrides an earlier one of
/// the same name; fields of other names or kinds are passed over.
pub open spec fn deny_fields(fields: Seq<(Seq<char>, WitView)>, n: nat) -> (
    Seq<char>,
    Seq<char>,
    Option<Seq<char>>,
)
    decreases n,
{
    if n == 0 || n > fields.len() {
        ("wasm_denied"@, "Denied by WASM guard"@, None)
    } else {
        let (code, message, details) = deny_fields(fields, (n - 1) as nat);
        let (name, value) = fields[n - 1];
        if name == "code"@ {
            match value {
                WitView::Text(s) => (s, message, details),
                _ => (code, message, details),
            }
        } else if name == "message"@ {
            match value {
                WitView::Text(s) => (code, s, details),
                _ => (code, message, details),
            }
        } else if name == "details"@ {
            match value {
                WitView::Maybe(Some(inner)) => match *inner {
                    WitView::Text(s) => (code, message, Some(s)),
                    _ => (code, message, details),
                },
                _ => (code, message, details),
            }
        } else {
            (code, message, details)
        }
    }
}

/// The reading of the payload of a `deny`.
pub open spec fn parsed_deny(v: WitView) -> Result<VerdictView, ErrorView> {
    match v {
        WitView::Record(fields) => {
            let (code, message, details) = deny_fields(fields, fields.len());
            Ok(VerdictView::Deny { code, message, details })
        },
        _ => Err(ErrorView::WasmError("Expected record for deny reason"@)),
    }
}

/// The reading of a decision: `allow`, `deny`, `modify` or `warn`.
pub open spec fn parsed_variant(v: WitView) -> Result<VerdictView, ErrorView> {
    match v {
        WitView::Variant(name, payload) => {
            if name == "allow"@ {
                Ok(VerdictView::Allow)
            } else if name == "deny"@ {
                match payload {
                    Some(r) => parsed_deny(*r),
                    None => Ok(
                        VerdictView::Deny {
                            code: "wasm_denied"@,
                            message: "Denied by WASM guard"@,
                            details: None,
                        },
                    ),
                }
            } else if name == "modify"@ {
                match payload {
                    Some(p) => match *p {
                        WitView::Text(s) => Ok(VerdictView::Modify { json: Some(s) }),
                        _ => Ok(VerdictView::Modify { json: None }),
                    },
                    None => Ok(VerdictView::Modify { json: None }),
                }
            } else if name == "warn"@ {
                match payload {
                    Some(p) => match *p {
                        WitView::List(items) => Ok(
                            VerdictView::Warn(warning_texts(items, items.len())),
                        ),
                        _ => Ok(VerdictView::Warn(Seq::empty())),
                    },
                    None => Ok(VerdictView::Warn(Seq::empty())),
                }
            } else {
                Err(ErrorView::WasmError("Unknown decision variant: "@ + name))
            }
        },
        _ => Err(ErrorView::WasmError("Expected variant from WASM guard"@)),
    }
}

/// The reading of what a guest returned from an evaluation: a result whose
/// success is a decision and whose failure is a message.
pub open spec fn parsed_decision(result: Seq<WitView>) -> Result<VerdictView, ErrorView> {
    if result.len() == 0 {
        Err(ErrorView::WasmError("Empty result from WASM guard"@))
    } else {
        match result[0] {
            WitView::Outcome(Ok(Some(v))) => parsed_variant(*v),
            WitView::Outcome(Ok(None)) => Ok(VerdictView::Allow),
            WitView::Outcome(Err(Some(e))) => match *e {
                WitView::Text(s) => Err(ErrorView::WasmError(s)),
                _ => Err(ErrorView::WasmError("Unknown error from WASM guard"@)),
            },
            WitView::Outcome(Err(None)) => Err(
                ErrorView::WasmError("Unknown error from WASM guard"@),
            ),
            _ => Err(ErrorView::WasmError("Unexpected return type from WASM guard"@)),
        }
    }
}

/// The reading of what a guest returned from a function that gives a text.
pub open spec fn parsed_text(result: Seq<WitView>, function: Seq<char>) -> Result<
    Seq<char>,
    ErrorView,
> {
    if result.len() > 0 && result[0] is Text {
        Ok(result[0]->Text_0)
    } else {
        Err(ErrorView::WasmError("Expected string from "@ + function))
    }
}

impl VerdictView {
    /// The JSON text that has to be parsed before the decision can be made.
    pub open spec fn json_text(self) -> Option<Seq<char>> {
        match self {
            VerdictView::Deny { details, .. } => details,
            VerdictView::Modify { json } => json,
            _ => None,
        }
    }

    /// The decision, given what parsing the JSON text gave: `None` where
    /// there was no text or where it is not JSON.
    pub open spec fn decision(self, parsed: Option<JsonValue>) -> DecisionView {
        match self {
            VerdictView::Allow => DecisionView::Allow,
            VerdictView::Warn(_) => DecisionView::Allow,
            VerdictView::Deny { code, message, details } => DecisionView::Deny(
                DenyReasonView {
                    code,
                    message,
                    details: if details is Some {
                        parsed
                    } else {
                        None
                    },
                },
            ),
            VerdictView::Modify { json } => DecisionView::Modify(
                ModifyView::Transform(
                    if json is Some && parsed is Some {
                        parsed->Some_0
                    } else {
                        JsonValue::Null
                    },
                ),
            ),
        }
    }
}

/// The level at which a message of the guest is logged.
#[derive(Debug, Clone, Copy, PartialEq, Eq, Structural)]
pub enum LogLevel {
    Trace,
    Debug,
    Info,
    Warn,
    Error,
}

/// The level that the guest names by a number: 0 to 4 for trace to error;
/// any other number for info.
pub open spec fn level_of(level: u8) -> LogLevel {
    if level == 0 {
        LogLevel::Trace
    } else if level == 1 {
        LogLevel::Debug
    } else if level == 3 {
        LogLevel::Warn
    } else if level == 4 {
        LogLevel::Error
    } else {
        LogLevel::Info
    }
}

/// The level that the guest names by a number.
pub fn log_level(level: u8) -> (res: LogLevel)
    ensures
        res == level_of(level),
{
    match level {
        0 => LogLevel::Trace,
        1 => LogLevel::Debug,
        3 => LogLevel::Warn,
        4 => LogLevel::Error,
        _ => LogLevel::Info,
    }
}

/// The keys and texts of a configuration.
pub open spec fn config_view(entries: Seq<(String, String)>) -> Seq<(Seq<char>, Seq<char>)> {
    Seq::new(entries.len(), |i: int| (entries[i].0@, entries[i].1@))
}

/// Whether a configuration entry has the given key.
pub open spec fn has_key(key: Seq<char>) -> spec_fn((Seq<char>, Seq<char>)) -> bool {
    |e: (Seq<char>, Seq<char>)| e.0 == key
}

/// What `get-config` answers: the JSON text of the first entry with the
/// key, or the empty text.
pub open spec fn config_value(entries: Seq<(Seq<char>, Seq<char>)>, key: Seq<char>) -> Seq<char> {
    let at = first_where(entries, has_key(key));
    if at < entries.len() {
        entries[at].1
    } else {
        Seq::empty()
    }
}

/// What `get-config` answers for `key` from the given entries: the JSON
/// text of the first entry with the key, or the empty text.
pub fn config_lookup(entries: &Vec<(String, String)>, key: &str) -> (res: String)
    ensures
        res@ == config_value(config_view(entries@), key@),
{
    let ghost ev = config_view(entries@);
    let ghost keyed = has_key(key@);
    let mut i: usize = 0;
    while i < entries.len()
        invariant
            i <= entries@.len(),
            ev == config_view(entries@),
            keyed == has_key(key@),
            forall|k: int| 0 <= k < i ==> !keyed(#[trigger] ev[k]),
        decreases entries@.len() - i,
    {
        proof {
            assert(ev[i as int] == (entries@[i as int].0@, entries@[i as int].1@));
        }
        if text_eq(entries[i].0.as_str(), key) {
            proof {
                lemma_first_where_is(ev, keyed, i as int);
            }
            return entries[i].1.clone();
        }
        i += 1;
    }
    proof {
        lemma_first_where_is(ev, keyed, ev.len() as int);
    }
    String::new()
}

/// A guard that runs as a component.
pub struct WasmGuard {
    guard_id: String,
    config: WasmGuardConfig,
}

/// The error of a guard that cannot be made from `component_path` and the
/// outcome of loading, if there is one: first an empty path, then what went
/// wrong when loading.
pub open spec fn load_error(component_path: Seq<char>, load: ModuleLoadView) -> Option<ErrorView> {
    if component_path.len() == 0 {
        Some(ErrorView::ConfigError("module_path cannot be empty"@))
    } else {
        match load {
            ModuleLoadView::Loaded => None,
            ModuleLoadView::ExpandFailed(m) => Some(
                ErrorView::ConfigError("Failed to expand path: "@ + m),
            ),
            ModuleLoadView::NotFound(p) => Some(
                ErrorView::ConfigError("WASM module not found: "@ + p),
            ),
            ModuleLoadView::EngineFailed(m) => Some(
                ErrorView::WasmError("Failed to create wasmtime engine: "@ + m),
            ),
            ModuleLoadView::CompileFailed(m) => Some(
                ErrorView::WasmError("Failed to load WASM component: "@ + m),
            ),
        }
    }
}

fn text_value(s: &str) -> (res: WitValue)
    ensures
        res@ == WitView::Text(s@),
{
    WitValue::Text(s.to_owned())
}

fn maybe_text_value(s: &Option<String>) -> (res: WitValue)
    ensures
        res@ == maybe_text(opt_text(*s)),
{
    proof {
        reveal_with_fuel(wit_value_of, 2);
    }
    match s {
        Some(t) => WitValue::Maybe(Some(Box::new(WitValue::Text(t.clone())))),
        None => WitValue::Maybe(None),
    }
}

fn tool_to_record(tool: &Tool) -> (res: WitValue)
    ensures
        res@ == tool_record(tool@),
{
    let mut fields: Vec<(String, WitValue)> = Vec::new();
    fields.push(("name".to_owned(), text_value(tool.name.as_str())));
    fields.push(("description".to_owned(), maybe_text_value(&tool.description)));
    fields.push(("input-schema".to_owned(), text_value(tool.input_schema.as_str())));
    proof {
        lemma_record_view(fields);
        assert(wit_fields(fields@) =~= tool_record(tool@)->Record_0);
    }
    WitValue::Record(fields)
}

fn context_to_record(context: &GuardContext, server_url: &Option<String>) -> (res: WitValue)
    ensures
        res@ == context_record(context@, opt_text(*server_url)),
{
    let mut fields: Vec<(String, WitValue)> = Vec::new();
    fields.push(("server-name".to_owned(), text_value(context.server_name.as_str())));
    fields.push(("server-url".to_owned(), maybe_text_value(server_url)));
    fields.push(("identity".to_owned(), maybe_text_value(&context.identity)));
    fields.push(("metadata".to_owned(), text_value(context.metadata.as_str())));
    proof {
        lemma_record_view(fields);
        assert(wit_fields(fields@) =~= context_record(context@, opt_text(*server_url))->Record_0);
    }
    WitValue::Record(fields)
}

impl WasmGuard {
    /// The identifier of the guard.
    pub closed spec fn guard_id(&self) -> Seq<char> {
        self.guard_id@
    }

    /// The time, in milliseconds, that a call should not exceed.
    pub closed spec fn timeout_ms(&self) -> u64 {
        self.config.timeout_ms
    }

    /// What the guest reads with `get-config`.
    pub closed spec fn settings(&self) -> Seq<(Seq<char>, Seq<char>)> {
        config_view(self.config.config@)
    }

    /// A guard with the given identifier and configuration, whose component
    /// the host loaded with the outcome `load`. Fails if the path is empty
    /// or the component was not loaded.
    pub fn new(guard_id: String, config: WasmGuardConfig, load: ModuleLoad) -> (res: Result<
        WasmGuard,
        GuardError,
    >)
        ensures
            match res {
                Ok(g) => {
                    &&& load_error(config.component_path@, load@) is None
                    &&& g.guard_id() == guard_id@
                    &&& g.timeout_ms() == config.timeout_ms
                    &&& g.settings() == config_view(config.config@)
                },
                Err(e) => load_error(config.component_path@, load@) == Some(e@),
            },
    {
        if config.component_path.as_str().is_empty() {
            return Err(GuardError::ConfigError("module_path cannot be empty".to_owned()));
        }
        match load {
            ModuleLoad::Loaded => Ok(WasmGuard { guard_id, config }),
            ModuleLoad::ExpandFailed(m) => {
                let mut s = "Failed to expand path: ".to_owned();
                s.append(m.as_str());
                Err(GuardError::ConfigError(s))
            },
            ModuleLoad::NotFound(p) => {
                let mut s = "WASM module not found: ".to_owned();
                s.append(p.as_str());
                Err(GuardError::ConfigError(s))
            },
            ModuleLoad::EngineFailed(m) => {
                let mut s = "Failed to create wasmtime engine: ".to_owned();
                s.append(m.as_str());
                Err(GuardError::WasmError(s))
            },
            ModuleLoad::CompileFailed(m) => {
                let mut s = "Failed to load WASM component: ".to_owned();
                s.append(m.as_str());
                Err(GuardError::WasmError(s))
            },
        }
    }

    /// The identifier of the guard.
    pub fn id(&self) -> (res: &str)
        ensures
            res@ == self.guard_id(),
    {
        self.guard_id.as_str()
    }

    /// Whether a call that took `elapsed_ms` milliseconds exceeded the
    /// guard's time.
    pub fn execute_with_timeout(&self, elapsed_ms: u64) -> (res: bool)
        ensures
            res == (elapsed_ms > self.timeout_ms()),
    {
        elapsed_ms > self.config.timeout_ms
    }

    /// What `get-config` answers for `key`.
    pub fn get_config(&self, key: &str) -> (res: String)
        ensures
            res@ == config_value(self.settings(), key@),
    {
        config_lookup(&self.config.config, key)
    }

    /// The call that evaluates a list of tools.
    pub fn evaluate_tools_list(&self, tools: &Vec<Tool>, context: &GuardContext) -> (res: GuestCall)
        ensures
            res@ == tools_list_call(
                self.guard_id(),
                self.timeout_ms(),
                tools_view(tools@),
                context@,
            ),
    {
        let ghost tv = tools_view(tools@);
        let mut records: Vec<WitValue> = Vec::new();
        let mut i: usize = 0;
        while i < tools.len()
            invariant
                i <= tools.len(),
                tv == tools_view(tools@),
                records@.len() == i,
                forall|k: int| 0 <= k < i ==> (#[trigger] records@[k])@ == tool_record(tv[k]),
            decreases tools.len() - i,
        {
            proof {
                assert(tv[i as int] == tools@[i as int]@);
            }
            records.push(tool_to_record(&tools[i]));
            i += 1;
        }
        let mut args: Vec<WitValue> = Vec::new();
        proof {
            lemma_list_view(records);
            assert(wit_values(records@) =~= Seq::new(tv.len(), |i: int| tool_record(tv[i])));
        }
        args.push(WitValue::List(records));
        let no_url: Option<String> = None;
        args.push(context_to_record(context, &no_url));
        let call = GuestCall {
            guard_id: self.guard_id.clone(),
            function: "evaluate-tools-list".to_owned(),
            args,
            timeout_ms: self.config.timeout_ms,
        };
        proof {
            assert(call@.args =~= tools_list_call(
                self.guard_id(),
                self.timeout_ms(),
                tv,
                context@,
            ).args);
        }
        call
    }

    /// The call that evaluates a connection to the server of the context.
    pub fn evaluate_connection(&self, server_url: &Option<String>, context: &GuardContext) -> (res:
        GuestCall)
        ensures
            res@ == connection_call(
                self.guard_id(),
                self.timeout_ms(),
                opt_text(*server_url),
                context@,
            ),
    {
        let mut args: Vec<WitValue> = Vec::new();
        args.push(context_to_record(context, server_url));
        let call = GuestCall {
            guard_id: self.guard_id.clone(),
            function: "evaluate-server-connection".to_owned(),
            args,
            timeout_ms: self.config.timeout_ms,
        };
        proof {
            assert(call@.args =~= connection_call(
                self.guard_id(),
                self.timeout_ms(),
                opt_text(*server_url),
                context@,
            ).args);
        }
        call
    }

    /// The call of a function of the guest that takes nothing and gives a
    /// text, such as `get-settings-schema` and `get-default-config`.
    pub fn call_string_func(&self, func_name: &str) -> (res: GuestCall)
        ensures
            res@ == (GuestCallView {
                guard_id: self.guard_id(),
                function: func_name@,
                args: Seq::empty(),
                timeout_ms: self.timeout_ms(),
            }),
    {
        let call = GuestCall {
            guard_id: self.guard_id.clone(),
            function: func_name.to_owned(),
            args: Vec::new(),
            timeout_ms: self.config.timeout_ms,
        };
        proof {
            assert(call@.args =~= Seq::<WitView>::empty());
        }
        call
    }

    /// The call that asks the guest for the JSON schema of its settings.
    pub fn get_settings_schema(&self) -> (res: GuestCall)
        ensures
            res@ == (GuestCallView {
                guard_id: self.guard_id(),
                function: "get-settings-schema"@,
                args: Seq::empty(),
                timeout_ms: self.timeout_ms(),
            }),
    {
        self.call_string_func("get-settings-schema")
    }

    /// The call that asks the guest for its default configuration.
    pub fn get_default_config(&self) -> (res: GuestCall)
        ensures
            res@ == (GuestCallView {
                guard_id: self.guard_id(),
                function: "get-default-config"@,
                args: Seq::empty(),
                timeout_ms: self.timeout_ms(),
            }),
    {
        self.call_string_func("get-default-config")
    }

    /// Reads what a guest returned from a function that gives a text.
    pub fn parse_string(result: &Vec<WitValue>, func_name: &str) -> (res: Result<String, GuardError>)
        ensures
            match res {
                Ok(s) => parsed_text(wit_values(result@), func_name@) == Ok::<Seq<char>, ErrorView>(
                    s@,
                ),
                Err(e) => parsed_text(wit_values(result@), func_name@) == Err::<
                    Seq<char>,
                    ErrorView,
                >(e@),
            },
    {
        if result.len() > 0 {
            proof {
                assert(wit_values(result@)[0] == result@[0]@);
            }
            match &result[0] {
                WitValue::Text(s) => {
                    return Ok(s.clone());
                },
                WitValue::List(items) => {
                    proof {
                        lemma_list_view(*items);
                    }
                },
                WitValue::Record(fields) => {
                    proof {
                        lemma_record_view(*fields);
                    }
                },
                _ => {},
            }
        }
        let mut m = "Expected string from ".to_owned();
        m.append(func_name);
        Err(GuardError::WasmError(m))
    }

    /// Reads the payload of a `deny`.
    pub fn parse_deny_reason(val: &WitValue) -> (res: Result<GuestVerdict, GuardError>)
        ensures
            verdict_result_view(res) == parsed_deny(val@),
    {
        match val {
            WitValue::Record(fields) => {
                proof {
                    lemma_record_view(*fields);
                }
                let ghost fv = wit_fields(fields@);
                let mut code = "wasm_denied".to_owned();
                let mut message = "Denied by WASM guard".to_owned();
                let mut details: Option<String> = None;
                let mut i: usize = 0;
                while i < fields.len()
                    invariant
                        i <= fields.len(),
                        fv == wit_fields(fields@),
                        (code@, message@, opt_text(details)) == deny_fields(fv, i as nat),
                    decreases fields.len() - i,
                {
                    proof {
                        assert(fv[i as int] == (fields@[i as int].0@, fields@[i as int].1@));
                    }
                    let name = fields[i].0.as_str();
                    let value = &fields[i].1;
                    proof {
                        match value {
                            WitValue::List(items) => {
                                lemma_list_view(*items);
                            },
                            WitValue::Record(inner) => {
                                lemma_record_view(*inner);
                            },
                            _ => {},
                        }
                    }
                    if text_eq(name, "code") {
                        match value {
                            WitValue::Text(s) => {
                                code = s.clone();
                            },
                            _ => {},
                        }
                    } else if text_eq(name, "message") {
                        match value {
                            WitValue::Text(s) => {
                                message = s.clone();
                            },
                            _ => {},
                        }
                    } else if text_eq(name, "details") {
                        match value {
                            WitValue::Maybe(Some(inner)) => {
                                proof {
                                    lemma_shape(**inner);
                                }
                                match &**inner {
                                    WitValue::Text(s) => {
                                        details = Some(s.clone());
                                    },
                                    _ => {},
                                }
                            },
                            _ => {},
                        }
                    }
                    i += 1;
                }
                Ok(GuestVerdict::Deny { code, message, details })
            },
            WitValue::List(items) => {
                proof {
                    lemma_list_view(*items);
                }
                Err(GuardError::WasmError("Expected record for deny reason".to_owned()))
            },
            _ => Err(GuardError::WasmError("Expected record for deny reason".to_owned())),
        }
    }

    /// Reads a decision: `allow`, `deny`, `modify` or `warn`.
    pub fn parse_decision_variant(val: &WitValue) -> (res: Result<GuestVerdict, GuardError>)
        ensures
            verdict_result_view(res) == parsed_variant(val@),
    {
        match val {
            WitValue::Variant(name, payload) => {
                if text_eq(name.as_str(), "allow") {
                    Ok(GuestVerdict::Allow)
                } else if text_eq(name.as_str(), "deny") {
                    match payload {
                        Some(reason) => Self::parse_deny_reason(&**reason),
                        None => Ok(
                            GuestVerdict::Deny {
                                code: "wasm_denied".to_owned(),
                                message: "Denied by WASM guard".to_owned(),
                                details: None,
                            },
                        ),
                    }
                } else if text_eq(name.as_str(), "modify") {
                    match payload {
                        Some(p) => {
                            proof {
                                lemma_shape(**p);
                            }
                            match &**p {
                                WitValue::Text(s) => Ok(GuestVerdict::Modify { json: Some(s.clone()) }),
                                _ => Ok(GuestVerdict::Modify { json: None }),
                            }
                        },
                        None => Ok(GuestVerdict::Modify { json: None }),
                    }
                } else if text_eq(name.as_str(), "warn") {
                    let mut warnings: Vec<String> = Vec::new();
                    match payload {
                        Some(p) => {
                            proof {
                                lemma_shape(**p);
                            }
                            match &**p {
                                WitValue::List(items) => {
                                    let ghost iv = wit_values(items@);
                                    let mut i: usize = 0;
                                    proof {
                                        assert(texts_view(warnings@) =~= warning_texts(iv, 0));
                                    }
                                    while i < items.len()
                                        invariant
                                            i <= items.len(),
                                            iv == wit_values(items@),
                                            texts_view(warnings@) == warning_texts(iv, i as nat),
                                        decreases items.len() - i,
                                    {
                                        let ghost before = texts_view(warnings@);
                                        proof {
                                            assert(iv[i as int] == items@[i as int]@);
                                            match items@[i as int] {
                                                WitValue::List(inner) => {
                                                    lemma_list_view(inner);
                                                },
                                                WitValue::Record(r) => {
                                                    lemma_record_view(r);
                                                },
                                                _ => {},
                                            }
                                        }
                                        match &items[i] {
                                            WitValue::Text(s) => {
                                                warnings.push(s.clone());
                                                proof {
                                                    assert(texts_view(warnings@) =~= before.push(
                                                        s@,
                                                    ));
                                                }
                                            },
                                            _ => {},
                                        }
                                        i += 1;
                                    }
                                },
                                _ => {
                                    proof {
                                        assert(texts_view(warnings@) =~= Seq::<Seq<char>>::empty());
                                    }
                                },
                            }
                        },
                        None => {
                            proof {
                                assert(texts_view(warnings@) =~= Seq::<Seq<char>>::empty());
                            }
                        },
                    }
                    Ok(GuestVerdict::Warn(warnings))
                } else {
                    let mut m = "Unknown decision variant: ".to_owned();
                    m.append(name.as_str());
                    Err(GuardError::WasmError(m))
                }
            },
            WitValue::List(items) => {
                proof {
                    lemma_list_view(*items);
                }
                Err(GuardError::WasmError("Expected variant from WASM guard".to_owned()))
            },
            WitValue::Record(fields) => {
                proof {
                    lemma_record_view(*fields);
                }
                Err(GuardError::WasmError("Expected variant from WASM guard".to_owned()))
            },
            _ => Err(GuardError::WasmError("Expected variant from WASM guard".to_owned())),
        }
    }

    /// Reads what a guest returned from an evaluation.
    pub fn parse_decision(result: &Vec<WitValue>) -> (res: Result<GuestVerdict, GuardError>)
        ensures
            verdict_result_view(res) == parsed_decision(wit_values(result@)),
    {
        if result.len() == 0 {
            return Err(GuardError::WasmError("Empty result from WASM guard".to_owned()));
        }
        proof {
            assert(wit_values(result@)[0] == result@[0]@);
        }
        match &result[0] {
            WitValue::Outcome(Ok(Some(decision))) => Self::parse_decision_variant(&**decision),
            WitValue::Outcome(Ok(None)) => Ok(GuestVerdict::Allow),
            WitValue::Outcome(Err(Some(e))) => {
                proof {
                    lemma_shape(**e);
                }
                match &**e {
                    WitValue::Text(s) => Err(GuardError::WasmError(s.clone())),
                    _ => Err(GuardError::WasmError("Unknown error from WASM guard".to_owned())),
                }
            },
            WitValue::Outcome(Err(None)) => Err(
                GuardError::WasmError("Unknown error from WASM guard".to_owned()),
            ),
            WitValue::List(items) => {
                proof {
                    lemma_list_view(*items);
                }
                Err(GuardError::WasmError("Unexpected return type from WASM guard".to_owned()))
            },
            WitValue::Record(fields) => {
                proof {
                    lemma_record_view(*fields);
                }
                Err(GuardError::WasmError("Unexpected return type from WASM guard".to_owned()))
            },
            _ => Err(GuardError::WasmError("Unexpected return type from WASM guard".to_owned())),
        }
    }
}

impl GuestVerdict {
    /// The JSON text that has to be parsed before the decision can be made.
    pub fn json_text(&self) -> (res: Option<&str>)
        ensures
            match res {
                Some(s) => self@.json_text() == Some(s@),
                None => self@.json_text() is None,
            },
    {
        match self {
            GuestVerdict::Deny { details, .. } => match details {
                Some(d) => Some(d.as_str()),
                None => None,
            },
            GuestVerdict::Modify { json } => match json {
                Some(j) => Some(j.as_str()),
                None => None,
            },
            _ => None,
        }
    }

    /// The warnings that the guest wants logged.
    pub fn warnings(&self) -> (res: Vec<String>)
        ensures
            texts_view(res@) == match self@ {
                VerdictView::Warn(w) => w,
                _ => Seq::empty(),
            },
    {
        match self {
            GuestVerdict::Warn(w) => {
                let out = crate::text::clone_texts(w);
                proof {
                    assert(texts_view(out@) =~= texts_view(w@));
                }
                out
            },
            _ => {
                let out: Vec<String> = Vec::new();
                proof {
                    assert(texts_view(out@) =~= Seq::<Seq<char>>::empty());
                }
                out
            },
        }
    }

    /// The decision, given what parsing the JSON text gave: `None` where
    /// there was no text or where it is not JSON.
    pub fn into_decision(self, parsed: Option<Json>) -> (res: GuardDecision)
        ensures
            res@ == self@.decision(opt_json(parsed)),
    {
        match self {
            GuestVerdict::Allow => GuardDecision::Allow,
            GuestVerdict::Warn(_) => GuardDecision::Allow,
            GuestVerdict::Deny { code, message, details } => {
                let details = match details {
                    Some(_) => parsed,
                    None => None,
                };
                GuardDecision::Deny(DenyReason { code, message, details })
            },
            GuestVerdict::Modify { json } => {
                let value = match (json, parsed) {
                    (Some(_), Some(v)) => v,
                    _ => Json::Null,
                };
                GuardDecision::Modify(ModifyAction::Transform(value))
            },
        }
    }
}

} // verus!
