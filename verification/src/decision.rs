//! What a guard is asked and what it answers: phases, decisions and errors.
use crate::json::{Json, JsonValue};
use crate::text::{decimal, decimal_text};
use crate::tool::{clone_opt_text, opt_text};
use vstd::prelude::*;

verus! {

/// The stage of a message's life at which a guard runs.
#[derive(Debug, Clone, Copy, PartialEq, Eq, Hash, Structural)]
pub enum GuardPhase {
    /// Before a connection to an upstream server is used.
    Connection,
    /// Before a client request is forwarded.
    Request,
    /// After an upstream response was received.
    Response,
    /// On the answer to `tools/list`.
    ToolsList,
    /// On a tool invocation (`tools/call`).
    ToolInvoke,
}

impl Default for GuardPhase {
    fn default() -> (res: GuardPhase)
        ensures
            res == GuardPhase::Request,
    {
        GuardPhase::Request
    }
}

/// What the chain does when a guard fails to give a decision.
#[derive(Debug, Clone, Copy, PartialEq, Eq, Structural)]
pub enum FailureMode {
    /// The chain stops with an error.
    FailClosed,
    /// The failure is passed over and the chain goes on.
    FailOpen,
}

impl Default for FailureMode {
    fn default() -> (res: FailureMode)
        ensures
            res == FailureMode::FailClosed,
    {
        FailureMode::FailClosed
    }
}

/// Why an operation was denied.
#[derive(Debug, PartialEq, Eq)]
pub struct DenyReason {
    /// A short stable code, such as `tool_poisoning_detected`.
    pub code: String,
    /// A message for people.
    pub message: String,
    /// Details for auditing.
    pub details: Option<Json>,
}

/// How a guard wants the payload changed.
#[derive(Debug, PartialEq, Eq)]
pub enum ModifyAction {
    MaskFields(Vec<String>),
    AddWarning(String),
    /// The payload that replaces the one that was evaluated.
    Transform(Json),
}

/// The decision of a guard.
#[derive(Debug, PartialEq, Eq)]
pub enum GuardDecision {
    Allow,
    Deny(DenyReason),
    Modify(ModifyAction),
}

/// What a guard is told about the call it evaluates. `metadata` is JSON text
/// that the gateway passes through unread.
#[derive(Debug)]
pub struct GuardContext {
    pub server_name: String,
    pub identity: Option<String>,
    pub metadata: String,
}

/// Why a guard gave no decision.
#[derive(Debug, PartialEq, Eq)]
pub enum GuardError {
    /// The guard ran longer than the given number of milliseconds.
    Timeout(u64),
    ExecutionError(String),
    ConfigError(String),
    WasmError(String),
}

/// What a guard gives: a decision, or the reason why it gave none.
pub type GuardResult = Result<GuardDecision, GuardError>;

/// The mathematical value of a [`DenyReason`].
pub struct DenyReasonView {
    pub code: Seq<char>,
    pub message: Seq<char>,
    pub details: Option<JsonValue>,
}

/// The mathematical value of a [`ModifyAction`].
pub enum ModifyView {
    MaskFields(Seq<Seq<char>>),
    AddWarning(Seq<char>),
    Transform(JsonValue),
}

/// The mathematical value of a [`GuardDecision`].
pub enum DecisionView {
    Allow,
    Deny(DenyReasonView),
    Modify(ModifyView),
}

/// The mathematical value of a [`GuardError`].
pub enum ErrorView {
    Timeout(u64),
    ExecutionError(Seq<char>),
    ConfigError(Seq<char>),
    WasmError(Seq<char>),
}

/// The mathematical value of a [`GuardContext`].
pub struct ContextView {
    pub server_name: Seq<char>,
    pub identity: Option<Seq<char>>,
    pub metadata: Seq<char>,
}

/// The value of an optional document.
pub open spec fn opt_json(j: Option<Json>) -> Option<JsonValue> {
    match j {
        Some(v) => Some(v@),
        None => None,
    }
}

/// The characters of each text of a list.
pub open spec fn texts_view(v: Seq<String>) -> Seq<Seq<char>> {
    Seq::new(v.len(), |i: int| v[i]@)
}

impl View for DenyReason {
    type V = DenyReasonView;

    open spec fn view(&self) -> DenyReasonView {
        DenyReasonView { code: self.code@, message: self.message@, details: opt_json(self.details) }
    }
}

impl View for ModifyAction {
    type V = ModifyView;

    open spec fn view(&self) -> ModifyView {
        match self {
            ModifyAction::MaskFields(f) => ModifyView::MaskFields(texts_view(f@)),
            ModifyAction::AddWarning(w) => ModifyView::AddWarning(w@),
            ModifyAction::Transform(j) => ModifyView::Transform(j@),
        }
    }
}

impl View for GuardDecision {
    type V = DecisionView;

    open spec fn view(&self) -> DecisionView {
        match self {
            GuardDecision::Allow => DecisionView::Allow,
            GuardDecision::Deny(r) => DecisionView::Deny(r@),
            GuardDecision::Modify(m) => DecisionView::Modify(m@),
        }
    }
}

impl View for GuardError {
    type V = ErrorView;

    open spec fn view(&self) -> ErrorView {
        match self {
            GuardError::Timeout(ms) => ErrorView::Timeout(*ms),
            GuardError::ExecutionError(m) => ErrorView::ExecutionError(m@),
            GuardError::ConfigError(m) => ErrorView::ConfigError(m@),
            GuardError::WasmError(m) => ErrorView::WasmError(m@),
        }
    }
}

impl View for GuardContext {
    type V = ContextView;

    open spec fn view(&self) -> ContextView {
        ContextView {
            server_name: self.server_name@,
            identity: opt_text(self.identity),
            metadata: self.metadata@,
        }
    }
}

/// The value of a guard's result.
pub open spec fn result_view(r: GuardResult) -> Result<DecisionView, ErrorView> {
    match r {
        Ok(d) => Ok(d@),
        Err(e) => Err(e@),
    }
}

impl ErrorView {
    /// The message that describes the error.
    pub open spec fn message(self) -> Seq<char> {
        match self {
            ErrorView::Timeout(ms) => "Guard execution timeout after "@ + decimal(ms as nat)
                + "ms"@,
            ErrorView::ExecutionError(m) => "Guard execution error: "@ + m,
            ErrorView::ConfigError(m) => "Guard configuration error: "@ + m,
            ErrorView::WasmError(m) => "WASM module error: "@ + m,
        }
    }
}

impl GuardError {
    /// The message that describes the error.
    pub fn message(&self) -> (res: String)
        ensures
            res@ == self@.message(),
    {
        match self {
            GuardError::Timeout(ms) => {
                let mut s = "Guard execution timeout after ".to_owned();
                let n = decimal_text(*ms);
                s.append(n.as_str());
                s.append("ms");
                s
            },
            GuardError::ExecutionError(m) => {
                let mut s = "Guard execution error: ".to_owned();
                s.append(m.as_str());
                s
            },
            GuardError::ConfigError(m) => {
                let mut s = "Guard configuration error: ".to_owned();
                s.append(m.as_str());
                s
            },
            GuardError::WasmError(m) => {
                let mut s = "WASM module error: ".to_owned();
                s.append(m.as_str());
                s
            },
        }
    }
}

impl GuardContext {
    /// The context of a call on `server_name`, with no identity and `null`
    /// metadata.
    pub fn for_server(server_name: &str) -> (res: GuardContext)
        ensures
            res@ == (ContextView {
                server_name: server_name@,
                identity: None,
                metadata: "null"@,
            }),
    {
        GuardContext {
            server_name: server_name.to_owned(),
            identity: None,
            metadata: "null".to_owned(),
        }
    }
}

impl Clone for GuardContext {
    fn clone(&self) -> (res: GuardContext)
        ensures
            res@ == self@,
    {
        GuardContext {
            server_name: self.server_name.clone(),
            identity: clone_opt_text(&self.identity),
            metadata: self.metadata.clone(),
        }
    }
}

} // verus!
