//! The relay between one client and the upstream servers of a backend.
//!
//! The relay names the resources of several upstreams apart, merges what the
//! upstreams list, and says what becomes of a message once the guards have
//! decided on it. Sending and receiving is the host's part: it hands the
//! relay what it received, and does what the relay answers.
use crate::decision::{
    ContextView, DecisionView, ErrorView, GuardContext, GuardDecision, GuardResult, ModifyAction,
    ModifyView, result_view,
};
use crate::executor::{chain, EntryView, Evaluation, GuardExecutor, LogView};
use crate::guard::{InputView, McpSecurityGuard, reset_guard};
use crate::json::{Json, JsonValue};
use crate::order::{first_where, lemma_first_where_is};
use crate::registry::GuardExecutorRegistry;
use crate::text::{
    bytes_of, lemma_boundary_by_byte, lemma_encode_concat, lemma_underscore_encoding,
    lemma_underscore_in_bytes, lex_less, text_eq, text_less, UNDERSCORE,
};
use crate::tool::{clone_opt_text, opt_text, Tool, ToolView, tools_view};
use vstd::prelude::*;
use vstd::string::StringSliceAdditionalSpecFns;
use vstd::utf8::{decode_utf8, encode_utf8, is_char_boundary};

verus! {

/// What stands between the name of an upstream and the name of one of its
/// resources.
pub const DELIMITER: &'static str = "_";

/// The code of the JSON-RPC error that replaces a response that a guard
/// denied.
pub const GUARD_DENIED_CODE: i32 = -32001;

/// What the gateway says of itself when it answers for several upstreams.
pub const INSTRUCTIONS: &'static str =
    "This server is a gateway to a set of mcp servers. It is responsible for routing requests to the correct server and aggregating the results.";

/// Why a request cannot be sent upstream.
#[derive(Debug, PartialEq, Eq)]
pub enum UpstreamError {
    InvalidRequest(String),
    InvalidMethod(String),
}

/// The mathematical value of an [`UpstreamError`].
pub enum UpstreamErrorView {
    InvalidRequest(Seq<char>),
    InvalidMethod(Seq<char>),
}

impl View for UpstreamError {
    type V = UpstreamErrorView;

    open spec fn view(&self) -> UpstreamErrorView {
        match self {
            UpstreamError::InvalidRequest(m) => UpstreamErrorView::InvalidRequest(m@),
            UpstreamError::InvalidMethod(m) => UpstreamErrorView::InvalidMethod(m@),
        }
    }
}

/// Why a merge failed.
#[derive(Debug, PartialEq, Eq)]
pub struct ClientError {
    pub message: String,
}

/// One upstream server of a backend.
#[derive(Debug)]
pub struct UpstreamTarget {
    pub name: String,
    /// Whether the names of the resources of this upstream are prefixed even
    /// when it is the only one.
    pub always_use_prefix: bool,
}

/// A backend: its upstream servers and its guards.
#[derive(Debug)]
pub struct McpBackendGroup {
    pub name: String,
    pub targets: Vec<UpstreamTarget>,
    pub security_guards: Vec<McpSecurityGuard>,
}

/// The session that an upstream keeps for a client.
#[derive(Debug, PartialEq, Eq)]
pub struct MCPSession {
    pub session: String,
    pub backend: Option<String>,
}

/// How far an upstream has come, as the relay sees it.
#[derive(Debug, Clone, Copy, PartialEq, Eq, Structural)]
pub enum UpstreamState {
    New,
    Initialized,
    BaselineEstablished,
    Serving,
    Blocked,
}

/// What the relay sees happen to an upstream.
#[derive(Debug, Clone, Copy, PartialEq, Eq, Structural)]
pub enum UpstreamEvent {
    /// The guards allowed the connection.
    ConnectionAllowed,
    /// The guards allowed the first list of tools.
    BaselineAllowed,
    /// A request was served.
    Served,
    /// The rug-pull guard denied: the tools changed, or the server is
    /// blocked already.
    RugPullDenied,
    /// The state of the guards for the upstream was reset.
    Reset,
}

/// The state after an event. A blocked upstream stays blocked until it is
/// reset; the other states follow one another as the upstream is set up.
pub open spec fn next_state(state: UpstreamState, event: UpstreamEvent) -> UpstreamState {
    match (state, event) {
        (_, UpstreamEvent::Reset) => UpstreamState::New,
        (UpstreamState::Blocked, _) => UpstreamState::Blocked,
        (_, UpstreamEvent::RugPullDenied) => UpstreamState::Blocked,
        (UpstreamState::New, UpstreamEvent::ConnectionAllowed) => UpstreamState::Initialized,
        (UpstreamState::Initialized, UpstreamEvent::BaselineAllowed) => {
            UpstreamState::BaselineEstablished
        },
        (UpstreamState::BaselineEstablished, UpstreamEvent::Served) => UpstreamState::Serving,
        (s, _) => s,
    }
}

impl UpstreamState {
    /// The state after an event.
    pub fn next(self, event: UpstreamEvent) -> (res: UpstreamState)
        ensures
            res == next_state(self, event),
    {
        match (self, event) {
            (_, UpstreamEvent::Reset) => UpstreamState::New,
            (UpstreamState::Blocked, _) => UpstreamState::Blocked,
            (_, UpstreamEvent::RugPullDenied) => UpstreamState::Blocked,
            (UpstreamState::New, UpstreamEvent::ConnectionAllowed) => UpstreamState::Initialized,
            (UpstreamState::Initialized, UpstreamEvent::BaselineAllowed) => {
                UpstreamState::BaselineEstablished
            },
            (UpstreamState::BaselineEstablished, UpstreamEvent::Served) => UpstreamState::Serving,
            (s, _) => s,
        }
    }
}

/// Whether a character is the delimiter.
pub open spec fn is_delimiter() -> spec_fn(char) -> bool {
    |c: char| c == '_'
}

/// The name under which the resource `name` of the upstream `target` goes
/// out to the client: the bare name if there is a default target, else the
/// name of the upstream, the delimiter and the name.
pub open spec fn formatted_name(default: Option<Seq<char>>, target: Seq<char>, name: Seq<char>)
    -> Seq<char> {
    match default {
        None => target + "_"@ + name,
        Some(_) => name,
    }
}

/// The upstream and the resource that a name from the client stands for:
/// with a default target, that target and the whole name; else what stands
/// before and behind the first delimiter, if there is one.
pub open spec fn parsed_name(default: Option<Seq<char>>, res: Seq<char>) -> Option<
    (Seq<char>, Seq<char>),
> {
    match default {
        Some(d) => Some((d, res)),
        None => {
            let at = first_where(res, is_delimiter());
            if at < res.len() {
                Some((res.subrange(0, at), res.subrange(at + 1, res.len() as int)))
            } else {
                None
            }
        },
    }
}

/// Naming round trip: what goes out under a name comes back as the same
/// upstream and resource, provided that in multiplex mode the name of the
/// upstream holds no delimiter.
pub proof fn law_naming_round_trip(default: Option<Seq<char>>, target: Seq<char>, name: Seq<char>)
    requires
        default is None ==> !target.contains('_'),
        default matches Some(d) ==> d == target,
    ensures
        parsed_name(default, formatted_name(default, target, name)) == Some((target, name)),
{
    if default is None {
        reveal_strlit("_");
        let s = target + "_"@ + name;
        assert("_"@ =~= seq!['_']);
        assert forall|i: int| 0 <= i < target.len() implies !is_delimiter()(#[trigger] s[i]) by {
            assert(s[i] == target[i]);
            if s[i] == '_' {
                assert(target.contains('_'));
            }
        }
        assert(s[target.len() as int] == '_');
        lemma_first_where_is(s, is_delimiter(), target.len() as int);
        assert(s.subrange(0, target.len() as int) =~= target);
        assert(s.subrange(target.len() as int + 1, s.len() as int) =~= name);
    }
}

/// The name under which a resource of an upstream goes out to the client.
pub fn resource_name(default_target_name: Option<&String>, target: &str, name: &str) -> (res: String)
    ensures
        res@ == formatted_name(
            match default_target_name {
                Some(d) => Some(d@),
                None => None,
            },
            target@,
            name@,
        ),
{
    match default_target_name {
        None => {
            let mut s = target.to_owned();
            s.append(DELIMITER);
            s.append(name);
            s
        },
        Some(_) => name.to_owned(),
    }
}

/// What the gateway tells a client about itself.
#[derive(Debug, PartialEq, Eq)]
pub struct ServerInfo {
    pub protocol_version: String,
    pub tools: bool,
    pub prompts: bool,
    pub resources: bool,
    pub instructions: String,
}

/// What a client is told when it initializes: the answer of its one
/// upstream, or what the gateway says of itself.
#[derive(Debug, PartialEq, Eq)]
pub enum InitializeAnswer {
    /// The initialize result of the upstream at this position is forwarded
    /// as it is.
    Forward(usize),
    Synthesized(ServerInfo),
}

/// The position of the least text of `versions`, in the order of
/// dictionaries, among the first `n`; of equal texts the first. None where
/// no text is present.
pub open spec fn least_version(versions: Seq<Option<Seq<char>>>, n: nat) -> Option<int>
    decreases n,
{
    if n == 0 || n > versions.len() {
        None
    } else {
        let before = least_version(versions, (n - 1) as nat);
        match versions[n - 1] {
            None => before,
            Some(v) => match before {
                None => Some(n - 1),
                Some(b) => if lex_less(bytes_of(v), bytes_of(versions[b]->Some_0)) {
                    Some(n - 1)
                } else {
                    before
                },
            },
        }
    }
}

/// The protocol versions that the upstreams answered with.
pub open spec fn versions_view(results: Seq<Option<String>>) -> Seq<Option<Seq<char>>> {
    Seq::new(results.len(), |i: int| opt_text(results[i]))
}

/// A prompt of an upstream.
#[derive(Debug, PartialEq, Eq)]
pub struct Prompt {
    pub name: String,
    pub description: Option<String>,
}

/// A resource of an upstream.
#[derive(Debug, PartialEq, Eq)]
pub struct Resource {
    pub uri: String,
    pub name: String,
}

/// A resource template of an upstream.
#[derive(Debug, PartialEq, Eq)]
pub struct ResourceTemplate {
    pub uri_template: String,
    pub name: String,
}

/// Whether the item at position `i` is allowed: the host's authorization
/// policy said so.
pub open spec fn allowed_at(allowed: Seq<bool>, i: int) -> bool {
    0 <= i < allowed.len() && allowed[i]
}

/// The first `n` tools of an upstream as they go out to the client: those
/// that are allowed, under their outward names.
pub open spec fn outgoing_tools(
    default: Option<Seq<char>>,
    server: Seq<char>,
    tools: Seq<ToolView>,
    allowed: Seq<bool>,
    n: nat,
) -> Seq<ToolView>
    decreases n,
{
    if n == 0 || n > tools.len() {
        Seq::empty()
    } else {
        let head = outgoing_tools(default, server, tools, allowed, (n - 1) as nat);
        if allowed_at(allowed, n - 1) {
            head.push(
                ToolView { name: formatted_name(default, server, tools[n - 1].name), ..tools[n - 1] },
            )
        } else {
            head
        }
    }
}

/// The message of a merge that a guard denied.
pub open spec fn merge_denied_text(server: Seq<char>, code: Seq<char>, message: Seq<char>) -> Seq<
    char,
> {
    "Security guard denied for server '"@ + server + "': "@ + code + " - "@ + message
}

/// The message of a merge for which the guards failed.
pub open spec fn merge_failed_text(server: Seq<char>, e: ErrorView) -> Seq<char> {
    "Security guard failed for server '"@ + server + "': "@ + e.message()
}

/// What the list of one upstream adds to a merged list of tools, given what
/// the guards decided on the list: a denial or a failure of the guards
/// fails the whole merge; else the allowed tools are added under their
/// outward names.
pub open spec fn merged_tools(
    default: Option<Seq<char>>,
    merged: Seq<ToolView>,
    server: Seq<char>,
    tools: Seq<ToolView>,
    allowed: Seq<bool>,
    decision: Result<DecisionView, ErrorView>,
) -> Result<Seq<ToolView>, Seq<char>> {
    match decision {
        Ok(DecisionView::Deny(r)) => Err(merge_denied_text(server, r.code, r.message)),
        Err(e) => Err(merge_failed_text(server, e)),
        Ok(_) => Ok(merged + outgoing_tools(default, server, tools, allowed, tools.len())),
    }
}

/// What becomes of a response on which the guards have decided.
#[derive(Debug, PartialEq, Eq)]
pub enum MessageAction {
    /// The response goes to the client as it is.
    Forward,
    /// A JSON-RPC error with this code and message goes to the client in
    /// the place of the response, under the identifier of the request.
    ReplaceWithError { code: i32, message: String },
    /// This payload goes to the client in the place of the response, if it
    /// can be read as a message; else the response goes as it is.
    Substitute(Json),
}

/// The mathematical value of a [`MessageAction`].
pub enum MessageActionView {
    Forward,
    ReplaceWithError { code: i32, message: Seq<char> },
    Substitute(JsonValue),
}

impl View for MessageAction {
    type V = MessageActionView;

    open spec fn view(&self) -> MessageActionView {
        match self {
            MessageAction::Forward => MessageActionView::Forward,
            MessageAction::ReplaceWithError { code, message } => {
                MessageActionView::ReplaceWithError { code: *code, message: message@ }
            },
            MessageAction::Substitute(j) => MessageActionView::Substitute(j@),
        }
    }
}

/// What becomes of a response, given what the guards decided on it.
pub open spec fn message_action(decision: Result<DecisionView, ErrorView>) -> Result<
    MessageActionView,
    Seq<char>,
> {
    match decision {
        Ok(DecisionView::Allow) => Ok(MessageActionView::Forward),
        Ok(DecisionView::Deny(r)) => Ok(
            MessageActionView::ReplaceWithError {
                code: GUARD_DENIED_CODE,
                message: "Security guard denied: "@ + r.message,
            },
        ),
        Ok(DecisionView::Modify(ModifyView::Transform(v))) => Ok(MessageActionView::Substitute(v)),
        Ok(DecisionView::Modify(_)) => Ok(MessageActionView::Forward),
        Err(e) => Err("Guard evaluation error: "@ + e.message()),
    }
}

/// What becomes of a response, given what the guards decided on it.
pub fn evaluate_server_message(decision: GuardResult) -> (res: Result<MessageAction, String>)
    ensures
        match res {
            Ok(a) => message_action(result_view(decision)) == Ok::<MessageActionView, Seq<char>>(
                a@,
            ),
            Err(m) => message_action(result_view(decision)) == Err::<MessageActionView, Seq<char>>(
                m@,
            ),
        },
{
    match decision {
        Ok(GuardDecision::Allow) => Ok(MessageAction::Forward),
        Ok(GuardDecision::Deny(reason)) => {
            let mut message = "Security guard denied: ".to_owned();
            message.append(reason.message.as_str());
            Ok(MessageAction::ReplaceWithError { code: GUARD_DENIED_CODE, message })
        },
        Ok(GuardDecision::Modify(ModifyAction::Transform(v))) => Ok(MessageAction::Substitute(v)),
        Ok(GuardDecision::Modify(_)) => Ok(MessageAction::Forward),
        Err(e) => {
            let mut message = "Guard evaluation error: ".to_owned();
            message.append(e.message().as_str());
            Err(message)
        },
    }
}

/// What the host is to do next when it establishes the baselines of the
/// upstreams.
#[derive(Debug, Clone, Copy, PartialEq, Eq, Structural)]
pub enum BaselineStep {
    /// Run the guards of the connection phase on the upstream at this
    /// position.
    CheckConnection(usize),
    /// Ask the upstream at this position for its tools, and run the guards
    /// on the list.
    SeedTools(usize),
    /// All upstreams were gone through.
    Done,
}

/// What the host found when it did a step.
#[derive(Debug, Clone, Copy, PartialEq, Eq, Structural)]
pub enum BaselineFinding {
    /// The guards allowed, or asked for a change.
    Passed,
    /// The guards denied.
    Denied,
    /// The guards failed, or the upstream did not answer.
    Failed,
}

/// The step at the upstream `at`, or the end if there is no such upstream.
pub open spec fn check_or_done(count: int, at: int) -> BaselineStep {
    if 0 <= at < count {
        BaselineStep::CheckConnection(at as usize)
    } else {
        BaselineStep::Done
    }
}

/// The step that follows `step`, given what the host found. An upstream
/// whose connection is denied or fails is passed over; after the tools of
/// an upstream were seeded, whatever the guards said of them, the next
/// upstream follows.
pub open spec fn next_baseline_step(count: int, step: BaselineStep, finding: BaselineFinding)
    -> BaselineStep {
    match step {
        BaselineStep::CheckConnection(at) => if at >= count {
            BaselineStep::Done
        } else if finding == BaselineFinding::Passed {
            BaselineStep::SeedTools(at)
        } else {
            check_or_done(count, at + 1)
        },
        BaselineStep::SeedTools(at) => check_or_done(count, at + 1),
        BaselineStep::Done => BaselineStep::Done,
    }
}

/// What the relay holds of one upstream.
struct UpstreamSlot {
    target: UpstreamTarget,
    session: Option<MCPSession>,
    state: UpstreamState,
}

/// The relay of one session.
pub struct Relay {
    upstreams: Vec<UpstreamSlot>,
    default_target_name: Option<String>,
    is_multiplexing: bool,
    backend: String,
    shared_guards: bool,
}

/// Whether an upstream has the given name.
pub open spec fn is_upstream(name: Seq<char>) -> spec_fn(Seq<char>) -> bool {
    |n: Seq<char>| n == name
}

impl Relay {
    /// The names of the upstreams, in their order.
    pub closed spec fn names(&self) -> Seq<Seq<char>> {
        Seq::new(self.upstreams@.len(), |i: int| self.upstreams@[i].target.name@)
    }

    /// The name of the one upstream whose resources go out under their bare
    /// names, if there is such an upstream.
    pub closed spec fn default_target(&self) -> Option<Seq<char>> {
        opt_text(self.default_target_name)
    }

    /// Whether the relay stands before several upstreams, or before none.
    pub closed spec fn multiplexing(&self) -> bool {
        self.is_multiplexing
    }

    /// The states of the upstreams.
    pub closed spec fn states(&self) -> Seq<UpstreamState> {
        Seq::new(self.upstreams@.len(), |i: int| self.upstreams@[i].state)
    }

    /// The name of the backend.
    pub closed spec fn backend(&self) -> Seq<char> {
        self.backend@
    }

    /// Whether the relay works on the executor that the registry holds for
    /// its backend.
    pub closed spec fn shares_guards(&self) -> bool {
        self.shared_guards
    }

    /// The relay of a backend.
    ///
    /// With exactly one upstream that does not ask for its prefix, that
    /// upstream is the default target. The guards are those that the
    /// registry holds for the backend; if it holds none yet, they are made
    /// from the backend's configurations. Where they cannot be made, the
    /// relay works without guards.
    pub fn new(backend: McpBackendGroup, guard_registry: &mut GuardExecutorRegistry) -> (res: Relay)
        ensures
            res.names() == Seq::new(
                backend.targets@.len(),
                |i: int| backend.targets@[i].name@,
            ),
            res.multiplexing() == (backend.targets@.len() != 1),
            res.default_target() == if backend.targets@.len() == 1
                && !backend.targets@[0].always_use_prefix {
                Some(backend.targets@[0].name@)
            } else {
                None
            },
            res.backend() == backend.name@,
            res.states() == Seq::new(backend.targets@.len(), |i: int| UpstreamState::New),
            ({
                let before = old(guard_registry).backends();
                let cv = crate::guard::configs_view(backend.security_guards@);
                let known = crate::registry::backend_position(before, backend.name@) < before.len();
                let made = crate::executor::first_failure(cv) >= cv.len();
                &&& res.shares_guards() == (known || made)
                &&& final(guard_registry).backends() == if !known && made {
                    before.push(crate::registry::new_backend(backend.name@, cv))
                } else {
                    before
                }
            }),
    {
        let McpBackendGroup { name, targets, security_guards } = backend;
        let is_multiplexing = targets.len() != 1;
        let default_target_name = if targets.len() != 1 {
            None
        } else if targets[0].always_use_prefix {
            None
        } else {
            Some(targets[0].name.clone())
        };
        let shared_guards = match guard_registry.get_or_create(name.as_str(), security_guards) {
            Ok(_) => true,
            Err(_) => false,
        };
        let mut upstreams: Vec<UpstreamSlot> = Vec::new();
        let mut rest = targets;
        let ghost all = rest@;
        let mut i: usize = 0;
        while rest.len() > 0
            invariant
                i + rest@.len() == all.len(),
                rest@ == all.subrange(i as int, all.len() as int),
                upstreams@.len() == i,
                forall|k: int|
                    0 <= k < i ==> (#[trigger] upstreams@[k]).target.name@ == all[k].name@
                        && upstreams@[k].state == UpstreamState::New,
            decreases rest@.len(),
        {
            let ghost old_rest = rest@;
            let target = rest.remove(0);
            proof {
                assert(target == old_rest[0]);
                assert(rest@ =~= all.subrange(i + 1, all.len() as int));
            }
            upstreams.push(UpstreamSlot { target, session: None, state: UpstreamState::New });
            i += 1;
        }
        let relay = Relay {
            upstreams,
            default_target_name,
            is_multiplexing,
            backend: name,
            shared_guards,
        };
        proof {
            assert(relay.states() =~= Seq::new(
                backend.targets@.len(),
                |i: int| UpstreamState::New,
            ));
            assert(relay.names() =~= Seq::new(
                backend.targets@.len(),
                |i: int| backend.targets@[i].name@,
            ));
        }
        relay
    }

    /// The upstream and the resource that a name from the client stands
    /// for. Fails if there is no default target and the name holds no
    /// delimiter.
    pub fn parse_resource_name<'a, 'b: 'a>(&'a self, res: &'b str) -> (out: Result<
        (&'a str, &'b str),
        UpstreamError,
    >)
        ensures
            match out {
                Ok(p) => parsed_name(self.default_target(), res@) == Some((p.0@, p.1@)),
                Err(e) => parsed_name(self.default_target(), res@) is None && e@
                    == UpstreamErrorView::InvalidRequest("invalid resource name"@),
            },
    {
        broadcast use vstd::utf8::encode_utf8_valid_utf8;
        broadcast use vstd::utf8::encode_utf8_decode_utf8;

        match &self.default_target_name {
            Some(default) => Ok((default.as_str(), res)),
            None => {
                let bytes = res.as_bytes();
                let mut i: usize = 0;
                while i < bytes.len() && bytes[i] != UNDERSCORE
                    invariant
                        i <= bytes@.len(),
                        forall|k: int| 0 <= k < i ==> bytes@[k] != UNDERSCORE,
                    decreases bytes@.len() - i,
                {
                    i += 1;
                }
                if i == bytes.len() {
                    proof {
                        if res@.contains('_') {
                            lemma_underscore_in_bytes(res@);
                            let j = choose|j: int| 0 <= j < bytes@.len() && bytes@[j] == UNDERSCORE;
                            assert(bytes@[j] != UNDERSCORE);
                        }
                        assert forall|k: int| 0 <= k < res@.len() implies !is_delimiter()(
                            #[trigger] res@[k],
                        ) by {
                            if res@[k] == '_' {
                                assert(res@.contains('_'));
                            }
                        }
                        lemma_first_where_is(res@, is_delimiter(), res@.len() as int);
                    }
                    return Err(UpstreamError::InvalidRequest("invalid resource name".to_owned()));
                }
                proof {
                    lemma_boundary_by_byte(bytes@, i as int);
                }
                let (target, rest) = res.split_at(i);
                let ghost rest_bytes = rest.spec_bytes();
                proof {
                    assert(rest_bytes[0] == bytes@[i as int]);
                    assert(vstd::utf8::is_leading_byte_width_1(rest_bytes[0]));
                    reveal_with_fuel(is_char_boundary, 2);
                    assert(vstd::utf8::length_of_first_scalar(rest_bytes) == 1);
                    assert(is_char_boundary(rest_bytes, 1));
                }
                let (_, name) = rest.split_at(1);
                proof {
                    let t = target@;
                    let n = name@;
                    let tail = name.spec_bytes();
                    lemma_underscore_encoding();
                    // The rest is the delimiter followed by the name.
                    lemma_encode_concat(seq!['_'], n);
                    assert(rest_bytes =~= seq![UNDERSCORE] + tail);
                    assert(encode_utf8(seq!['_'] + n) == rest_bytes);
                    assert(decode_utf8(encode_utf8(rest@)) == rest@);
                    assert(decode_utf8(encode_utf8(seq!['_'] + n)) == seq!['_'] + n);
                    assert(rest@ == seq!['_'] + n);
                    // The whole is the target followed by the rest.
                    lemma_encode_concat(t, rest@);
                    assert(bytes@ =~= target.spec_bytes() + rest_bytes);
                    assert(encode_utf8(t + rest@) == bytes@);
                    assert(decode_utf8(encode_utf8(res@)) == res@);
                    assert(decode_utf8(encode_utf8(t + rest@)) == t + rest@);
                    assert(res@ == t + rest@);
                    // The target holds no delimiter.
                    if t.contains('_') {
                        lemma_underscore_in_bytes(t);
                        let j = choose|j: int|
                            0 <= j < target.spec_bytes().len() && target.spec_bytes()[j]
                                == UNDERSCORE;
                        assert(bytes@[j] == target.spec_bytes()[j]);
                    }
                    assert forall|k: int| 0 <= k < t.len() implies !is_delimiter()(
                        #[trigger] res@[k],
                    ) by {
                        assert(res@[k] == t[k]);
                        if t[k] == '_' {
                            assert(t.contains('_'));
                        }
                    }
                    assert(res@[t.len() as int] == '_');
                    lemma_first_where_is(res@, is_delimiter(), t.len() as int);
                    assert(res@.subrange(0, t.len() as int) =~= t);
                    assert(res@.subrange(t.len() as int + 1, res@.len() as int) =~= n);
                }
                Ok((target, name))
            },
        }
    }

    /// The number of upstreams.
    pub fn count(&self) -> (res: usize)
        ensures
            res == self.names().len(),
    {
        self.upstreams.len()
    }

    /// Whether the relay stands before several upstreams, or before none.
    pub fn is_multiplexing(&self) -> (res: bool)
        ensures
            res == self.multiplexing(),
    {
        self.is_multiplexing
    }

    /// The name of the default target, if there is one.
    pub fn default_target_name(&self) -> (res: Option<String>)
        ensures
            opt_text(res) == self.default_target(),
    {
        clone_opt_text(&self.default_target_name)
    }

    /// The name of the backend, under which the registry holds the guards.
    pub fn backend_name(&self) -> (res: &str)
        ensures
            res@ == self.backend(),
    {
        self.backend.as_str()
    }

    /// Whether the relay works on the executor that the registry holds for
    /// its backend. A relay for which no guards could be made works without
    /// guards.
    pub fn has_shared_guards(&self) -> (res: bool)
        ensures
            res == self.shares_guards(),
    {
        self.shared_guards
    }

    /// The name of the upstream at a position.
    pub fn upstream_name(&self, at: usize) -> (res: Option<&str>)
        ensures
            match res {
                Some(n) => at < self.names().len() && n@ == self.names()[at as int],
                None => at >= self.names().len(),
            },
    {
        if at < self.upstreams.len() {
            Some(self.upstreams[at].target.name.as_str())
        } else {
            None
        }
    }

    /// The position of the upstream that a request for `service_name` goes
    /// to. Fails if there is no upstream of that name.
    pub fn target(&self, service_name: &str) -> (res: Result<usize, UpstreamError>)
        ensures
            match res {
                Ok(at) => at < self.names().len() && at == first_where(
                    self.names(),
                    is_upstream(service_name@),
                ),
                Err(e) => first_where(self.names(), is_upstream(service_name@))
                    == self.names().len() && e@ == UpstreamErrorView::InvalidRequest(
                    "unknown service "@ + service_name@,
                ),
            },
    {
        let ghost names = self.names();
        let mut i: usize = 0;
        while i < self.upstreams.len()
            invariant
                i <= self.upstreams@.len(),
                names == self.names(),
                forall|k: int| 0 <= k < i ==> !is_upstream(service_name@)(#[trigger] names[k]),
            decreases self.upstreams@.len() - i,
        {
            if text_eq(self.upstreams[i].target.name.as_str(), service_name) {
                proof {
                    lemma_first_where_is(names, is_upstream(service_name@), i as int);
                }
                return Ok(i);
            }
            i += 1;
        }
        proof {
            lemma_first_where_is(names, is_upstream(service_name@), names.len() as int);
        }
        let mut message = "unknown service ".to_owned();
        message.append(service_name);
        Err(UpstreamError::InvalidRequest(message))
    }

    /// The upstream that a request goes to which names no upstream. Fails
    /// with the method of the request if there is no default target.
    pub fn send_single_without_multiplexing(&self, method: &str) -> (res: Result<
        &str,
        UpstreamError,
    >)
        ensures
            match res {
                Ok(n) => self.default_target() == Some(n@),
                Err(e) => self.default_target() is None && e@ == UpstreamErrorView::InvalidMethod(
                    method@,
                ),
            },
    {
        match &self.default_target_name {
            Some(name) => Ok(name.as_str()),
            None => Err(UpstreamError::InvalidMethod(method.to_owned())),
        }
    }

    /// The sessions of all upstreams, if every upstream has one.
    pub fn get_sessions(&self) -> (res: Option<Vec<MCPSession>>)
        ensures
            res is Some <==> forall|i: int|
                0 <= i < self.session_slots().len() ==> (#[trigger] self.session_slots()[i])
                    is Some,
            res matches Some(v) ==> v@.len() == self.session_slots().len() && forall|i: int|
                0 <= i < v@.len() ==> session_view(#[trigger] v@[i]) == session_view(
                    self.session_slots()[i]->Some_0,
                ),
    {
        let mut sessions: Vec<MCPSession> = Vec::new();
        let mut i: usize = 0;
        while i < self.upstreams.len()
            invariant
                i <= self.upstreams@.len(),
                sessions@.len() == i,
                forall|k: int| 0 <= k < i ==> (#[trigger] self.session_slots()[k]) is Some,
                forall|k: int|
                    0 <= k < i ==> session_view(#[trigger] sessions@[k]) == session_view(
                        self.session_slots()[k]->Some_0,
                    ),
            decreases self.upstreams@.len() - i,
        {
            match &self.upstreams[i].session {
                Some(s) => {
                    sessions.push(
                        MCPSession {
                            session: s.session.clone(),
                            backend: clone_opt_text(&s.backend),
                        },
                    );
                },
                None => {
                    assert(self.session_slots()[i as int] is None);
                    return None;
                },
            }
            i += 1;
        }
        Some(sessions)
    }

    /// The sessions that the upstreams keep, in the order of the upstreams.
    pub closed spec fn session_slots(&self) -> Seq<Option<MCPSession>> {
        Seq::new(self.upstreams@.len(), |i: int| self.upstreams@[i].session)
    }

    /// Gives the upstreams their sessions, in the order of the upstreams;
    /// sessions beyond the number of upstreams are passed over, and
    /// upstreams beyond the number of sessions keep what they have.
    pub fn set_sessions(&mut self, sessions: Vec<MCPSession>)
        ensures
            final(self).names() == old(self).names(),
            final(self).states() == old(self).states(),
            final(self).default_target() == old(self).default_target(),
            final(self).session_slots().len() == old(self).session_slots().len(),
            forall|i: int|
                0 <= i < final(self).session_slots().len() ==> if i < sessions@.len() {
                    (#[trigger] final(self).session_slots()[i]) matches Some(s) && session_view(s)
                        == session_view(sessions@[i])
                } else {
                    final(self).session_slots()[i] == old(self).session_slots()[i]
                },
    {
        let ghost before_names = self.names();
        let ghost before_states = self.states();
        let ghost before_slots = self.session_slots();
        let mut i: usize = 0;
        while i < self.upstreams.len() && i < sessions.len()
            invariant
                i <= self.upstreams@.len(),
                i <= sessions@.len(),
                self.upstreams@.len() == old(self).upstreams@.len(),
                self.default_target_name == old(self).default_target_name,
                self.names() == before_names,
                self.states() == before_states,
                forall|k: int|
                    0 <= k < i ==> ((#[trigger] self.session_slots()[k]) matches Some(s)
                        && session_view(s) == session_view(sessions@[k])),
                forall|k: int|
                    i <= k < self.upstreams@.len() ==> #[trigger] self.session_slots()[k]
                        == before_slots[k],
            decreases self.upstreams@.len() - i,
        {
            let copy = MCPSession {
                session: sessions[i].session.clone(),
                backend: clone_opt_text(&sessions[i].backend),
            };
            let ghost mid_slots = self.session_slots();
            let ghost mid = self.upstreams@;
            self.upstreams[i].session = Some(copy);
            proof {
                assert forall|k: int| 0 <= k < self.upstreams@.len() && k != i implies self.upstreams@[k]
                    == mid[k] by {}
                assert(self.names() =~= before_names);
                assert(self.states() =~= before_states);
                assert forall|k: int| 0 <= k < i implies ((#[trigger] self.session_slots()[k])
                    matches Some(s) && session_view(s) == session_view(sessions@[k])) by {
                    assert(self.session_slots()[k] == mid_slots[k]);
                }
                assert forall|k: int| i + 1 <= k < self.upstreams@.len() implies #[trigger] self.session_slots()[k]
                    == before_slots[k] by {
                    assert(self.session_slots()[k] == mid_slots[k]);
                }
            }
            i += 1;
        }
    }

    /// The state of the upstream at a position.
    pub fn state(&self, at: usize) -> (res: Option<UpstreamState>)
        ensures
            match res {
                Some(s) => at < self.states().len() && s == self.states()[at as int],
                None => at >= self.states().len(),
            },
    {
        if at < self.upstreams.len() {
            Some(self.upstreams[at].state)
        } else {
            None
        }
    }

    /// Notes what happened to the upstream at a position.
    pub fn observe(&mut self, at: usize, event: UpstreamEvent)
        ensures
            final(self).names() == old(self).names(),
            final(self).default_target() == old(self).default_target(),
            final(self).states() == if at < old(self).states().len() {
                old(self).states().update(at as int, next_state(old(self).states()[at as int], event))
            } else {
                old(self).states()
            },
    {
        let ghost before = self.upstreams@;
        if at < self.upstreams.len() {
            let next = self.upstreams[at].state.next(event);
            self.upstreams[at].state = next;
            proof {
                assert forall|k: int| 0 <= k < before.len() && k != at implies self.upstreams@[k]
                    == before[k] by {}
                assert(self.names() =~= old(self).names());
                assert(self.states() =~= old(self).states().update(
                    at as int,
                    next_state(old(self).states()[at as int], event),
                ));
            }
        }
    }

    /// The context in which the guards decide on a call on a server.
    pub fn context_for(server_name: &str, identity: Option<String>) -> (res: GuardContext)
        ensures
            res@ == (ContextView {
                server_name: server_name@,
                identity: opt_text(identity),
                metadata: "null"@,
            }),
    {
        GuardContext { server_name: server_name.to_owned(), identity, metadata: "null".to_owned() }
    }

    /// Runs the guards on a tool invocation on a server.
    pub fn evaluate_tool_invoke(
        &self,
        executor: &mut GuardExecutor,
        tool_name: &str,
        arguments: &Json,
        server_name: &str,
        identity: Option<String>,
    ) -> (res: Evaluation)
        ensures
            final(executor).generation() == old(executor).generation(),
            (final(executor).entries(), res@) == chain(
                old(executor).entries(),
                InputView::ToolInvoke { tool_name: tool_name@, arguments: arguments@ },
                ContextView {
                    server_name: server_name@,
                    identity: opt_text(identity),
                    metadata: "null"@,
                },
                0,
                false,
                LogView { invoked: Seq::empty(), warnings: Seq::empty() },
            ),
    {
        let context = Self::context_for(server_name, identity);
        executor.evaluate_tool_invoke(tool_name, arguments, &context)
    }

    /// Makes the guards forget what they remember of every upstream, and
    /// takes every upstream for new.
    pub fn reset_all_security_guards(&mut self, executor: &mut GuardExecutor)
        ensures
            final(self).names() == old(self).names(),
            final(self).default_target() == old(self).default_target(),
            final(self).states() == Seq::new(
                old(self).states().len(),
                |i: int| UpstreamState::New,
            ),
            final(executor).generation() == old(executor).generation(),
            final(executor).entries().len() == old(executor).entries().len(),
            forall|i: int|
                0 <= i < old(executor).entries().len() ==> #[trigger] final(executor).entries()[i]
                    == (EntryView {
                    guard: reset_all(old(executor).entries()[i].guard, old(self).names(), old(self).names().len()),
                    ..old(executor).entries()[i]
                }),
    {
        let ghost names = self.names();
        let ghost before = executor.entries();
        let mut i: usize = 0;
        while i < self.upstreams.len()
            invariant
                i <= self.upstreams@.len(),
                names == self.names(),
                self.upstreams == old(self).upstreams,
                self.default_target_name == old(self).default_target_name,
                executor.generation() == old(executor).generation(),
                executor.entries().len() == before.len(),
                forall|k: int|
                    0 <= k < before.len() ==> #[trigger] executor.entries()[k] == (EntryView {
                        guard: reset_all(before[k].guard, names, i as nat),
                        ..before[k]
                    }),
            decreases self.upstreams@.len() - i,
        {
            let ghost mid = executor.entries();
            executor.reset_server(self.upstreams[i].target.name.as_str());
            proof {
                assert(names[i as int] == self.upstreams@[i as int].target.name@);
                assert forall|k: int| 0 <= k < before.len() implies #[trigger] executor.entries()[k]
                    == (EntryView {
                    guard: reset_all(before[k].guard, names, (i + 1) as nat),
                    ..before[k]
                }) by {
                    assert(mid[k] == (EntryView {
                        guard: reset_all(before[k].guard, names, i as nat),
                        ..before[k]
                    }));
                }
            }
            i += 1;
        }
        let mut j: usize = 0;
        while j < self.upstreams.len()
            invariant
                j <= self.upstreams@.len(),
                self.upstreams@.len() == old(self).upstreams@.len(),
                self.default_target_name == old(self).default_target_name,
                self.names() == names,
                forall|k: int| 0 <= k < j ==> (#[trigger] self.upstreams@[k]).state == UpstreamState::New,
            decreases self.upstreams@.len() - j,
        {
            let ghost mid = self.upstreams@;
            self.upstreams[j].state = UpstreamState::New;
            proof {
                assert forall|k: int| 0 <= k < mid.len() && k != j implies self.upstreams@[k]
                    == mid[k] by {}
                assert(self.names() =~= names);
            }
            j += 1;
        }
        proof {
            assert(self.states() =~= Seq::new(
                old(self).states().len(),
                |i: int| UpstreamState::New,
            ));
        }
    }

    /// The first step of establishing the baselines of the upstreams.
    pub fn establish_security_baselines(&self) -> (res: BaselineStep)
        ensures
            res == check_or_done(self.names().len() as int, 0),
    {
        if self.upstreams.len() > 0 {
            BaselineStep::CheckConnection(0)
        } else {
            BaselineStep::Done
        }
    }

    /// The step that follows `step`, given what the host found when it did
    /// `step`; the state of the upstream is brought up to date.
    ///
    /// An upstream whose connection the guards allow is initialized and has
    /// its tools seeded next. An upstream whose connection is denied, or for
    /// which the guards fail, is passed over. When the guards allow the
    /// seeded tools, the baseline of the upstream is established. Nothing
    /// that is found here fails the client's initialization.
    pub fn baseline_step(&mut self, step: BaselineStep, finding: BaselineFinding) -> (res:
        BaselineStep)
        ensures
            res == next_baseline_step(old(self).names().len() as int, step, finding),
            final(self).names() == old(self).names(),
            final(self).default_target() == old(self).default_target(),
            final(self).states() == match step {
                BaselineStep::CheckConnection(at) => if at < old(self).states().len() && finding
                    == BaselineFinding::Passed {
                    old(self).states().update(
                        at as int,
                        next_state(old(self).states()[at as int], UpstreamEvent::ConnectionAllowed),
                    )
                } else {
                    old(self).states()
                },
                BaselineStep::SeedTools(at) => if at < old(self).states().len() && finding
                    == BaselineFinding::Passed {
                    old(self).states().update(
                        at as int,
                        next_state(old(self).states()[at as int], UpstreamEvent::BaselineAllowed),
                    )
                } else {
                    old(self).states()
                },
                BaselineStep::Done => old(self).states(),
            },
    {
        let count = self.upstreams.len();
        match step {
            BaselineStep::CheckConnection(at) => {
                if at >= count {
                    BaselineStep::Done
                } else if finding == BaselineFinding::Passed {
                    self.observe(at, UpstreamEvent::ConnectionAllowed);
                    BaselineStep::SeedTools(at)
                } else if at + 1 < count {
                    BaselineStep::CheckConnection(at + 1)
                } else {
                    BaselineStep::Done
                }
            },
            BaselineStep::SeedTools(at) => {
                if finding == BaselineFinding::Passed {
                    self.observe(at, UpstreamEvent::BaselineAllowed);
                }
                if at < count && at + 1 < count {
                    BaselineStep::CheckConnection(at + 1)
                } else {
                    BaselineStep::Done
                }
            },
            BaselineStep::Done => BaselineStep::Done,
        }
    }

    /// What the host found, read from what the guards decided: a denial, a
    /// failure, or neither.
    pub fn baseline_finding(decision: &GuardResult) -> (res: BaselineFinding)
        ensures
            res == match result_view(*decision) {
                Ok(DecisionView::Deny(_)) => BaselineFinding::Denied,
                Ok(_) => BaselineFinding::Passed,
                Err(_) => BaselineFinding::Failed,
            },
    {
        match decision {
            Ok(GuardDecision::Deny(_)) => BaselineFinding::Denied,
            Ok(_) => BaselineFinding::Passed,
            Err(_) => BaselineFinding::Failed,
        }
    }

    /// Adds to a merged list of tools what the list of one upstream
    /// contributes, given what the guards decided on that list and which of
    /// its tools the authorization policy allows.
    ///
    /// The host hands in the lists of the upstreams one after the other,
    /// each with the decision of the guards on it, and stops at the first
    /// failure: a denial for one upstream fails the whole merge.
    pub fn merge_tools(
        &self,
        merged: Vec<Tool>,
        server_name: &str,
        tools: Vec<Tool>,
        allowed: &Vec<bool>,
        decision: GuardResult,
    ) -> (res: Result<Vec<Tool>, ClientError>)
        ensures
            match res {
                Ok(v) => merged_tools(
                    self.default_target(),
                    tools_view(merged@),
                    server_name@,
                    tools_view(tools@),
                    allowed@,
                    result_view(decision),
                ) == Ok::<Seq<ToolView>, Seq<char>>(tools_view(v@)),
                Err(e) => merged_tools(
                    self.default_target(),
                    tools_view(merged@),
                    server_name@,
                    tools_view(tools@),
                    allowed@,
                    result_view(decision),
                ) == Err::<Seq<ToolView>, Seq<char>>(e.message@),
            },
    {
        match decision {
            Ok(GuardDecision::Deny(reason)) => {
                let mut message = "Security guard denied for server '".to_owned();
                message.append(server_name);
                message.append("': ");
                message.append(reason.code.as_str());
                message.append(" - ");
                message.append(reason.message.as_str());
                Err(ClientError { message })
            },
            Err(e) => {
                let mut message = "Security guard failed for server '".to_owned();
                message.append(server_name);
                message.append("': ");
                message.append(e.message().as_str());
                Err(ClientError { message })
            },
            Ok(_) => {
                let ghost base = tools_view(merged@);
                let ghost tv = tools_view(tools@);
                let ghost default = self.default_target();
                let mut all = merged;
                let mut i: usize = 0;
                proof {
                    assert(tools_view(all@) =~= base + outgoing_tools(
                        default,
                        server_name@,
                        tv,
                        allowed@,
                        0,
                    ));
                }
                while i < tools.len()
                    invariant
                        i <= tools@.len(),
                        tv == tools_view(tools@),
                        default == self.default_target(),
                        tools_view(all@) == base + outgoing_tools(
                            default,
                            server_name@,
                            tv,
                            allowed@,
                            i as nat,
                        ),
                    decreases tools@.len() - i,
                {
                    proof {
                        assert(tv[i as int] == tools@[i as int]@);
                    }
                    if i < allowed.len() && allowed[i] {
                        let renamed = Tool {
                            name: resource_name(
                                self.default_target_name.as_ref(),
                                server_name,
                                tools[i].name.as_str(),
                            ),
                            description: clone_opt_text(&tools[i].description),
                            input_schema: tools[i].input_schema.clone(),
                        };
                        let ghost before = tools_view(all@);
                        let ghost rv = renamed@;
                        all.push(renamed);
                        proof {
                            assert(tools_view(all@) =~= before.push(rv));
                            assert(rv == (ToolView {
                                name: formatted_name(default, server_name@, tv[i as int].name),
                                ..tv[i as int]
                            }));
                            let prev = outgoing_tools(default, server_name@, tv, allowed@, i as nat);
                            assert(base + prev.push(rv) =~= (base + prev).push(rv));
                        }
                    }
                    i += 1;
                }
                Ok(all)
            },
        }
    }

    /// What the gateway tells a client about itself: in multiplex mode it
    /// offers tools only.
    pub fn get_info(pv: &str, multiplexing: bool) -> (res: ServerInfo)
        ensures
            res.protocol_version@ == pv@,
            res.tools,
            res.prompts == !multiplexing,
            res.resources == !multiplexing,
            res.instructions@ == INSTRUCTIONS@,
    {
        ServerInfo {
            protocol_version: pv.to_owned(),
            tools: true,
            prompts: !multiplexing,
            resources: !multiplexing,
            instructions: INSTRUCTIONS.to_owned(),
        }
    }

    /// What a client is told when it initializes, given the protocol
    /// versions with which the upstreams answered, in the order of the
    /// upstreams; `None` stands for an upstream that gave no initialize
    /// result.
    ///
    /// Without multiplexing the answer of the first upstream is forwarded;
    /// if it gave none, the gateway answers for itself with the negotiated
    /// version. With multiplexing the gateway answers for itself with the
    /// least version of the upstreams, or the negotiated version if no
    /// upstream gave one.
    pub fn merge_initialize(pv: &str, multiplexing: bool, results: &Vec<Option<String>>) -> (res:
        InitializeAnswer)
        ensures
            match res {
                InitializeAnswer::Forward(at) => !multiplexing && at == 0 && results@.len() > 0
                    && results@[0] is Some,
                InitializeAnswer::Synthesized(info) => {
                    &&& info.tools
                    &&& info.prompts == !multiplexing
                    &&& info.resources == !multiplexing
                    &&& info.instructions@ == INSTRUCTIONS@
                    &&& if !multiplexing {
                        (results@.len() == 0 || results@[0] is None) && info.protocol_version@
                            == pv@
                    } else {
                        match least_version(versions_view(results@), results@.len()) {
                            Some(at) => info.protocol_version@ == versions_view(
                                results@,
                            )[at]->Some_0,
                            None => info.protocol_version@ == pv@,
                        }
                    }
                },
            },
    {
        if !multiplexing {
            if results.len() > 0 && results[0].is_some() {
                return InitializeAnswer::Forward(0);
            }
            return InitializeAnswer::Synthesized(Self::get_info(pv, multiplexing));
        }
        let ghost vv = versions_view(results@);
        let mut lowest: Option<usize> = None;
        let mut i: usize = 0;
        while i < results.len()
            invariant
                i <= results@.len(),
                vv == versions_view(results@),
                match lowest {
                    Some(at) => least_version(vv, i as nat) == Some(at as int) && at < i
                        && results@[at as int] is Some,
                    None => least_version(vv, i as nat) is None,
                },
            decreases results@.len() - i,
        {
            proof {
                assert(vv[i as int] == opt_text(results@[i as int]));
            }
            match &results[i] {
                Some(v) => {
                    match lowest {
                        None => {
                            lowest = Some(i);
                        },
                        Some(at) => {
                            proof {
                                assert(vv[at as int] == opt_text(results@[at as int]));
                            }
                            match &results[at] {
                                Some(current) => {
                                    if text_less(v.as_str(), current.as_str()) {
                                        lowest = Some(i);
                                    }
                                },
                                None => {},
                            }
                        },
                    }
                },
                None => {},
            }
            i += 1;
        }
        match lowest {
            Some(at) => {
                proof {
                    assert(vv[at as int] == opt_text(results@[at as int]));
                }
                match &results[at] {
                    Some(v) => InitializeAnswer::Synthesized(Self::get_info(v.as_str(), multiplexing)),
                    None => InitializeAnswer::Synthesized(Self::get_info(pv, multiplexing)),
                }
            },
            None => InitializeAnswer::Synthesized(Self::get_info(pv, multiplexing)),
        }
    }

    /// Adds to a merged list of prompts the prompts of one upstream that
    /// the authorization policy allows, under their outward names.
    pub fn merge_prompts(
        &self,
        merged: Vec<Prompt>,
        server_name: &str,
        prompts: Vec<Prompt>,
        allowed: &Vec<bool>,
    ) -> (res: Vec<Prompt>)
        ensures
            prompts_view(res@) == prompts_view(merged@) + outgoing_prompts(
                self.default_target(),
                server_name@,
                prompts_view(prompts@),
                allowed@,
                prompts@.len(),
            ),
    {
        let ghost base = prompts_view(merged@);
        let ghost pv = prompts_view(prompts@);
        let ghost default = self.default_target();
        let mut all = merged;
        let mut i: usize = 0;
        proof {
            assert(prompts_view(all@) =~= base + outgoing_prompts(
                default,
                server_name@,
                pv,
                allowed@,
                0,
            ));
        }
        while i < prompts.len()
            invariant
                i <= prompts@.len(),
                pv == prompts_view(prompts@),
                default == self.default_target(),
                prompts_view(all@) == base + outgoing_prompts(
                    default,
                    server_name@,
                    pv,
                    allowed@,
                    i as nat,
                ),
            decreases prompts@.len() - i,
        {
            proof {
                assert(pv[i as int] == prompts@[i as int]@);
            }
            if i < allowed.len() && allowed[i] {
                let renamed = Prompt {
                    name: resource_name(
                        self.default_target_name.as_ref(),
                        server_name,
                        prompts[i].name.as_str(),
                    ),
                    description: clone_opt_text(&prompts[i].description),
                };
                let ghost before = prompts_view(all@);
                let ghost rv = renamed@;
                all.push(renamed);
                proof {
                    assert(prompts_view(all@) =~= before.push(rv));
                    let prev = outgoing_prompts(default, server_name@, pv, allowed@, i as nat);
                    assert(base + prev.push(rv) =~= (base + prev).push(rv));
                }
            }
            i += 1;
        }
        all
    }

    /// Adds to a merged list of resources the resources of one upstream
    /// that the authorization policy allows.
    pub fn merge_resources(&self, merged: Vec<Resource>, resources: Vec<Resource>, allowed: &Vec<bool>)
        -> (res: Vec<Resource>)
        ensures
            res@ == merged@ + kept(resources@, allowed@, resources@.len()),
    {
        keep_allowed(merged, resources, allowed)
    }

    /// Adds to a merged list of resource templates the templates of one
    /// upstream that the authorization policy allows.
    pub fn merge_resource_templates(
        &self,
        merged: Vec<ResourceTemplate>,
        templates: Vec<ResourceTemplate>,
        allowed: &Vec<bool>,
    ) -> (res: Vec<ResourceTemplate>)
        ensures
            res@ == merged@ + kept(templates@, allowed@, templates@.len()),
    {
        keep_allowed(merged, templates, allowed)
    }
}

/// The first `n` items that are allowed.
pub open spec fn kept<T>(items: Seq<T>, allowed: Seq<bool>, n: nat) -> Seq<T>
    decreases n,
{
    if n == 0 || n > items.len() {
        Seq::empty()
    } else {
        let head = kept(items, allowed, (n - 1) as nat);
        if allowed_at(allowed, n - 1) {
            head.push(items[n - 1])
        } else {
            head
        }
    }
}

/// Adds to `merged` the items that are allowed.
fn keep_allowed<T>(merged: Vec<T>, items: Vec<T>, allowed: &Vec<bool>) -> (res: Vec<T>)
    ensures
        res@ == merged@ + kept(items@, allowed@, items@.len()),
{
    let mut all = merged;
    let mut rest = items;
    let mut i: usize = 0;
    let n = rest.len();
    proof {
        assert(all@ =~= merged@ + kept(items@, allowed@, 0));
        assert(rest@ =~= items@.subrange(0, n as int));
    }
    while rest.len() > 0
        invariant
            i + rest@.len() == n,
            n == items@.len(),
            rest@ == items@.subrange(i as int, n as int),
            all@ == merged@ + kept(items@, allowed@, i as nat),
        decreases rest@.len(),
    {
        let ghost old_rest = rest@;
        let item = rest.remove(0);
        proof {
            assert(item == old_rest[0]);
            assert(item == items@[i as int]);
            assert(rest@ =~= items@.subrange(i + 1, n as int));
        }
        if i < allowed.len() && allowed[i] {
            let ghost before = all@;
            all.push(item);
            proof {
                let prev = kept(items@, allowed@, i as nat);
                assert(merged@ + prev.push(item) =~= (merged@ + prev).push(item));
            }
        }
        i += 1;
    }
    all
}

/// The mathematical value of a [`Prompt`].
pub struct PromptView {
    pub name: Seq<char>,
    pub description: Option<Seq<char>>,
}

impl View for Prompt {
    type V = PromptView;

    open spec fn view(&self) -> PromptView {
        PromptView { name: self.name@, description: opt_text(self.description) }
    }
}

/// The values of a list of prompts.
pub open spec fn prompts_view(prompts: Seq<Prompt>) -> Seq<PromptView> {
    Seq::new(prompts.len(), |i: int| prompts[i]@)
}

/// The first `n` prompts of an upstream as they go out to the client: those
/// that are allowed, under their outward names.
pub open spec fn outgoing_prompts(
    default: Option<Seq<char>>,
    server: Seq<char>,
    prompts: Seq<PromptView>,
    allowed: Seq<bool>,
    n: nat,
) -> Seq<PromptView>
    decreases n,
{
    if n == 0 || n > prompts.len() {
        Seq::empty()
    } else {
        let head = outgoing_prompts(default, server, prompts, allowed, (n - 1) as nat);
        if allowed_at(allowed, n - 1) {
            head.push(
                PromptView {
                    name: formatted_name(default, server, prompts[n - 1].name),
                    ..prompts[n - 1]
                },
            )
        } else {
            head
        }
    }
}

/// The value of a session.
pub open spec fn session_view(s: MCPSession) -> (Seq<char>, Option<Seq<char>>) {
    (s.session@, opt_text(s.backend))
}

/// A guard after the states of the first `n` of `servers` were reset.
pub open spec fn reset_all(g: crate::guard::GuardView, servers: Seq<Seq<char>>, n: nat)
    -> crate::guard::GuardView
    decreases n,
{
    if n == 0 || n > servers.len() {
        g
    } else {
        reset_guard(reset_all(g, servers, (n - 1) as nat), servers[n - 1])
    }
}

} // verus!
