//! The guard that watches the tool set of each upstream server.
//!
//! The first list of tools that a server gives becomes its baseline. Every
//! later list is compared with the baseline: tools that were removed, added or
//! changed each carry a weight, and when the sum of the weights reaches the
//! threshold the server is blocked until its state is reset.
use crate::decision::{
    DecisionView, DenyReason, DenyReasonView, ErrorView, GuardContext, GuardDecision, GuardResult,
    result_view,
};
use crate::json::{
    array_values, lemma_array_view, lemma_object_view, object_fields, Json, JsonValue, NumberValue,
};
use crate::order::{first_where, lemma_first_where, lemma_first_where_is};
use crate::text::{decimal, decimal_text, hash_text, text_eq, text_hash};
use crate::tool::{opt_text, Tool, ToolView, tools_view};
use vstd::prelude::*;

verus! {

/// Which kinds of change are looked for.
#[derive(Debug, Clone, Copy, PartialEq, Eq, Structural)]
pub struct ChangeDetectionConfig {
    pub removals: bool,
    pub additions: bool,
    pub description_changes: bool,
    pub schema_changes: bool,
}

/// Configuration of the guard.
#[derive(Debug, Clone, Copy, PartialEq, Eq, Structural)]
pub struct RugPullConfig {
    /// Whether the guard watches at all.
    pub enabled: bool,
    /// The risk from which a server is blocked.
    pub risk_threshold: u32,
    pub removal_weight: u32,
    pub schema_change_weight: u32,
    pub description_change_weight: u32,
    pub addition_weight: u32,
    pub detect_changes: ChangeDetectionConfig,
    /// Whether a list that is allowed with changes becomes the new baseline.
    pub update_baseline_on_allow: bool,
}

/// Whether the guard watches by default.
pub fn default_enabled() -> (res: bool)
    ensures
        res,
{
    true
}

/// The default risk from which a server is blocked.
pub fn default_risk_threshold() -> (res: u32)
    ensures
        res == 5,
{
    5
}

/// The default weight of a removed tool.
pub fn default_removal_weight() -> (res: u32)
    ensures
        res == 3,
{
    3
}

/// The default weight of a changed schema.
pub fn default_schema_change_weight() -> (res: u32)
    ensures
        res == 3,
{
    3
}

/// The default weight of a changed description.
pub fn default_description_change_weight() -> (res: u32)
    ensures
        res == 2,
{
    2
}

/// The default weight of an added tool.
pub fn default_addition_weight() -> (res: u32)
    ensures
        res == 1,
{
    1
}

/// Whether an allowed list with changes becomes the baseline by default.
pub fn default_update_baseline_on_allow() -> (res: bool)
    ensures
        res,
{
    true
}

/// The default of every kind of change: it is looked for.
pub fn default_true() -> (res: bool)
    ensures
        res,
{
    true
}

impl Default for ChangeDetectionConfig {
    fn default() -> (res: ChangeDetectionConfig)
        ensures
            res == (ChangeDetectionConfig {
                removals: true,
                additions: true,
                description_changes: true,
                schema_changes: true,
            }),
    {
        ChangeDetectionConfig {
            removals: default_true(),
            additions: default_true(),
            description_changes: default_true(),
            schema_changes: default_true(),
        }
    }
}

impl Default for RugPullConfig {
    fn default() -> (res: RugPullConfig)
        ensures
            res == (RugPullConfig {
                enabled: true,
                risk_threshold: 5,
                removal_weight: 3,
                schema_change_weight: 3,
                description_change_weight: 2,
                addition_weight: 1,
                detect_changes: ChangeDetectionConfig {
                    removals: true,
                    additions: true,
                    description_changes: true,
                    schema_changes: true,
                },
                update_baseline_on_allow: true,
            }),
    {
        RugPullConfig {
            enabled: default_enabled(),
            risk_threshold: default_risk_threshold(),
            removal_weight: default_removal_weight(),
            schema_change_weight: default_schema_change_weight(),
            description_change_weight: default_description_change_weight(),
            addition_weight: default_addition_weight(),
            detect_changes: ChangeDetectionConfig::default(),
            update_baseline_on_allow: default_update_baseline_on_allow(),
        }
    }
}

/// What is remembered of a tool: its name, and hashes of its description and
/// of its input schema.
#[derive(Debug, PartialEq, Eq)]
pub struct ToolFingerprint {
    pub name: String,
    /// The hash of the description; `None` if the tool has none.
    pub description_hash: Option<u64>,
    /// The hash of the canonical JSON text of the input schema.
    pub schema_hash: u64,
}

/// The mathematical value of a [`ToolFingerprint`].
pub struct FingerprintView {
    pub name: Seq<char>,
    pub description_hash: Option<u64>,
    pub schema_hash: u64,
}

impl View for ToolFingerprint {
    type V = FingerprintView;

    open spec fn view(&self) -> FingerprintView {
        FingerprintView {
            name: self.name@,
            description_hash: self.description_hash,
            schema_hash: self.schema_hash,
        }
    }
}

/// The values of a list of fingerprints.
pub open spec fn fingerprints_view(fps: Seq<ToolFingerprint>) -> Seq<FingerprintView> {
    Seq::new(fps.len(), |i: int| fps[i]@)
}

/// The fingerprint of a tool.
pub open spec fn fingerprint_of(tool: ToolView) -> FingerprintView {
    FingerprintView {
        name: tool.name,
        description_hash: match tool.description {
            Some(d) => Some(text_hash(d)),
            None => None,
        },
        schema_hash: text_hash(tool.input_schema),
    }
}

/// The position of the first fingerprint with the given name, or the number
/// of fingerprints when there is none.
pub open spec fn position_of(fps: Seq<FingerprintView>, name: Seq<char>) -> int {
    first_where(fps, has_name(name))
}

/// Whether a fingerprint is that of the tool `name`.
pub open spec fn has_name(name: Seq<char>) -> spec_fn(FingerprintView) -> bool {
    |f: FingerprintView| f.name == name
}

/// The fingerprint with the given name.
pub open spec fn lookup(fps: Seq<FingerprintView>, name: Seq<char>) -> Option<FingerprintView> {
    let at = position_of(fps, name);
    if at < fps.len() {
        Some(fps[at])
    } else {
        None
    }
}

/// `fps` with `fp` in the place of the fingerprint of the same name, or at
/// the end when there is none.
pub open spec fn upserted(fps: Seq<FingerprintView>, fp: FingerprintView) -> Seq<FingerprintView> {
    let at = position_of(fps, fp.name);
    if at < fps.len() {
        fps.update(at, fp)
    } else {
        fps.push(fp)
    }
}

/// The fingerprints of a list of tools, one for each name: of two tools with
/// the same name the later one counts, in the place of the earlier.
pub open spec fn fingerprints(tools: Seq<ToolView>) -> Seq<FingerprintView>
    decreases tools.len(),
{
    if tools.len() == 0 {
        Seq::empty()
    } else {
        upserted(fingerprints(tools.drop_last()), fingerprint_of(tools.last()))
    }
}

/// What is remembered of a server.
#[derive(Debug)]
pub struct ServerBaseline {
    /// The fingerprints of the server's tools, one for each name.
    pub tools: Vec<ToolFingerprint>,
    /// How often the baseline was replaced.
    pub update_count: u64,
    /// Whether the server is blocked.
    pub blocked: bool,
    /// Why the server was blocked.
    pub block_reason: Option<String>,
}

/// The mathematical value of a [`ServerBaseline`].
pub struct BaselineView {
    pub tools: Seq<FingerprintView>,
    pub update_count: u64,
    pub blocked: bool,
    pub block_reason: Option<Seq<char>>,
}

impl View for ServerBaseline {
    type V = BaselineView;

    open spec fn view(&self) -> BaselineView {
        BaselineView {
            tools: fingerprints_view(self.tools@),
            update_count: self.update_count,
            blocked: self.blocked,
            block_reason: opt_text(self.block_reason),
        }
    }
}

/// A difference between a baseline and a list of tools.
#[derive(Debug, PartialEq, Eq)]
#[allow(inconsistent_fields)]
pub enum ToolChange {
    /// A tool of the baseline is missing.
    Removed { name: String },
    /// A tool is not in the baseline.
    Added { name: String },
    DescriptionChanged { name: String, old_hash: Option<u64>, new_hash: Option<u64> },
    SchemaChanged { name: String, old_hash: u64, new_hash: u64 },
}

/// The mathematical value of a [`ToolChange`].
#[allow(inconsistent_fields)]
pub enum ChangeView {
    Removed { name: Seq<char> },
    Added { name: Seq<char> },
    DescriptionChanged { name: Seq<char>, old_hash: Option<u64>, new_hash: Option<u64> },
    SchemaChanged { name: Seq<char>, old_hash: u64, new_hash: u64 },
}

impl View for ToolChange {
    type V = ChangeView;

    open spec fn view(&self) -> ChangeView {
        match self {
            ToolChange::Removed { name } => ChangeView::Removed { name: name@ },
            ToolChange::Added { name } => ChangeView::Added { name: name@ },
            ToolChange::DescriptionChanged { name, old_hash, new_hash } => {
                ChangeView::DescriptionChanged {
                    name: name@,
                    old_hash: *old_hash,
                    new_hash: *new_hash,
                }
            },
            ToolChange::SchemaChanged { name, old_hash, new_hash } => ChangeView::SchemaChanged {
                name: name@,
                old_hash: *old_hash,
                new_hash: *new_hash,
            },
        }
    }
}

/// The values of a list of changes.
pub open spec fn changes_view(cs: Seq<ToolChange>) -> Seq<ChangeView> {
    Seq::new(cs.len(), |i: int| cs[i]@)
}

impl ChangeView {
    /// The name of the kind of change.
    pub open spec fn change_type(self) -> Seq<char> {
        match self {
            ChangeView::Removed { .. } => "removed"@,
            ChangeView::Added { .. } => "added"@,
            ChangeView::DescriptionChanged { .. } => "description_changed"@,
            ChangeView::SchemaChanged { .. } => "schema_changed"@,
        }
    }

    /// The name of the tool that changed.
    pub open spec fn tool_name(self) -> Seq<char> {
        match self {
            ChangeView::Removed { name } => name,
            ChangeView::Added { name } => name,
            ChangeView::DescriptionChanged { name, .. } => name,
            ChangeView::SchemaChanged { name, .. } => name,
        }
    }

    /// The weight of the change.
    pub open spec fn weight(self, config: RugPullConfig) -> u32 {
        match self {
            ChangeView::Removed { .. } => config.removal_weight,
            ChangeView::Added { .. } => config.addition_weight,
            ChangeView::DescriptionChanged { .. } => config.description_change_weight,
            ChangeView::SchemaChanged { .. } => config.schema_change_weight,
        }
    }
}

/// What became of one tool of the baseline: removed, or changed in its
/// description, its schema or both, as far as `mask` looks for it.
pub open spec fn changes_of(
    old: FingerprintView,
    current: Seq<FingerprintView>,
    mask: ChangeDetectionConfig,
) -> Seq<ChangeView> {
    match lookup(current, old.name) {
        None => if mask.removals {
            seq![ChangeView::Removed { name: old.name }]
        } else {
            Seq::empty()
        },
        Some(new) => {
            let description = if mask.description_changes && old.description_hash
                != new.description_hash {
                seq![
                    ChangeView::DescriptionChanged {
                        name: old.name,
                        old_hash: old.description_hash,
                        new_hash: new.description_hash,
                    },
                ]
            } else {
                Seq::empty()
            };
            let schema = if mask.schema_changes && old.schema_hash != new.schema_hash {
                seq![
                    ChangeView::SchemaChanged {
                        name: old.name,
                        old_hash: old.schema_hash,
                        new_hash: new.schema_hash,
                    },
                ]
            } else {
                Seq::empty()
            };
            description + schema
        },
    }
}

/// What became of the first `n` tools of the baseline.
pub open spec fn baseline_changes(
    baseline: Seq<FingerprintView>,
    current: Seq<FingerprintView>,
    mask: ChangeDetectionConfig,
    n: nat,
) -> Seq<ChangeView>
    decreases n,
{
    if n == 0 || n > baseline.len() {
        Seq::empty()
    } else {
        baseline_changes(baseline, current, mask, (n - 1) as nat) + changes_of(
            baseline[n - 1],
            current,
            mask,
        )
    }
}

/// The tools among the first `n` current ones that the baseline does not
/// have.
pub open spec fn additions(
    baseline: Seq<FingerprintView>,
    current: Seq<FingerprintView>,
    n: nat,
) -> Seq<ChangeView>
    decreases n,
{
    if n == 0 || n > current.len() {
        Seq::empty()
    } else {
        let head = additions(baseline, current, (n - 1) as nat);
        if lookup(baseline, current[n - 1].name) is None {
            head.push(ChangeView::Added { name: current[n - 1].name })
        } else {
            head
        }
    }
}

/// The changes from a baseline to the current fingerprints: first what
/// became of each tool of the baseline, in the baseline's order, then the
/// tools that were added, in the current order.
pub open spec fn changes_between(
    baseline: Seq<FingerprintView>,
    current: Seq<FingerprintView>,
    mask: ChangeDetectionConfig,
) -> Seq<ChangeView> {
    baseline_changes(baseline, current, mask, baseline.len()) + if mask.additions {
        additions(baseline, current, current.len())
    } else {
        Seq::empty()
    }
}

/// The sum of the weights of the first `n` changes.
pub open spec fn weight_sum(changes: Seq<ChangeView>, config: RugPullConfig, n: nat) -> nat
    decreases n,
{
    if n == 0 || n > changes.len() {
        0
    } else {
        weight_sum(changes, config, (n - 1) as nat) + changes[n - 1].weight(config) as nat
    }
}

/// The risk of a list of changes: the sum of their weights, or the greatest
/// number of 32 bits if the sum is greater.
pub open spec fn risk_score(changes: Seq<ChangeView>, config: RugPullConfig) -> u32 {
    let sum = weight_sum(changes, config, changes.len());
    if sum > u32::MAX {
        u32::MAX
    } else {
        sum as u32
    }
}

/// One change as it stands in the details of a denial.
pub open spec fn change_json(c: ChangeView, config: RugPullConfig) -> JsonValue {
    JsonValue::Object(
        seq![
            ("type"@, JsonValue::Str(c.change_type())),
            ("tool"@, JsonValue::Str(c.tool_name())),
            ("weight"@, JsonValue::Number(NumberValue::Unsigned(c.weight(config) as u64))),
        ],
    )
}

/// The details of a denial for changes.
pub open spec fn change_details(changes: Seq<ChangeView>, risk: u32, config: RugPullConfig)
    -> JsonValue {
    JsonValue::Object(
        seq![
            (
                "changes"@,
                JsonValue::Array(Seq::new(changes.len(), |i: int| change_json(changes[i], config))),
            ),
            ("total_risk_score"@, JsonValue::Number(NumberValue::Unsigned(risk as u64))),
            ("threshold"@, JsonValue::Number(NumberValue::Unsigned(config.risk_threshold as u64))),
        ],
    )
}

/// The message of a denial for changes, which is also the reason of the
/// block.
pub open spec fn detection_message(risk: u32, threshold: u32) -> Seq<char> {
    "Suspicious tool changes detected (risk score: "@ + decimal(risk as nat) + " >= threshold: "@
        + decimal(threshold as nat) + ")"@
}

/// The denial of a list of tools of a blocked server.
pub open spec fn blocked_list_denial(server: Seq<char>, reason: Option<Seq<char>>)
    -> DecisionView {
    DecisionView::Deny(
        DenyReasonView {
            code: "rug_pull_server_blocked"@,
            message: "Server '"@ + server + "' is blocked due to previous rug pull detection"@,
            details: match reason {
                Some(r) => Some(JsonValue::Object(seq![("original_reason"@, JsonValue::Str(r))])),
                None => None,
            },
        },
    )
}

/// The denial of a tool invocation on a blocked server.
pub open spec fn blocked_invoke_denial(
    tool: Seq<char>,
    server: Seq<char>,
    reason: Option<Seq<char>>,
) -> DecisionView {
    DecisionView::Deny(
        DenyReasonView {
            code: "rug_pull_server_blocked"@,
            message: "Tool '"@ + tool + "' blocked - server '"@ + server
                + "' is blocked due to rug pull detection"@,
            details: match reason {
                Some(r) => Some(
                    JsonValue::Object(
                        seq![
                            ("original_reason"@, JsonValue::Str(r)),
                            ("blocked_tool"@, JsonValue::Str(tool)),
                        ],
                    ),
                ),
                None => None,
            },
        },
    )
}

/// The baselines of a detector: server names with what is remembered of
/// each.
pub type Baselines = Seq<(Seq<char>, BaselineView)>;

/// The position of the baseline of `server`, or the number of baselines when
/// it has none.
pub open spec fn baseline_position(baselines: Baselines, server: Seq<char>) -> int {
    first_where(baselines, of_server(server))
}

/// Whether a baseline is that of `server`.
pub open spec fn of_server(server: Seq<char>) -> spec_fn((Seq<char>, BaselineView)) -> bool {
    |e: (Seq<char>, BaselineView)| e.0 == server
}

/// Whether `server` is blocked.
pub open spec fn is_blocked(baselines: Baselines, server: Seq<char>) -> bool {
    let at = baseline_position(baselines, server);
    at < baselines.len() && baselines[at].1.blocked
}

/// The number one greater, or the greatest number of 64 bits.
pub open spec fn next_count(n: u64) -> u64 {
    if n == u64::MAX {
        n
    } else {
        (n + 1) as u64
    }
}

/// The decision on a list of tools of `server`, and the baselines after it.
pub open spec fn list_outcome(
    config: RugPullConfig,
    baselines: Baselines,
    server: Seq<char>,
    tools: Seq<ToolView>,
) -> (DecisionView, Baselines) {
    let at = baseline_position(baselines, server);
    if !config.enabled {
        (DecisionView::Allow, baselines)
    } else if at >= baselines.len() {
        (
            DecisionView::Allow,
            baselines.push(
                (
                    server,
                    BaselineView {
                        tools: fingerprints(tools),
                        update_count: 0,
                        blocked: false,
                        block_reason: None,
                    },
                ),
            ),
        )
    } else {
        let baseline = baselines[at].1;
        let changes = changes_between(baseline.tools, fingerprints(tools), config.detect_changes);
        let risk = risk_score(changes, config);
        if baseline.blocked {
            (blocked_list_denial(server, baseline.block_reason), baselines)
        } else if changes.len() == 0 {
            (DecisionView::Allow, baselines)
        } else if risk >= config.risk_threshold {
            let message = detection_message(risk, config.risk_threshold);
            (
                DecisionView::Deny(
                    DenyReasonView {
                        code: "rug_pull_detected"@,
                        message,
                        details: Some(change_details(changes, risk, config)),
                    },
                ),
                baselines.update(
                    at,
                    (
                        server,
                        BaselineView { blocked: true, block_reason: Some(message), ..baseline },
                    ),
                ),
            )
        } else if config.update_baseline_on_allow {
            (
                DecisionView::Allow,
                baselines.update(
                    at,
                    (
                        server,
                        BaselineView {
                            tools: fingerprints(tools),
                            update_count: next_count(baseline.update_count),
                            ..baseline
                        },
                    ),
                ),
            )
        } else {
            (DecisionView::Allow, baselines)
        }
    }
}

/// The decision on an invocation of `tool` on `server`.
pub open spec fn invoke_decision(
    config: RugPullConfig,
    baselines: Baselines,
    server: Seq<char>,
    tool: Seq<char>,
) -> DecisionView {
    let at = baseline_position(baselines, server);
    if config.enabled && at < baselines.len() && baselines[at].1.blocked {
        blocked_invoke_denial(tool, server, baselines[at].1.block_reason)
    } else {
        DecisionView::Allow
    }
}

/// The baselines without those of `server`.
pub open spec fn without_server(baselines: Baselines, server: Seq<char>) -> Baselines
    decreases baselines.len(),
{
    if baselines.len() == 0 {
        Seq::empty()
    } else {
        let tail = without_server(baselines.drop_first(), server);
        if baselines[0].0 == server {
            tail
        } else {
            seq![baselines[0]] + tail
        }
    }
}

impl ToolFingerprint {
    /// The fingerprint of a tool.
    pub fn from_tool(tool: &Tool) -> (res: ToolFingerprint)
        ensures
            res@ == fingerprint_of(tool@),
    {
        let description_hash = match &tool.description {
            Some(d) => Some(hash_text(d.as_str())),
            None => None,
        };
        ToolFingerprint {
            name: tool.name.clone(),
            description_hash,
            schema_hash: hash_text(tool.input_schema.as_str()),
        }
    }
}

/// The position of the first fingerprint with the given name.
fn find_fingerprint(fps: &Vec<ToolFingerprint>, name: &str) -> (res: Option<usize>)
    ensures
        match res {
            Some(i) => i < fps@.len() && i == position_of(fingerprints_view(fps@), name@),
            None => position_of(fingerprints_view(fps@), name@) == fps@.len(),
        },
{
    let ghost fv = fingerprints_view(fps@);
    let ghost named = has_name(name@);
    let mut i: usize = 0;
    while i < fps.len()
        invariant
            i <= fps.len(),
            fv == fingerprints_view(fps@),
            named == has_name(name@),
            forall|k: int| 0 <= k < i ==> !named(#[trigger] fv[k]),
        decreases fps.len() - i,
    {
        proof {
            assert(fv[i as int] == fps@[i as int]@);
        }
        if text_eq(fps[i].name.as_str(), name) {
            proof {
                lemma_first_where_is(fv, named, i as int);
            }
            return Some(i);
        }
        i += 1;
    }
    proof {
        lemma_first_where_is(fv, named, fv.len() as int);
    }
    None
}

/// The fingerprints of a list of tools, one for each name.
pub fn fingerprint_all(tools: &Vec<Tool>) -> (res: Vec<ToolFingerprint>)
    ensures
        fingerprints_view(res@) == fingerprints(tools_view(tools@)),
{
    let ghost tv = tools_view(tools@);
    let mut out: Vec<ToolFingerprint> = Vec::new();
    let mut i: usize = 0;
    proof {
        assert(tv.take(0) =~= Seq::<ToolView>::empty());
        assert(fingerprints_view(out@) =~= Seq::<FingerprintView>::empty());
    }
    while i < tools.len()
        invariant
            i <= tools.len(),
            tv == tools_view(tools@),
            fingerprints_view(out@) == fingerprints(tv.take(i as int)),
        decreases tools.len() - i,
    {
        let fp = ToolFingerprint::from_tool(&tools[i]);
        proof {
            let next = tv.take(i + 1);
            assert(next.last() == tools@[i as int]@);
            assert(next.drop_last() =~= tv.take(i as int));
        }
        let ghost before = fingerprints_view(out@);
        let ghost fpv = fp@;
        match find_fingerprint(&out, fp.name.as_str()) {
            Some(at) => {
                out[at] = fp;
                proof {
                    assert(fingerprints_view(out@) =~= before.update(at as int, fpv));
                }
            },
            None => {
                out.push(fp);
                proof {
                    assert(fingerprints_view(out@) =~= before.push(fpv));
                }
            },
        }
        i += 1;
    }
    proof {
        assert(tv.take(tv.len() as int) =~= tv);
    }
    out
}

impl ToolChange {
    /// The name of the kind of change.
    pub fn change_type(&self) -> (res: &'static str)
        ensures
            res@ == self@.change_type(),
    {
        match self {
            ToolChange::Removed { .. } => "removed",
            ToolChange::Added { .. } => "added",
            ToolChange::DescriptionChanged { .. } => "description_changed",
            ToolChange::SchemaChanged { .. } => "schema_changed",
        }
    }

    /// The name of the tool that changed.
    pub fn tool_name(&self) -> (res: &str)
        ensures
            res@ == self@.tool_name(),
    {
        match self {
            ToolChange::Removed { name } => name.as_str(),
            ToolChange::Added { name } => name.as_str(),
            ToolChange::DescriptionChanged { name, .. } => name.as_str(),
            ToolChange::SchemaChanged { name, .. } => name.as_str(),
        }
    }
}

impl ServerBaseline {
    /// The baseline that a first list of tools establishes.
    pub fn establish(tools: &Vec<Tool>) -> (res: ServerBaseline)
        ensures
            res@ == (BaselineView {
                tools: fingerprints(tools_view(tools@)),
                update_count: 0,
                blocked: false,
                block_reason: None,
            }),
    {
        ServerBaseline {
            tools: fingerprint_all(tools),
            update_count: 0,
            blocked: false,
            block_reason: None,
        }
    }

    /// Blocks the server for the given reason.
    pub fn block(&mut self, reason: String)
        ensures
            final(self)@ == (BaselineView {
                blocked: true,
                block_reason: Some(reason@),
                ..old(self)@
            }),
    {
        self.blocked = true;
        self.block_reason = Some(reason);
    }

    /// The changes from this baseline to the given list of tools.
    pub fn detect_changes(&self, current_tools: &Vec<Tool>, config: &ChangeDetectionConfig) -> (res:
        Vec<ToolChange>)
        ensures
            changes_view(res@) == changes_between(
                self@.tools,
                fingerprints(tools_view(current_tools@)),
                *config,
            ),
    {
        let current = fingerprint_all(current_tools);
        let ghost base = fingerprints_view(self.tools@);
        let ghost cur = fingerprints_view(current@);
        let mut changes: Vec<ToolChange> = Vec::new();
        let mut i: usize = 0;
        proof {
            assert(changes_view(changes@) =~= Seq::<ChangeView>::empty());
        }
        while i < self.tools.len()
            invariant
                i <= self.tools.len(),
                base == fingerprints_view(self.tools@),
                cur == fingerprints_view(current@),
                changes_view(changes@) == baseline_changes(base, cur, *config, i as nat),
            decreases self.tools.len() - i,
        {
            let old = &self.tools[i];
            let ghost before = changes_view(changes@);
            proof {
                assert(base[i as int] == old@);
            }
            match find_fingerprint(&current, old.name.as_str()) {
                None => {
                    if config.removals {
                        changes.push(ToolChange::Removed { name: old.name.clone() });
                    }
                },
                Some(at) => {
                    let new = &current[at];
                    proof {
                        assert(cur[at as int] == new@);
                    }
                    if config.description_changes && old.description_hash != new.description_hash {
                        changes.push(
                            ToolChange::DescriptionChanged {
                                name: old.name.clone(),
                                old_hash: old.description_hash,
                                new_hash: new.description_hash,
                            },
                        );
                    }
                    if config.schema_changes && old.schema_hash != new.schema_hash {
                        changes.push(
                            ToolChange::SchemaChanged {
                                name: old.name.clone(),
                                old_hash: old.schema_hash,
                                new_hash: new.schema_hash,
                            },
                        );
                    }
                },
            }
            proof {
                assert(changes_view(changes@) =~= before + changes_of(base[i as int], cur, *config));
            }
            i += 1;
        }
        let ghost first = changes_view(changes@);
        if config.additions {
            let mut j: usize = 0;
            proof {
                assert(changes_view(changes@) =~= first + additions(base, cur, 0));
            }
            while j < current.len()
                invariant
                    j <= current.len(),
                    base == fingerprints_view(self.tools@),
                    cur == fingerprints_view(current@),
                    changes_view(changes@) == first + additions(base, cur, j as nat),
                decreases current.len() - j,
            {
                let ghost before = changes_view(changes@);
                proof {
                    assert(cur[j as int] == current@[j as int]@);
                }
                match find_fingerprint(&self.tools, current[j].name.as_str()) {
                    None => {
                        changes.push(ToolChange::Added { name: current[j].name.clone() });
                        proof {
                            assert(changes_view(changes@) =~= before.push(
                                ChangeView::Added { name: cur[j as int].name },
                            ));
                            assert(before.push(ChangeView::Added { name: cur[j as int].name })
                                =~= first + additions(base, cur, (j + 1) as nat));
                        }
                    },
                    Some(_) => {},
                }
                j += 1;
            }
        } else {
            proof {
                assert(first + Seq::<ChangeView>::empty() =~= first);
            }
        }
        changes
    }

    /// Replaces the fingerprints by those of the given list of tools.
    pub fn update(&mut self, tools: &Vec<Tool>)
        ensures
            final(self)@ == (BaselineView {
                tools: fingerprints(tools_view(tools@)),
                update_count: next_count(old(self)@.update_count),
                ..old(self)@
            }),
    {
        self.tools = fingerprint_all(tools);
        if self.update_count < u64::MAX {
            self.update_count = self.update_count + 1;
        }
    }
}

/// The guard.
pub struct RugPullDetector {
    config: RugPullConfig,
    baselines: Vec<(String, ServerBaseline)>,
}

/// The values of a list of baselines.
pub open spec fn baselines_view(entries: Seq<(String, ServerBaseline)>) -> Baselines {
    Seq::new(entries.len(), |i: int| (entries[i].0@, entries[i].1@))
}

fn weight_of(config: &RugPullConfig, change: &ToolChange) -> (res: u32)
    ensures
        res == change@.weight(*config),
{
    match change {
        ToolChange::Removed { .. } => config.removal_weight,
        ToolChange::Added { .. } => config.addition_weight,
        ToolChange::DescriptionChanged { .. } => config.description_change_weight,
        ToolChange::SchemaChanged { .. } => config.schema_change_weight,
    }
}

fn reason_details(reason: &Option<String>, tool: Option<&str>) -> (res: Option<Json>)
    ensures
        crate::decision::opt_json(res) == match opt_text(*reason) {
            Some(r) => Some(
                JsonValue::Object(
                    match tool {
                        Some(t) => seq![
                            ("original_reason"@, JsonValue::Str(r)),
                            ("blocked_tool"@, JsonValue::Str(t@)),
                        ],
                        None => seq![("original_reason"@, JsonValue::Str(r))],
                    },
                ),
            ),
            None => None,
        },
{
    match reason {
        Some(r) => {
            let mut fields: Vec<(String, Json)> = Vec::new();
            fields.push(("original_reason".to_owned(), Json::Str(r.clone())));
            match tool {
                Some(t) => {
                    fields.push(("blocked_tool".to_owned(), Json::text(t)));
                    proof {
                        lemma_object_view(fields);
                        assert(object_fields(fields@) =~= seq![
                            ("original_reason"@, JsonValue::Str(r@)),
                            ("blocked_tool"@, JsonValue::Str(t@)),
                        ]);
                    }
                },
                None => {
                    proof {
                        lemma_object_view(fields);
                        assert(object_fields(fields@) =~= seq![
                            ("original_reason"@, JsonValue::Str(r@)),
                        ]);
                    }
                },
            }
            Some(Json::Object(fields))
        },
        None => None,
    }
}

impl RugPullDetector {
    /// The configuration of the guard.
    pub closed spec fn config(&self) -> RugPullConfig {
        self.config
    }

    /// What the guard remembers of each server.
    pub closed spec fn baselines(&self) -> Baselines {
        baselines_view(self.baselines@)
    }

    /// A guard with the given configuration that remembers nothing yet.
    pub fn new(config: RugPullConfig) -> (res: RugPullDetector)
        ensures
            res.config() == config,
            res.baselines() == Seq::<(Seq<char>, BaselineView)>::empty(),
    {
        let res = RugPullDetector { config, baselines: Vec::new() };
        assert(res.baselines() =~= Seq::<(Seq<char>, BaselineView)>::empty());
        res
    }

    /// The position of the baseline of `server`.
    fn find_baseline(&self, server: &str) -> (res: Option<usize>)
        ensures
            match res {
                Some(i) => i < self.baselines@.len() && i == baseline_position(
                    self.baselines(),
                    server@,
                ),
                None => baseline_position(self.baselines(), server@) == self.baselines@.len(),
            },
    {
        let ghost bv = baselines_view(self.baselines@);
        let ghost named = of_server(server@);
        let mut i: usize = 0;
        while i < self.baselines.len()
            invariant
                i <= self.baselines.len(),
                bv == baselines_view(self.baselines@),
                named == of_server(server@),
                forall|k: int| 0 <= k < i ==> !named(#[trigger] bv[k]),
            decreases self.baselines.len() - i,
        {
            proof {
                assert(bv[i as int] == (self.baselines@[i as int].0@, self.baselines@[i as int].1@));
            }
            if text_eq(self.baselines[i].0.as_str(), server) {
                proof {
                    lemma_first_where_is(bv, named, i as int);
                }
                return Some(i);
            }
            i += 1;
        }
        proof {
            lemma_first_where_is(bv, named, bv.len() as int);
        }
        None
    }

    /// What is remembered of a server, if anything.
    pub fn baseline(&self, server_name: &str) -> (res: Option<&ServerBaseline>)
        ensures
            match res {
                Some(b) => baseline_position(self.baselines(), server_name@)
                    < self.baselines().len() && b@ == self.baselines()[baseline_position(
                    self.baselines(),
                    server_name@,
                )].1,
                None => baseline_position(self.baselines(), server_name@)
                    == self.baselines().len(),
            },
    {
        match self.find_baseline(server_name) {
            Some(at) => {
                proof {
                    assert(self.baselines()[at as int] == (
                        self.baselines@[at as int].0@,
                        self.baselines@[at as int].1@,
                    ));
                }
                Some(&self.baselines[at].1)
            },
            None => None,
        }
    }

    /// The number of servers of which something is remembered.
    pub fn server_count(&self) -> (res: usize)
        ensures
            res == self.baselines().len(),
    {
        self.baselines.len()
    }

    /// The risk of a list of changes: the sum of their weights, or the
    /// greatest number of 32 bits if the sum is greater.
    pub fn calculate_risk_score(&self, changes: &Vec<ToolChange>) -> (res: u32)
        ensures
            res == risk_score(changes_view(changes@), self.config()),
    {
        let ghost cv = changes_view(changes@);
        let mut sum: u32 = 0;
        let mut i: usize = 0;
        while i < changes.len()
            invariant
                i <= changes.len(),
                cv == changes_view(changes@),
                sum as nat == if weight_sum(cv, self.config, i as nat) > u32::MAX {
                    u32::MAX as nat
                } else {
                    weight_sum(cv, self.config, i as nat)
                },
            decreases changes.len() - i,
        {
            let w = weight_of(&self.config, &changes[i]);
            proof {
                assert(cv[i as int] == changes@[i as int]@);
            }
            sum = if sum > u32::MAX - w {
                u32::MAX
            } else {
                sum + w
            };
            i += 1;
        }
        sum
    }

    /// The details of a denial for changes.
    pub fn build_change_details(&self, changes: &Vec<ToolChange>, risk_score: u32) -> (res: Json)
        ensures
            res@ == change_details(changes_view(changes@), risk_score, self.config()),
    {
        let ghost cv = changes_view(changes@);
        let mut items: Vec<Json> = Vec::new();
        let mut i: usize = 0;
        while i < changes.len()
            invariant
                i <= changes.len(),
                cv == changes_view(changes@),
                items@.len() == i,
                forall|k: int|
                    0 <= k < i ==> (#[trigger] items@[k])@ == change_json(cv[k], self.config),
            decreases changes.len() - i,
        {
            let weight = weight_of(&self.config, &changes[i]);
            let mut fields: Vec<(String, Json)> = Vec::new();
            fields.push(("type".to_owned(), Json::text(changes[i].change_type())));
            fields.push(("tool".to_owned(), Json::text(changes[i].tool_name())));
            fields.push(("weight".to_owned(), Json::unsigned(weight as u64)));
            proof {
                assert(cv[i as int] == changes@[i as int]@);
                lemma_object_view(fields);
                assert(object_fields(fields@) =~= change_json(cv[i as int], self.config)->Object_0);
            }
            items.push(Json::Object(fields));
            i += 1;
        }
        let mut details: Vec<(String, Json)> = Vec::new();
        proof {
            lemma_array_view(items);
            assert(array_values(items@) =~= Seq::new(
                cv.len(),
                |i: int| change_json(cv[i], self.config),
            ));
        }
        details.push(("changes".to_owned(), Json::Array(items)));
        details.push(("total_risk_score".to_owned(), Json::unsigned(risk_score as u64)));
        details.push(("threshold".to_owned(), Json::unsigned(self.config.risk_threshold as u64)));
        proof {
            lemma_object_view(details);
            assert(object_fields(details@) =~= change_details(cv, risk_score, self.config)->Object_0);
        }
        Json::Object(details)
    }

    /// Decides on a list of tools of the server that the context names, and
    /// remembers what the decision rests on.
    ///
    /// A list of a server without baseline is allowed and becomes its
    /// baseline. A list of a blocked server is denied. Any other list is
    /// compared with the baseline: without changes it is allowed; with
    /// changes whose risk reaches the threshold it is denied and the server
    /// is blocked; with changes of lower risk it is allowed and, if so
    /// configured, becomes the baseline.
    pub fn evaluate_tools_list(&mut self, tools: &Vec<Tool>, context: &GuardContext) -> (res:
        GuardResult)
        ensures
            final(self).config() == old(self).config(),
            result_view(res) == Ok::<DecisionView, ErrorView>(
                list_outcome(
                    old(self).config(),
                    old(self).baselines(),
                    context@.server_name,
                    tools_view(tools@),
                ).0,
            ),
            final(self).baselines() == list_outcome(
                old(self).config(),
                old(self).baselines(),
                context@.server_name,
                tools_view(tools@),
            ).1,
    {
        if !self.config.enabled {
            return Ok(GuardDecision::Allow);
        }
        let server_name = context.server_name.as_str();
        let ghost before = baselines_view(self.baselines@);
        match self.find_baseline(server_name) {
            Some(at) => {
                proof {
                    assert(before[at as int] == (
                        self.baselines@[at as int].0@,
                        self.baselines@[at as int].1@,
                    ));
                    lemma_first_where(before, of_server(server_name@));
                }
                if self.baselines[at].1.blocked {
                    let mut message = "Server '".to_owned();
                    message.append(server_name);
                    message.append("' is blocked due to previous rug pull detection");
                    let details = reason_details(&self.baselines[at].1.block_reason, None);
                    return Ok(
                        GuardDecision::Deny(
                            DenyReason {
                                code: "rug_pull_server_blocked".to_owned(),
                                message,
                                details,
                            },
                        ),
                    );
                }
                let changes = self.baselines[at].1.detect_changes(
                    tools,
                    &self.config.detect_changes,
                );
                if changes.len() == 0 {
                    return Ok(GuardDecision::Allow);
                }
                let risk_score = self.calculate_risk_score(&changes);
                if risk_score >= self.config.risk_threshold {
                    let mut deny_message = "Suspicious tool changes detected (risk score: ".to_owned();
                    deny_message.append(decimal_text(risk_score as u64).as_str());
                    deny_message.append(" >= threshold: ");
                    deny_message.append(decimal_text(self.config.risk_threshold as u64).as_str());
                    deny_message.append(")");
                    let details = self.build_change_details(&changes, risk_score);
                    self.baselines[at].1.block(deny_message.clone());
                    proof {
                        assert(baselines_view(self.baselines@) =~= before.update(
                            at as int,
                            (
                                server_name@,
                                BaselineView {
                                    blocked: true,
                                    block_reason: Some(deny_message@),
                                    ..before[at as int].1
                                },
                            ),
                        ));
                    }
                    return Ok(
                        GuardDecision::Deny(
                            DenyReason {
                                code: "rug_pull_detected".to_owned(),
                                message: deny_message,
                                details: Some(details),
                            },
                        ),
                    );
                }
                if self.config.update_baseline_on_allow {
                    self.baselines[at].1.update(tools);
                    proof {
                        assert(baselines_view(self.baselines@) =~= before.update(
                            at as int,
                            (
                                server_name@,
                                BaselineView {
                                    tools: fingerprints(tools_view(tools@)),
                                    update_count: next_count(before[at as int].1.update_count),
                                    ..before[at as int].1
                                },
                            ),
                        ));
                    }
                }
                Ok(GuardDecision::Allow)
            },
            None => {
                let baseline = ServerBaseline::establish(tools);
                let ghost bv = baseline@;
                self.baselines.push((context.server_name.clone(), baseline));
                proof {
                    assert(baselines_view(self.baselines@) =~= before.push((server_name@, bv)));
                }
                Ok(GuardDecision::Allow)
            },
        }
    }

    /// Decides on a tool invocation: denied if the server is blocked.
    pub fn evaluate_tool_invoke(&self, tool_name: &str, arguments: &Json, context: &GuardContext)
        -> (res: GuardResult)
        ensures
            result_view(res) == Ok::<DecisionView, ErrorView>(
                invoke_decision(self.config(), self.baselines(), context@.server_name, tool_name@),
            ),
    {
        if !self.config.enabled {
            return Ok(GuardDecision::Allow);
        }
        let server_name = context.server_name.as_str();
        match self.find_baseline(server_name) {
            Some(at) => {
                proof {
                    let bv = baselines_view(self.baselines@);
                    assert(bv[at as int] == (
                        self.baselines@[at as int].0@,
                        self.baselines@[at as int].1@,
                    ));
                }
                if self.baselines[at].1.blocked {
                    let mut message = "Tool '".to_owned();
                    message.append(tool_name);
                    message.append("' blocked - server '");
                    message.append(server_name);
                    message.append("' is blocked due to rug pull detection");
                    let details = reason_details(
                        &self.baselines[at].1.block_reason,
                        Some(tool_name),
                    );
                    return Ok(
                        GuardDecision::Deny(
                            DenyReason {
                                code: "rug_pull_server_blocked".to_owned(),
                                message,
                                details,
                            },
                        ),
                    );
                }
                Ok(GuardDecision::Allow)
            },
            None => Ok(GuardDecision::Allow),
        }
    }

    /// Forgets what is remembered of a server.
    pub fn reset_server(&mut self, server_name: &str)
        ensures
            final(self).config() == old(self).config(),
            final(self).baselines() == without_server(old(self).baselines(), server_name@),
    {
        let ghost before = baselines_view(self.baselines@);
        let mut kept: Vec<(String, ServerBaseline)> = Vec::new();
        let mut rest: Vec<(String, ServerBaseline)> = Vec::new();
        rest.append(&mut self.baselines);
        proof {
            assert(baselines_view(rest@) =~= before);
            assert(baselines_view(kept@) + without_server(before, server_name@)
                =~= without_server(before, server_name@));
        }
        while rest.len() > 0
            invariant
                without_server(before, server_name@) == baselines_view(kept@) + without_server(
                    baselines_view(rest@),
                    server_name@,
                ),
            decreases rest@.len(),
        {
            let ghost rv = baselines_view(rest@);
            let ghost kv = baselines_view(kept@);
            let ghost old_rest = rest@;
            let entry = rest.remove(0);
            proof {
                assert(rest@ == old_rest.remove(0));
                assert(entry == old_rest[0]);
                assert(rv[0] == (entry.0@, entry.1@));
                assert(baselines_view(rest@) =~= rv.drop_first()) by {
                    assert forall|k: int| 0 <= k < rest@.len() implies baselines_view(rest@)[k]
                        == rv.drop_first()[k] by {
                        assert(rest@[k] == old_rest[k + 1]);
                        assert(rv[k + 1] == (old_rest[k + 1].0@, old_rest[k + 1].1@));
                    }
                }
            }
            if !text_eq(entry.0.as_str(), server_name) {
                kept.push(entry);
                proof {
                    let tail = without_server(rv.drop_first(), server_name@);
                    assert(baselines_view(kept@) =~= kv.push(rv[0]));
                    assert(kv + (seq![rv[0]] + tail) =~= kv.push(rv[0]) + tail);
                }
            }
        }
        proof {
            assert(baselines_view(kept@) + Seq::<(Seq<char>, BaselineView)>::empty()
                =~= baselines_view(kept@));
        }
        self.baselines = kept;
    }
}

/// The baseline of a server stays where it is when the baseline at its
/// position is replaced by one of the same server.
proof fn lemma_position_kept(baselines: Baselines, server: Seq<char>, entry: BaselineView)
    requires
        baseline_position(baselines, server) < baselines.len(),
    ensures
        baseline_position(
            baselines.update(baseline_position(baselines, server), (server, entry)),
            server,
        ) == baseline_position(baselines, server),
{
    let named = of_server(server);
    lemma_first_where(baselines, named);
    let at = baseline_position(baselines, server);
    let after = baselines.update(at, (server, entry));
    assert forall|i: int| 0 <= i < at implies !named(#[trigger] after[i]) by {
        assert(after[i] == baselines[i]);
    }
    lemma_first_where_is(after, named, at);
}

/// What happens to the baseline of one server leaves where another server's
/// baseline stands, and what it holds, as they are.
proof fn lemma_other_position(
    baselines: Baselines,
    after: Baselines,
    server: Seq<char>,
    other: Seq<char>,
)
    requires
        server != other,
        baseline_position(baselines, server) < baselines.len(),
        after.len() >= baselines.len(),
        forall|i: int|
            0 <= i < baselines.len() ==> #[trigger] after[i] == baselines[i] || (after[i].0
                == other && baselines[i].0 == other),
    ensures
        baseline_position(after, server) == baseline_position(baselines, server),
        after[baseline_position(after, server)] == baselines[baseline_position(baselines, server)],
{
    let named = of_server(server);
    lemma_first_where(baselines, named);
    let at = baseline_position(baselines, server);
    assert forall|i: int| 0 <= i < at implies !named(#[trigger] after[i]) by {
        assert(!named(baselines[i]));
    }
    assert(named(baselines[at]));
    assert(after[at] == baselines[at]);
    lemma_first_where_is(after, named, at);
}

/// Sticky blocking, first part: a list that is denied for detected changes
/// leaves its server blocked.
pub proof fn law_detection_blocks(
    config: RugPullConfig,
    baselines: Baselines,
    server: Seq<char>,
    tools: Seq<ToolView>,
)
    requires
        list_outcome(config, baselines, server, tools).0 matches DecisionView::Deny(r) && r.code
            == "rug_pull_detected"@,
    ensures
        config.enabled,
        is_blocked(list_outcome(config, baselines, server, tools).1, server),
{
    reveal_strlit("rug_pull_detected");
    reveal_strlit("rug_pull_server_blocked");
    let at = baseline_position(baselines, server);
    lemma_first_where(baselines, of_server(server));
    assert("rug_pull_detected"@.len() != "rug_pull_server_blocked"@.len());
    let baseline = baselines[at].1;
    let changes = changes_between(baseline.tools, fingerprints(tools), config.detect_changes);
    let risk = risk_score(changes, config);
    let message = detection_message(risk, config.risk_threshold);
    lemma_position_kept(
        baselines,
        server,
        BaselineView { blocked: true, block_reason: Some(message), ..baseline },
    );
}

/// Sticky blocking, second part: while a server is blocked, every list of
/// its tools and every invocation of one of its tools is denied, and the
/// server stays blocked.
pub proof fn law_blocked_is_denied(
    config: RugPullConfig,
    baselines: Baselines,
    server: Seq<char>,
    tools: Seq<ToolView>,
    tool: Seq<char>,
)
    requires
        config.enabled,
        is_blocked(baselines, server),
    ensures
        list_outcome(config, baselines, server, tools).0 is Deny,
        list_outcome(config, baselines, server, tools).1 == baselines,
        invoke_decision(config, baselines, server, tool) is Deny,
{
}

/// Sticky blocking, third part: what the guard decides on another server
/// leaves a blocked server blocked.
pub proof fn law_block_survives_other_lists(
    config: RugPullConfig,
    baselines: Baselines,
    server: Seq<char>,
    other: Seq<char>,
    tools: Seq<ToolView>,
)
    requires
        is_blocked(baselines, server),
        other != server,
    ensures
        is_blocked(list_outcome(config, baselines, other, tools).1, server),
{
    let after = list_outcome(config, baselines, other, tools).1;
    let at = baseline_position(baselines, other);
    lemma_first_where(baselines, of_server(other));
    lemma_other_position(baselines, after, server, other);
}

/// Sticky blocking, fourth part: resetting another server leaves a blocked
/// server blocked.
pub proof fn law_block_survives_other_reset(
    baselines: Baselines,
    server: Seq<char>,
    other: Seq<char>,
)
    requires
        is_blocked(baselines, server),
        other != server,
    ensures
        is_blocked(without_server(baselines, other), server),
    decreases baselines.len(),
{
    let named = of_server(server);
    if baselines.len() > 0 {
        let rest = baselines.drop_first();
        let after = without_server(baselines, other);
        let tail = without_server(rest, other);
        if baselines[0].0 == server {
            assert(after == seq![baselines[0]] + tail);
            assert(after[0] == baselines[0]);
            assert(first_where(after, named) == 0);
        } else {
            assert(first_where(baselines, named) == 1 + first_where(rest, named));
            lemma_first_where(rest, named);
            assert(rest[first_where(rest, named)] == baselines[1 + first_where(rest, named)]);
            law_block_survives_other_reset(rest, server, other);
            lemma_first_where(tail, named);
            if baselines[0].0 != other {
                assert(after == seq![baselines[0]] + tail);
                assert(after[0] == baselines[0]);
                assert(after.drop_first() =~= tail);
                assert(first_where(after, named) == 1 + first_where(tail, named));
                assert(after[1 + first_where(tail, named)] == tail[first_where(tail, named)]);
            }
        }
    }
}

/// After a server was reset nothing is remembered of it: it is not blocked,
/// and its next list of tools is allowed and becomes its baseline.
pub proof fn law_reset_forgets(baselines: Baselines, server: Seq<char>)
    ensures
        baseline_position(without_server(baselines, server), server) == without_server(
            baselines,
            server,
        ).len(),
        !is_blocked(without_server(baselines, server), server),
    decreases baselines.len(),
{
    let named = of_server(server);
    if baselines.len() > 0 {
        let rest = baselines.drop_first();
        law_reset_forgets(rest, server);
        let after = without_server(baselines, server);
        let tail = without_server(rest, server);
        if baselines[0].0 != server {
            assert(after == seq![baselines[0]] + tail);
            assert(after[0] == baselines[0]);
            assert(after.drop_first() =~= tail);
        }
    }
}

/// Fingerprint sensitivity to the description: two tools that differ only
/// in their description have the same schema hash, and different
/// description hashes unless both have a description and the two
/// descriptions have the same hash.
pub proof fn law_description_changes_fingerprint(a: ToolView, b: ToolView)
    requires
        a.name == b.name,
        a.input_schema == b.input_schema,
        a.description != b.description,
        !(a.description matches Some(x) && b.description matches Some(y) && text_hash(x)
            == text_hash(y)),
    ensures
        fingerprint_of(a).schema_hash == fingerprint_of(b).schema_hash,
        fingerprint_of(a).description_hash != fingerprint_of(b).description_hash,
{
}

/// Fingerprint sensitivity to the schema: two tools that differ only in
/// their input schema have the same description hash, and different schema
/// hashes unless the two schemas have the same hash.
pub proof fn law_schema_changes_fingerprint(a: ToolView, b: ToolView)
    requires
        a.name == b.name,
        a.description == b.description,
        a.input_schema != b.input_schema,
        text_hash(a.input_schema) != text_hash(b.input_schema),
    ensures
        fingerprint_of(a).description_hash == fingerprint_of(b).description_hash,
        fingerprint_of(a).schema_hash != fingerprint_of(b).schema_hash,
{
}

} // verus!
