//! The guard that looks for prompt-injection patterns in the metadata of
//! tools: texts that try to make a model ignore its instructions, claim
//! system authority, bypass safety, change its role, hide instructions or
//! leak its prompt.
use crate::decision::{
    DecisionView, DenyReason, DenyReasonView, ErrorView, GuardContext, GuardDecision, GuardError,
    GuardResult, result_view, texts_view,
};
use crate::json::{
    array_values, lemma_array_view, lemma_object_view, object_fields, Json, JsonValue, NumberValue,
};
use crate::order::{first_where, lemma_first_where_is};
use crate::pattern::{compile, describe, find_first, first_match, pattern_accepted, Pattern};
use crate::text::{bytes_of, decimal, decimal_text, slice_text};
use crate::tool::{Tool, ToolView, tools_view};
use vstd::prelude::*;
use vstd::string::StringSliceAdditionalSpecFns;
use vstd::utf8::decode_utf8;

verus! {

/// A part of a tool's metadata that can be scanned.
#[derive(Debug, Clone, Copy, PartialEq, Eq, Structural)]
pub enum ScanField {
    Name,
    Description,
    InputSchema,
}

/// Configuration of the guard.
#[derive(Debug)]
pub struct ToolPoisoningConfig {
    /// Strict mode.
    pub strict_mode: bool,
    /// Patterns to look for besides the built-in ones.
    pub custom_patterns: Vec<String>,
    /// The parts of a tool's metadata that are scanned.
    pub scan_fields: Vec<ScanField>,
    /// The number of violations in a list from which the list is denied.
    pub alert_threshold: usize,
}

/// Whether strict mode is on by default.
pub fn default_strict_mode() -> (res: bool)
    ensures
        res,
{
    true
}

/// The parts that are scanned by default: all.
pub fn default_scan_fields() -> (res: Vec<ScanField>)
    ensures
        res@ == seq![ScanField::Name, ScanField::Description, ScanField::InputSchema],
{
    let mut v: Vec<ScanField> = Vec::new();
    v.push(ScanField::Name);
    v.push(ScanField::Description);
    v.push(ScanField::InputSchema);
    assert(v@ =~= seq![ScanField::Name, ScanField::Description, ScanField::InputSchema]);
    v
}

/// The default number of violations from which a list is denied.
pub fn default_alert_threshold() -> (res: usize)
    ensures
        res == 1,
{
    1
}

impl Default for ToolPoisoningConfig {
    fn default() -> (res: ToolPoisoningConfig)
        ensures
            res.strict_mode,
            res.custom_patterns@.len() == 0,
            res.scan_fields@ == seq![
                ScanField::Name,
                ScanField::Description,
                ScanField::InputSchema,
            ],
            res.alert_threshold == 1,
    {
        ToolPoisoningConfig {
            strict_mode: default_strict_mode(),
            custom_patterns: Vec::new(),
            scan_fields: default_scan_fields(),
            alert_threshold: default_alert_threshold(),
        }
    }
}

/// The built-in patterns. All ignore case, and accept whitespace, `_` and
/// `-` between the words of a phrase.
pub open spec fn built_in_sources() -> Seq<Seq<char>> {
    seq![
        r"(?i)ignore[\s_-]+(all[\s_-]+)?previous[\s_-]+(instructions?|commands?|prompts?)"@,
        r"(?i)disregard[\s_-]+(all[\s_-]+)?(previous|prior|earlier)[\s_-]+(instructions?|commands?)"@,
        r"(?i)forget[\s_-]+(all[\s_-]+)?(previous|prior|earlier)[\s_-]+(instructions?|commands?)"@,
        r"(?i)SYSTEM:[\s_-]*(override|execute|run|bypass)"@,
        r"(?i)ADMIN:[\s_-]*(override|execute|run|bypass)"@,
        r"(?i)ROOT:[\s_-]*(execute|run)"@,
        r"(?i)execute[\s_-]+as[\s_-]+(root|admin|system)"@,
        r"(?i)disregard[\s_-]+(all[\s_-]+)?(safety|security|restrictions?)"@,
        r"(?i)bypass[\s_-]+(all[\s_-]+)?(safety|security|restrictions?)"@,
        r"(?i)ignore[\s_-]+(all[\s_-]+)?(safety|security|restrictions?)"@,
        r"(?i)disable[\s_-]+(all[\s_-]+)?(safety|security|guardrails?)"@,
        r"(?i)you[\s_-]+are[\s_-]+now[\s_-]+(a[\s_-]+)?(admin|root|system|jailbroken)"@,
        r"(?i)act[\s_-]+as[\s_-]+(if[\s_-]+you[\s_-]+are[\s_-]+)?(admin|root|system)"@,
        r"(?i)pretend[\s_-]+(you[\s_-]+are|to[\s_-]+be)[\s_-]+(admin|root|system)"@,
        r"(?i)\[HIDDEN\]"@,
        r"(?i)\[SECRET\]"@,
        r"(?i)<!--\s*INJECT"@,
        r"(?i)print[\s_-]+(your|the)[\s_-]+(system[\s_-]+)?prompt"@,
        r"(?i)show[\s_-]+(me[\s_-]+)?(your|the)[\s_-]+(system[\s_-]+)?prompt"@,
        r"(?i)reveal[\s_-]+(your|the)[\s_-]+(system[\s_-]+)?prompt"@,
        r"(?i)\\u[0-9a-f]{4}.*execute"@,
        r"(?i)\\x[0-9a-f]{2}.*execute"@,
    ]
}

/// The built-in patterns.
pub fn built_in_patterns() -> (res: Vec<&'static str>)
    ensures
        res@.len() == built_in_sources().len(),
        forall|i: int| 0 <= i < res@.len() ==> (#[trigger] res@[i])@ == built_in_sources()[i],
{
    let mut v: Vec<&'static str> = Vec::new();
    v.push(r"(?i)ignore[\s_-]+(all[\s_-]+)?previous[\s_-]+(instructions?|commands?|prompts?)");
    v.push(
        r"(?i)disregard[\s_-]+(all[\s_-]+)?(previous|prior|earlier)[\s_-]+(instructions?|commands?)",
    );
    v.push(
        r"(?i)forget[\s_-]+(all[\s_-]+)?(previous|prior|earlier)[\s_-]+(instructions?|commands?)",
    );
    v.push(r"(?i)SYSTEM:[\s_-]*(override|execute|run|bypass)");
    v.push(r"(?i)ADMIN:[\s_-]*(override|execute|run|bypass)");
    v.push(r"(?i)ROOT:[\s_-]*(execute|run)");
    v.push(r"(?i)execute[\s_-]+as[\s_-]+(root|admin|system)");
    v.push(r"(?i)disregard[\s_-]+(all[\s_-]+)?(safety|security|restrictions?)");
    v.push(r"(?i)bypass[\s_-]+(all[\s_-]+)?(safety|security|restrictions?)");
    v.push(r"(?i)ignore[\s_-]+(all[\s_-]+)?(safety|security|restrictions?)");
    v.push(r"(?i)disable[\s_-]+(all[\s_-]+)?(safety|security|guardrails?)");
    v.push(r"(?i)you[\s_-]+are[\s_-]+now[\s_-]+(a[\s_-]+)?(admin|root|system|jailbroken)");
    v.push(r"(?i)act[\s_-]+as[\s_-]+(if[\s_-]+you[\s_-]+are[\s_-]+)?(admin|root|system)");
    v.push(r"(?i)pretend[\s_-]+(you[\s_-]+are|to[\s_-]+be)[\s_-]+(admin|root|system)");
    v.push(r"(?i)\[HIDDEN\]");
    v.push(r"(?i)\[SECRET\]");
    v.push(r"(?i)<!--\s*INJECT");
    v.push(r"(?i)print[\s_-]+(your|the)[\s_-]+(system[\s_-]+)?prompt");
    v.push(r"(?i)show[\s_-]+(me[\s_-]+)?(your|the)[\s_-]+(system[\s_-]+)?prompt");
    v.push(r"(?i)reveal[\s_-]+(your|the)[\s_-]+(system[\s_-]+)?prompt");
    v.push(r"(?i)\\u[0-9a-f]{4}.*execute");
    v.push(r"(?i)\\x[0-9a-f]{2}.*execute");
    v
}

/// A pattern that was found in a part of a tool's metadata.
#[derive(Debug)]
pub struct DetectedViolation {
    /// The part: `tool.name`, `tool.description` or `tool.input_schema`.
    pub field: String,
    /// The pattern that matched.
    pub pattern: String,
    /// The text of its first match.
    pub matched_text: String,
}

/// The mathematical value of a [`DetectedViolation`].
pub struct ViolationView {
    pub field: Seq<char>,
    pub pattern: Seq<char>,
    pub matched_text: Seq<char>,
}

impl View for DetectedViolation {
    type V = ViolationView;

    open spec fn view(&self) -> ViolationView {
        ViolationView {
            field: self.field@,
            pattern: self.pattern@,
            matched_text: self.matched_text@,
        }
    }
}

/// The values of a list of violations.
pub open spec fn violations_view(vs: Seq<DetectedViolation>) -> Seq<ViolationView> {
    Seq::new(vs.len(), |i: int| vs[i]@)
}

/// The sources of a list of compiled patterns.
pub open spec fn sources_of(patterns: Seq<Pattern>) -> Seq<Seq<char>> {
    Seq::new(patterns.len(), |i: int| patterns[i].source())
}

/// What is found in one text: the first of the patterns, in their order,
/// that matches it, with the text of its first match.
pub open spec fn violation_in(sources: Seq<Seq<char>>, text: Seq<char>, field: Seq<char>) -> Option<
    ViolationView,
> {
    let at = first_where(sources, matches_text(text));
    if at < sources.len() {
        let m = first_match(sources[at], text)->Some_0;
        Some(
            ViolationView {
                field,
                pattern: sources[at],
                matched_text: decode_utf8(bytes_of(text).subrange(m.0, m.1)),
            },
        )
    } else {
        None
    }
}

/// Whether a pattern matches `text`.
pub open spec fn matches_text(text: Seq<char>) -> spec_fn(Seq<char>) -> bool {
    |s: Seq<char>| first_match(s, text) is Some
}

/// Zero or one violation as a list.
pub open spec fn listed(v: Option<ViolationView>) -> Seq<ViolationView> {
    match v {
        Some(x) => seq![x],
        None => Seq::empty(),
    }
}

/// What is found in one tool: at most one violation for each of its name,
/// its description and its input schema, in this order, as far as the part
/// is among `fields`.
pub open spec fn tool_violations(fields: Seq<ScanField>, sources: Seq<Seq<char>>, tool: ToolView)
    -> Seq<ViolationView> {
    let in_name = if fields.contains(ScanField::Name) {
        listed(violation_in(sources, tool.name, "tool.name"@))
    } else {
        Seq::empty()
    };
    let in_description = if fields.contains(ScanField::Description) && tool.description is Some {
        listed(violation_in(sources, tool.description->Some_0, "tool.description"@))
    } else {
        Seq::empty()
    };
    let in_schema = if fields.contains(ScanField::InputSchema) {
        listed(violation_in(sources, tool.input_schema, "tool.input_schema"@))
    } else {
        Seq::empty()
    };
    in_name + in_description + in_schema
}

/// What is found in a list of tools, tool after tool.
pub open spec fn list_violations(
    fields: Seq<ScanField>,
    sources: Seq<Seq<char>>,
    tools: Seq<ToolView>,
) -> Seq<ViolationView>
    decreases tools.len(),
{
    if tools.len() == 0 {
        Seq::empty()
    } else {
        list_violations(fields, sources, tools.drop_last()) + tool_violations(
            fields,
            sources,
            tools.last(),
        )
    }
}

/// One violation as it stands in the details of a denial.
pub open spec fn violation_json(v: ViolationView) -> JsonValue {
    JsonValue::Object(
        seq![
            ("field"@, JsonValue::Str(v.field)),
            ("pattern"@, JsonValue::Str(v.pattern)),
            ("matched_text"@, JsonValue::Str(v.matched_text)),
        ],
    )
}

/// The details of a denial.
pub open spec fn poisoning_details(vs: Seq<ViolationView>, threshold: usize) -> JsonValue {
    JsonValue::Object(
        seq![
            ("violations"@, JsonValue::Array(Seq::new(vs.len(), |i: int| violation_json(vs[i])))),
            ("threshold"@, JsonValue::Number(NumberValue::Unsigned(threshold as u64))),
        ],
    )
}

/// The decision on a list of tools: denied when the number of violations in
/// it reaches the threshold.
pub open spec fn poisoning_decision(
    threshold: usize,
    fields: Seq<ScanField>,
    sources: Seq<Seq<char>>,
    tools: Seq<ToolView>,
) -> DecisionView {
    let vs = list_violations(fields, sources, tools);
    if vs.len() >= threshold {
        DecisionView::Deny(
            DenyReasonView {
                code: "tool_poisoning_detected"@,
                message: "Detected "@ + decimal(vs.len()) + " potential tool poisoning pattern(s) in MCP server response"@,
                details: Some(poisoning_details(vs, threshold)),
            },
        )
    } else {
        DecisionView::Allow
    }
}

/// The guard.
pub struct ToolPoisoningDetector {
    config: ToolPoisoningConfig,
    patterns: Vec<Pattern>,
}

/// Whether `field` is among `fields`.
fn has_field(fields: &Vec<ScanField>, field: ScanField) -> (res: bool)
    ensures
        res == fields@.contains(field),
{
    let mut i: usize = 0;
    while i < fields.len()
        invariant
            i <= fields.len(),
            forall|k: int| 0 <= k < i ==> fields@[k] != field,
        decreases fields.len() - i,
    {
        if fields[i] == field {
            return true;
        }
        i += 1;
    }
    false
}

/// Compiles each pattern of a list.
pub fn build_regex_set(patterns: &Vec<String>) -> (res: Result<Vec<Pattern>, regex::Error>)
    ensures
        res is Ok <==> forall|i: int|
            0 <= i < patterns@.len() ==> pattern_accepted(#[trigger] patterns@[i]@),
        res matches Ok(compiled) ==> sources_of(compiled@) == texts_view(patterns@),
{
    let mut out: Vec<Pattern> = Vec::new();
    let mut i: usize = 0;
    while i < patterns.len()
        invariant
            i <= patterns.len(),
            out@.len() == i,
            forall|k: int| 0 <= k < i ==> pattern_accepted(#[trigger] patterns@[k]@),
            forall|k: int| 0 <= k < i ==> (#[trigger] out@[k]).source() == patterns@[k]@,
        decreases patterns.len() - i,
    {
        match compile(patterns[i].as_str()) {
            Ok(p) => {
                out.push(p);
            },
            Err(e) => {
                assert(!pattern_accepted(patterns@[i as int]@));
                return Err(e);
            },
        }
        i += 1;
    }
    assert(sources_of(out@) =~= texts_view(patterns@));
    Ok(out)
}

/// Whether one of the patterns matches the text.
pub fn matches_any(text: &str, patterns: &Vec<Pattern>) -> (res: bool)
    ensures
        res == exists|i: int|
            0 <= i < patterns@.len() && first_match(
                (#[trigger] patterns@[i]).source(),
                text@,
            ) is Some,
{
    let mut i: usize = 0;
    while i < patterns.len()
        invariant
            i <= patterns.len(),
            forall|k: int|
                0 <= k < i ==> first_match((#[trigger] patterns@[k]).source(), text@) is None,
        decreases patterns.len() - i,
    {
        if find_first(&patterns[i], text).is_some() {
            return true;
        }
        i += 1;
    }
    false
}

/// The patterns that a guard with the given custom patterns looks for: the
/// built-in ones, then the custom ones.
pub open spec fn all_sources(custom: Seq<Seq<char>>) -> Seq<Seq<char>> {
    built_in_sources() + custom
}

impl ToolPoisoningDetector {
    /// The patterns that the guard looks for, in the order in which they are
    /// tried.
    pub closed spec fn sources(&self) -> Seq<Seq<char>> {
        sources_of(self.patterns@)
    }

    /// The parts of a tool's metadata that are scanned.
    pub closed spec fn scan_fields(&self) -> Seq<ScanField> {
        self.config.scan_fields@
    }

    /// The number of violations from which a list is denied.
    pub closed spec fn alert_threshold(&self) -> usize {
        self.config.alert_threshold
    }

    /// A guard with the given configuration. Fails with a configuration
    /// error if the engine rejects one of the patterns.
    pub fn new(config: ToolPoisoningConfig) -> (res: Result<ToolPoisoningDetector, GuardError>)
        ensures
            res is Ok <==> forall|i: int|
                0 <= i < all_sources(texts_view(config.custom_patterns@)).len()
                    ==> pattern_accepted(
                    #[trigger] all_sources(texts_view(config.custom_patterns@))[i],
                ),
            res matches Ok(d) ==> {
                &&& d.sources() == all_sources(texts_view(config.custom_patterns@))
                &&& d.scan_fields() == config.scan_fields@
                &&& d.alert_threshold() == config.alert_threshold
            },
            res matches Err(e) ==> e@ matches ErrorView::ConfigError(m) && m.len() >= 23
                && m.subrange(0, 23) == "Invalid regex pattern: "@,
    {
        let built_in = built_in_patterns();
        let mut all: Vec<String> = Vec::new();
        let mut i: usize = 0;
        while i < built_in.len()
            invariant
                i <= built_in.len(),
                all@.len() == i,
                forall|k: int| 0 <= k < i ==> (#[trigger] all@[k])@ == built_in@[k]@,
            decreases built_in.len() - i,
        {
            all.push(built_in[i].to_owned());
            i += 1;
        }
        let mut j: usize = 0;
        while j < config.custom_patterns.len()
            invariant
                j <= config.custom_patterns.len(),
                all@.len() == built_in@.len() + j,
                forall|k: int|
                    0 <= k < built_in@.len() ==> (#[trigger] all@[k])@ == built_in@[k]@,
                forall|k: int|
                    0 <= k < j ==> (#[trigger] all@[built_in@.len() + k])@
                        == config.custom_patterns@[k]@,
            decreases config.custom_patterns.len() - j,
        {
            all.push(config.custom_patterns[j].clone());
            j += 1;
        }
        proof {
            let wanted = all_sources(texts_view(config.custom_patterns@));
            assert(texts_view(all@).len() == wanted.len());
            assert forall|k: int| 0 <= k < wanted.len() implies texts_view(all@)[k]
                == wanted[k] by {
                if k >= built_in@.len() {
                    assert(all@[built_in@.len() + (k - built_in@.len())]@
                        == config.custom_patterns@[k - built_in@.len()]@);
                }
            }
            assert(texts_view(all@) =~= wanted);
        }
        match build_regex_set(&all) {
            Ok(patterns) => {
                proof {
                    let wanted = all_sources(texts_view(config.custom_patterns@));
                    assert forall|k: int| 0 <= k < wanted.len() implies pattern_accepted(
                        #[trigger] wanted[k],
                    ) by {
                        assert(pattern_accepted(all@[k]@));
                    }
                }
                Ok(ToolPoisoningDetector { config, patterns })
            },
            Err(e) => {
                proof {
                    let wanted = all_sources(texts_view(config.custom_patterns@));
                    let k = choose|k: int| 0 <= k < all@.len() && !pattern_accepted(all@[k]@);
                    assert(!pattern_accepted(wanted[k]));
                }
                let mut message = "Invalid regex pattern: ".to_owned();
                proof {
                    reveal_strlit("Invalid regex pattern: ");
                }
                let ghost prefix = message@;
                message.append(describe(&e).as_str());
                proof {
                    assert(message@.subrange(0, 23) =~= prefix);
                }
                Err(GuardError::ConfigError(message))
            },
        }
    }

    /// What is found in one text.
    pub fn scan_text(&self, text: &str, field: &str) -> (res: Option<DetectedViolation>)
        ensures
            match res {
                Some(v) => violation_in(self.sources(), text@, field@) == Some(v@),
                None => violation_in(self.sources(), text@, field@) is None,
            },
    {
        broadcast use vstd::utf8::encode_utf8_decode_utf8;

        let ghost sources = sources_of(self.patterns@);
        let ghost hit = matches_text(text@);
        let mut i: usize = 0;
        while i < self.patterns.len()
            invariant
                i <= self.patterns.len(),
                sources == sources_of(self.patterns@),
                hit == matches_text(text@),
                forall|k: int| 0 <= k < i ==> !hit(#[trigger] sources[k]),
            decreases self.patterns.len() - i,
        {
            proof {
                assert(sources[i as int] == self.patterns@[i as int].source());
            }
            match find_first(&self.patterns[i], text) {
                Some(span) => {
                    proof {
                        assert(hit(sources[i as int]));
                        lemma_first_where_is(sources, hit, i as int);
                    }
                    let matched = match slice_text(text, span.start, span.end) {
                        Some(m) => m,
                        None => "",
                    };
                    return Some(
                        DetectedViolation {
                            field: field.to_owned(),
                            pattern: self.patterns[i].as_str().to_owned(),
                            matched_text: matched.to_owned(),
                        },
                    );
                },
                None => {
                    assert(!hit(sources[i as int]));
                },
            }
            i += 1;
        }
        proof {
            lemma_first_where_is(sources, hit, sources.len() as int);
        }
        None
    }

    /// What is found in one tool.
    pub fn scan_tool(&self, tool: &Tool) -> (res: Vec<DetectedViolation>)
        ensures
            violations_view(res@) == tool_violations(self.scan_fields(), self.sources(), tool@),
    {
        let mut violations: Vec<DetectedViolation> = Vec::new();
        if has_field(&self.config.scan_fields, ScanField::Name) {
            match self.scan_text(tool.name.as_str(), "tool.name") {
                Some(v) => {
                    violations.push(v);
                },
                None => {},
            }
        }
        let ghost after_name = violations_view(violations@);
        if has_field(&self.config.scan_fields, ScanField::Description) {
            match &tool.description {
                Some(desc) => {
                    match self.scan_text(desc.as_str(), "tool.description") {
                        Some(v) => {
                            violations.push(v);
                        },
                        None => {},
                    }
                },
                None => {},
            }
        }
        let ghost after_description = violations_view(violations@);
        if has_field(&self.config.scan_fields, ScanField::InputSchema) {
            match self.scan_text(tool.input_schema.as_str(), "tool.input_schema") {
                Some(v) => {
                    violations.push(v);
                },
                None => {},
            }
        }
        proof {
            assert(violations_view(violations@) =~= tool_violations(
                self.scan_fields(),
                self.sources(),
                tool@,
            ));
        }
        violations
    }

    /// Decides on a list of tools.
    pub fn evaluate_tools_list(&self, tools: &Vec<Tool>, context: &GuardContext) -> (res:
        GuardResult)
        ensures
            result_view(res) == Ok::<DecisionView, ErrorView>(
                poisoning_decision(
                    self.alert_threshold(),
                    self.scan_fields(),
                    self.sources(),
                    tools_view(tools@),
                ),
            ),
    {
        let ghost tv = tools_view(tools@);
        let mut all: Vec<DetectedViolation> = Vec::new();
        let mut i: usize = 0;
        proof {
            assert(tv.take(0) =~= Seq::<ToolView>::empty());
            assert(violations_view(all@) =~= Seq::<ViolationView>::empty());
        }
        while i < tools.len()
            invariant
                i <= tools.len(),
                tv == tools_view(tools@),
                violations_view(all@) == list_violations(
                    self.scan_fields(),
                    self.sources(),
                    tv.take(i as int),
                ),
            decreases tools.len() - i,
        {
            let mut found = self.scan_tool(&tools[i]);
            proof {
                let next = tv.take(i + 1);
                assert(next.last() == tools@[i as int]@);
                assert(next.drop_last() =~= tv.take(i as int));
            }
            let ghost before = violations_view(all@);
            let ghost added = violations_view(found@);
            all.append(&mut found);
            proof {
                assert(violations_view(all@) =~= before + added);
            }
            i += 1;
        }
        proof {
            assert(tv.take(tv.len() as int) =~= tv);
        }
        if all.len() >= self.config.alert_threshold {
            let mut items: Vec<Json> = Vec::new();
            let mut k: usize = 0;
            while k < all.len()
                invariant
                    k <= all.len(),
                    items@.len() == k,
                    forall|j: int| 0 <= j < k ==> (#[trigger] items@[j])@ == violation_json(all@[j]@),
                decreases all.len() - k,
            {
                let mut fields: Vec<(String, Json)> = Vec::new();
                fields.push(("field".to_owned(), Json::Str(all[k].field.clone())));
                fields.push(("pattern".to_owned(), Json::Str(all[k].pattern.clone())));
                fields.push(("matched_text".to_owned(), Json::Str(all[k].matched_text.clone())));
                proof {
                    lemma_object_view(fields);
                    assert(object_fields(fields@) =~= violation_json(all@[k as int]@)->Object_0);
                }
                items.push(Json::Object(fields));
                k += 1;
            }
            let mut message = "Detected ".to_owned();
            message.append(decimal_text(all.len() as u64).as_str());
            message.append(" potential tool poisoning pattern(s) in MCP server response");
            let mut details: Vec<(String, Json)> = Vec::new();
            proof {
                lemma_array_view(items);
                let vs = violations_view(all@);
                assert(array_values(items@) =~= Seq::new(vs.len(), |i: int| violation_json(vs[i])));
            }
            details.push(("violations".to_owned(), Json::Array(items)));
            details.push(
                ("threshold".to_owned(), Json::unsigned(self.config.alert_threshold as u64)),
            );
            proof {
                lemma_object_view(details);
                assert(object_fields(details@) =~= poisoning_details(
                    violations_view(all@),
                    self.config.alert_threshold,
                )->Object_0);
            }
            Ok(
                GuardDecision::Deny(
                    DenyReason {
                        code: "tool_poisoning_detected".to_owned(),
                        message,
                        details: Some(Json::Object(details)),
                    },
                ),
            )
        } else {
            Ok(GuardDecision::Allow)
        }
    }
}

} // verus!
