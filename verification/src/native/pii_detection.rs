//! The guard that looks for personally identifiable information in the
//! metadata of tools, by one pattern for each kind, and reports what it
//! finds in redacted form. Confidences are in thousandths.
use crate::decision::{
    DecisionView, DenyReason, DenyReasonView, ErrorView, GuardContext, GuardDecision, GuardError,
    GuardResult, result_view,
};
use crate::json::{
    array_values, lemma_array_view, lemma_object_view, object_fields, Json, JsonNumber, JsonValue,
    NumberValue,
};
use crate::order::{first_where, lemma_first_where, lemma_first_where_is};
use crate::pattern::{compile, describe, find_first, first_match, pattern_accepted, Pattern};
use crate::pii::digits_of;
use crate::text::{
    bytes_of, decimal, decimal_text, digit_char, is_slice, score_decimal, score_text, slice_text,
};
use crate::tool::{Tool, ToolView, tools_view};
use vstd::prelude::*;
use vstd::string::StringSliceAdditionalSpecFns;
use vstd::utf8::decode_utf8;

verus! {

/// The kinds of information that the guard looks for.
#[derive(Debug, Clone, Copy, PartialEq, Eq, Structural)]
pub enum PiiType {
    EmailAddress,
    PhoneNumber,
    SocialSecurityNumber,
    CreditCardNumber,
    IpAddress,
    PhysicalAddress,
}

/// What the guard does when it finds something.
#[derive(Debug, Clone, Copy, PartialEq, Eq, Structural)]
pub enum PiiAction {
    /// The list is denied.
    Block,
    /// The list is allowed; the host logs a warning.
    Warn,
}

/// A part of a tool's metadata that can be scanned.
#[derive(Debug, Clone, Copy, PartialEq, Eq, Structural)]
pub enum ScanField {
    Name,
    Description,
    InputSchema,
}

/// Configuration of the guard. The threshold is in thousandths.
#[derive(Debug)]
pub struct PiiDetectionConfig {
    pub pii_types: Vec<PiiType>,
    /// The least confidence, in thousandths, at which a finding counts.
    pub confidence_threshold: u32,
    pub scan_fields: Vec<ScanField>,
    pub action: PiiAction,
}

/// The kinds that are looked for by default.
pub fn default_pii_types() -> (res: Vec<PiiType>)
    ensures
        res@ == seq![
            PiiType::EmailAddress,
            PiiType::PhoneNumber,
            PiiType::SocialSecurityNumber,
            PiiType::CreditCardNumber,
        ],
{
    let mut v: Vec<PiiType> = Vec::new();
    v.push(PiiType::EmailAddress);
    v.push(PiiType::PhoneNumber);
    v.push(PiiType::SocialSecurityNumber);
    v.push(PiiType::CreditCardNumber);
    assert(v@ =~= seq![
        PiiType::EmailAddress,
        PiiType::PhoneNumber,
        PiiType::SocialSecurityNumber,
        PiiType::CreditCardNumber,
    ]);
    v
}

/// The default threshold, in thousandths.
pub fn default_confidence_threshold() -> (res: u32)
    ensures
        res == 800,
{
    800
}

/// The parts that are scanned by default.
pub fn default_scan_fields() -> (res: Vec<ScanField>)
    ensures
        res@ == seq![ScanField::Description, ScanField::InputSchema],
{
    let mut v: Vec<ScanField> = Vec::new();
    v.push(ScanField::Description);
    v.push(ScanField::InputSchema);
    assert(v@ =~= seq![ScanField::Description, ScanField::InputSchema]);
    v
}

/// The default action.
pub fn default_action() -> (res: PiiAction)
    ensures
        res == PiiAction::Block,
{
    PiiAction::Block
}

/// The pattern of email addresses.
pub const EMAIL_PATTERN: &'static str = r"\b[A-Za-z0-9._%+-]+@[A-Za-z0-9.-]+\.[A-Z|a-z]{2,}\b";

/// The pattern of phone numbers.
pub const PHONE_PATTERN: &'static str = r"\b(?:\+?1[-.\s]?)?\(?\d{3}\)?[-.\s]?\d{3}[-.\s]?\d{4}\b";

/// The pattern of social security numbers.
pub const SSN_PATTERN: &'static str = r"\b\d{3}-\d{2}-\d{4}\b";

/// The pattern of card numbers: 13 to 19 digits, with blanks or dashes between
/// them.
pub const CREDIT_CARD_PATTERN: &'static str = r"\b(?:\d[ -]*?){13,19}\b";

/// The pattern of IP addresses.
pub const IP_PATTERN: &'static str = r"\b(?:[0-9]{1,3}\.){3}[0-9]{1,3}\b";

/// The pattern of street addresses.
pub const ADDRESS_PATTERN: &'static str =
    r"\d+\s+[A-Za-z]+\s+(?:Street|St|Avenue|Ave|Road|Rd|Drive|Dr|Lane|Ln|Boulevard|Blvd)\b";

impl PiiType {
    /// The pattern by which the kind is found.
    pub open spec fn source(self) -> Seq<char> {
        match self {
            PiiType::EmailAddress => EMAIL_PATTERN@,
            PiiType::PhoneNumber => PHONE_PATTERN@,
            PiiType::SocialSecurityNumber => SSN_PATTERN@,
            PiiType::CreditCardNumber => CREDIT_CARD_PATTERN@,
            PiiType::IpAddress => IP_PATTERN@,
            PiiType::PhysicalAddress => ADDRESS_PATTERN@,
        }
    }

    /// The confidence, in thousandths, of a finding of the kind.
    pub open spec fn confidence(self) -> u32 {
        match self {
            PiiType::EmailAddress => 900,
            PiiType::PhoneNumber => 800,
            PiiType::SocialSecurityNumber => 950,
            PiiType::CreditCardNumber => 750,
            PiiType::IpAddress => 700,
            PiiType::PhysicalAddress => 650,
        }
    }

    /// The name of the kind.
    pub open spec fn name(self) -> Seq<char> {
        match self {
            PiiType::EmailAddress => "EmailAddress"@,
            PiiType::PhoneNumber => "PhoneNumber"@,
            PiiType::SocialSecurityNumber => "SocialSecurityNumber"@,
            PiiType::CreditCardNumber => "CreditCardNumber"@,
            PiiType::IpAddress => "IpAddress"@,
            PiiType::PhysicalAddress => "PhysicalAddress"@,
        }
    }

    /// The pattern by which the kind is found.
    pub fn pattern(&self) -> (res: &'static str)
        ensures
            res@ == self.source(),
    {
        match self {
            PiiType::EmailAddress => EMAIL_PATTERN,
            PiiType::PhoneNumber => PHONE_PATTERN,
            PiiType::SocialSecurityNumber => SSN_PATTERN,
            PiiType::CreditCardNumber => CREDIT_CARD_PATTERN,
            PiiType::IpAddress => IP_PATTERN,
            PiiType::PhysicalAddress => ADDRESS_PATTERN,
        }
    }

    /// The confidence, in thousandths, of a finding of the kind.
    pub fn base_confidence(&self) -> (res: u32)
        ensures
            res == self.confidence(),
    {
        match self {
            PiiType::EmailAddress => 900,
            PiiType::PhoneNumber => 800,
            PiiType::SocialSecurityNumber => 950,
            PiiType::CreditCardNumber => 750,
            PiiType::IpAddress => 700,
            PiiType::PhysicalAddress => 650,
        }
    }

    /// The name of the kind.
    pub fn kind_name(&self) -> (res: &'static str)
        ensures
            res@ == self.name(),
    {
        match self {
            PiiType::EmailAddress => "EmailAddress",
            PiiType::PhoneNumber => "PhoneNumber",
            PiiType::SocialSecurityNumber => "SocialSecurityNumber",
            PiiType::CreditCardNumber => "CreditCardNumber",
            PiiType::IpAddress => "IpAddress",
            PiiType::PhysicalAddress => "PhysicalAddress",
        }
    }
}

/// Whether a byte is the given one.
pub open spec fn is_byte(b: u8) -> spec_fn(u8) -> bool {
    |x: u8| x == b
}

/// The characters that write the given digits.
pub open spec fn digit_chars(digits: Seq<u8>) -> Seq<char> {
    Seq::new(digits.len(), |i: int| digit_char(digits[i] as int))
}

/// The last four of the decimal digits among `bytes`, as text, if there are
/// four.
pub open spec fn last_four(bytes: Seq<u8>) -> Option<Seq<char>> {
    let digits = digits_of(bytes);
    if digits.len() >= 4 {
        Some(digit_chars(digits.subrange(digits.len() - 4, digits.len() as int)))
    } else {
        None
    }
}

/// The position behind the last `.` among the first `n` bytes, or 0.
pub open spec fn after_last_dot(bytes: Seq<u8>, n: nat) -> int
    decreases n,
{
    if n == 0 || n > bytes.len() {
        0
    } else if bytes[n - 1] == 46 {
        n as int
    } else {
        after_last_dot(bytes, (n - 1) as nat)
    }
}

/// The number of `.` among the first `n` bytes.
pub open spec fn dots(bytes: Seq<u8>, n: nat) -> nat
    decreases n,
{
    if n == 0 || n > bytes.len() {
        0
    } else {
        dots(bytes, (n - 1) as nat) + if bytes[n - 1] == 46 {
            1nat
        } else {
            0nat
        }
    }
}

/// A found value in the form in which it is reported.
///
/// Of an email address the first byte, if it is a character, and what
/// follows the first `@` stay; of a phone number and a card number the last
/// four digits; of an address with three dots what follows the last dot.
/// Everything else is replaced.
pub open spec fn redacted(value: Seq<char>, kind: PiiType) -> Seq<char> {
    let bytes = bytes_of(value);
    match kind {
        PiiType::EmailAddress => {
            let at = first_where(bytes, is_byte(64));
            if at < bytes.len() {
                let first = if is_slice(bytes, 0, 1) {
                    decode_utf8(bytes.subrange(0, 1))
                } else {
                    Seq::empty()
                };
                first + "***@"@ + decode_utf8(bytes.subrange(at + 1, bytes.len() as int))
            } else {
                "[REDACTED_EMAIL]"@
            }
        },
        PiiType::PhoneNumber => match last_four(bytes) {
            Some(d) => "***-***-"@ + d,
            None => "[REDACTED_PHONE]"@,
        },
        PiiType::SocialSecurityNumber => "***-**-****"@,
        PiiType::CreditCardNumber => match last_four(bytes) {
            Some(d) => "****-****-****-"@ + d,
            None => "[REDACTED_CC]"@,
        },
        PiiType::IpAddress => if dots(bytes, bytes.len()) == 3 {
            "***.***.***."@ + decode_utf8(
                bytes.subrange(after_last_dot(bytes, bytes.len()), bytes.len() as int),
            )
        } else {
            "[REDACTED_IP]"@
        },
        PiiType::PhysicalAddress => "[REDACTED_ADDRESS]"@,
    }
}

/// The last four of the decimal digits of a text, if there are four.
fn last_four_digits(value: &str) -> (res: Option<String>)
    ensures
        crate::tool::opt_text(res) == last_four(bytes_of(value@)),
{
    let bytes = value.as_bytes();
    let mut digits: Vec<u8> = Vec::new();
    let mut k: usize = 0;
    proof {
        assert(bytes@.subrange(0, 0) =~= Seq::<u8>::empty());
    }
    while k < bytes.len()
        invariant
            k <= bytes@.len(),
            digits@ == digits_of(bytes@.subrange(0, k as int)),
            forall|j: int| 0 <= j < digits@.len() ==> digits@[j] < 10,
        decreases bytes@.len() - k,
    {
        let b = bytes[k];
        proof {
            let next = bytes@.subrange(0, k + 1);
            assert(next.last() == b);
            assert(next.drop_last() =~= bytes@.subrange(0, k as int));
        }
        if 48 <= b && b <= 57 {
            digits.push(b - 48);
        }
        k += 1;
    }
    proof {
        assert(bytes@.subrange(0, bytes@.len() as int) =~= bytes@);
    }
    if digits.len() < 4 {
        return None;
    }
    let from = digits.len() - 4;
    let mut out = String::new();
    let mut i: usize = 0;
    let ghost wanted = digit_chars(digits@.subrange(from as int, digits@.len() as int));
    while i < 4
        invariant
            i <= 4,
            from + 4 == digits@.len(),
            wanted == digit_chars(digits@.subrange(from as int, digits@.len() as int)),
            forall|j: int| 0 <= j < digits@.len() ==> digits@[j] < 10,
            out@ == wanted.subrange(0, i as int),
        decreases 4 - i,
    {
        let d = digits[from + i];
        let piece = decimal_text(d as u64);
        proof {
            assert(d < 10);
            assert(piece@ == seq![digit_char(d as int)]);
            assert(wanted[i as int] == digit_char(d as int));
        }
        out.append(piece.as_str());
        proof {
            assert(out@ =~= wanted.subrange(0, i + 1));
        }
        i += 1;
    }
    proof {
        assert(wanted.subrange(0, 4) =~= wanted);
    }
    Some(out)
}

/// The position of the first byte `b` of a text, or the number of its
/// bytes.
fn find_byte(value: &str, b: u8) -> (res: usize)
    ensures
        res == first_where(bytes_of(value@), is_byte(b)),
        res <= bytes_of(value@).len(),
{
    let bytes = value.as_bytes();
    let mut i: usize = 0;
    while i < bytes.len()
        invariant
            i <= bytes@.len(),
            forall|k: int| 0 <= k < i ==> !is_byte(b)(#[trigger] bytes@[k]),
        decreases bytes@.len() - i,
    {
        if bytes[i] == b {
            proof {
                lemma_first_where_is(bytes@, is_byte(b), i as int);
            }
            return i;
        }
        i += 1;
    }
    proof {
        lemma_first_where_is(bytes@, is_byte(b), bytes@.len() as int);
    }
    i
}

/// A found value in the form in which it is reported.
pub fn redact_pii(value: &str, pii_type: &PiiType) -> (res: String)
    ensures
        res@ == redacted(value@, *pii_type),
{
    broadcast use vstd::utf8::encode_utf8_valid_utf8;

    match pii_type {
        PiiType::EmailAddress => {
            let at = find_byte(value, 64);
            let n = value.as_bytes().len();
            if at < n {
                proof {
                    // `@` does not continue a character, and is one byte.
                    crate::order::lemma_first_where(bytes_of(value@), is_byte(64));
                    assert(bytes_of(value@)[at as int] == 64);
                    crate::text::lemma_boundary_by_byte(bytes_of(value@), at as int);
                }
                let mut out = match slice_text(value, 0, 1) {
                    Some(first) => first.to_owned(),
                    None => String::new(),
                };
                out.append("***@");
                proof {
                    let bytes = bytes_of(value@);
                    vstd::utf8::is_char_boundary_start_end_of_seq(bytes);
                    lemma_after_ascii(bytes, at as int);
                }
                match slice_text(value, at + 1, n) {
                    Some(domain) => {
                        out.append(domain);
                    },
                    None => {},
                }
                out
            } else {
                "[REDACTED_EMAIL]".to_owned()
            }
        },
        PiiType::PhoneNumber => match last_four_digits(value) {
            Some(d) => {
                let mut out = "***-***-".to_owned();
                out.append(d.as_str());
                out
            },
            None => "[REDACTED_PHONE]".to_owned(),
        },
        PiiType::SocialSecurityNumber => "***-**-****".to_owned(),
        PiiType::CreditCardNumber => match last_four_digits(value) {
            Some(d) => {
                let mut out = "****-****-****-".to_owned();
                out.append(d.as_str());
                out
            },
            None => "[REDACTED_CC]".to_owned(),
        },
        PiiType::IpAddress => {
            let bytes = value.as_bytes();
            let mut count: usize = 0;
            let mut last: usize = 0;
            let mut k: usize = 0;
            while k < bytes.len()
                invariant
                    k <= bytes@.len(),
                    count <= k,
                    last <= k,
                    count == dots(bytes@, k as nat),
                    last == after_last_dot(bytes@, k as nat),
                    last == 0 || bytes@[last - 1] == 46,
                decreases bytes@.len() - k,
            {
                if bytes[k] == 46 {
                    count += 1;
                    last = k + 1;
                }
                k += 1;
            }
            if count == 3 {
                proof {
                    let b = bytes_of(value@);
                    vstd::utf8::is_char_boundary_start_end_of_seq(b);
                    if last > 0 {
                        crate::text::lemma_boundary_by_byte(b, last - 1);
                        lemma_after_ascii(b, last - 1);
                    }
                }
                let mut out = "***.***.***.".to_owned();
                match slice_text(value, last, bytes.len()) {
                    Some(part) => {
                        out.append(part);
                    },
                    None => {},
                }
                out
            } else {
                "[REDACTED_IP]".to_owned()
            }
        },
        PiiType::PhysicalAddress => "[REDACTED_ADDRESS]".to_owned(),
    }
}

/// Behind a byte below 128 that begins a character, a character begins or
/// the text ends.
proof fn lemma_after_ascii(bytes: Seq<u8>, at: int)
    requires
        vstd::utf8::valid_utf8(bytes),
        0 <= at < bytes.len(),
        bytes[at] < 128,
        vstd::utf8::is_char_boundary(bytes, at),
    ensures
        vstd::utf8::is_char_boundary(bytes, at + 1),
{
    vstd::utf8::valid_utf8_split(bytes, at);
    let rest = bytes.subrange(at, bytes.len() as int);
    assert(rest[0] == bytes[at]);
    assert(vstd::utf8::is_leading_byte_width_1(rest[0]));
    assert(vstd::utf8::length_of_first_scalar(rest) == 1);
    let tail = vstd::utf8::pop_first_scalar(rest);
    assert(tail =~= bytes.subrange(at + 1, bytes.len() as int));
    assert(vstd::utf8::valid_utf8(tail));
    let head = bytes.subrange(0, at + 1);
    assert(head =~= bytes.subrange(0, at) + rest.subrange(0, 1));
    assert(vstd::utf8::valid_utf8(rest.subrange(0, 1))) by {
        reveal_with_fuel(vstd::utf8::valid_utf8, 2);
        assert(vstd::utf8::pop_first_scalar(rest.subrange(0, 1)) =~= Seq::<u8>::empty());
        assert(vstd::utf8::valid_first_scalar(rest.subrange(0, 1)));
    }
    vstd::utf8::valid_utf8_concat(bytes.subrange(0, at), rest.subrange(0, 1));
    crate::text::lemma_boundary_at_join(head, tail);
    assert(head + tail =~= bytes);
}

/// Something that was found in a part of a tool's metadata.
#[derive(Debug)]
pub struct DetectedPii {
    pub pii_type: PiiType,
    /// The part: `tool.name`, `tool.description` or `tool.input_schema`.
    pub field: String,
    /// The found text, redacted.
    pub matched_text: String,
    /// Confidence in thousandths.
    pub confidence: u32,
}

/// The mathematical value of a [`DetectedPii`].
pub struct DetectedView {
    pub pii_type: PiiType,
    pub field: Seq<char>,
    pub matched_text: Seq<char>,
    pub confidence: u32,
}

impl View for DetectedPii {
    type V = DetectedView;

    open spec fn view(&self) -> DetectedView {
        DetectedView {
            pii_type: self.pii_type,
            field: self.field@,
            matched_text: self.matched_text@,
            confidence: self.confidence,
        }
    }
}

/// The values of a list of findings.
pub open spec fn detected_view(ds: Seq<DetectedPii>) -> Seq<DetectedView> {
    Seq::new(ds.len(), |i: int| ds[i]@)
}

/// What is found in one text for the first `n` kinds: for each kind whose
/// pattern matches, the first match, redacted.
pub open spec fn text_findings(kinds: Seq<PiiType>, text: Seq<char>, field: Seq<char>, n: nat)
    -> Seq<DetectedView>
    decreases n,
{
    if n == 0 || n > kinds.len() {
        Seq::empty()
    } else {
        let head = text_findings(kinds, text, field, (n - 1) as nat);
        let kind = kinds[n - 1];
        match first_match(kind.source(), text) {
            Some(m) => head.push(
                DetectedView {
                    pii_type: kind,
                    field,
                    matched_text: redacted(
                        decode_utf8(bytes_of(text).subrange(m.0, m.1)),
                        kind,
                    ),
                    confidence: kind.confidence(),
                },
            ),
            None => head,
        }
    }
}

/// What is found in one tool: in its name, its description and its input
/// schema, in this order, as far as the part is among `fields`.
pub open spec fn tool_findings(fields: Seq<ScanField>, kinds: Seq<PiiType>, tool: ToolView) -> Seq<
    DetectedView,
> {
    let in_name = if fields.contains(ScanField::Name) {
        text_findings(kinds, tool.name, "tool.name"@, kinds.len())
    } else {
        Seq::empty()
    };
    let in_description = if fields.contains(ScanField::Description) && tool.description is Some {
        text_findings(kinds, tool.description->Some_0, "tool.description"@, kinds.len())
    } else {
        Seq::empty()
    };
    let in_schema = if fields.contains(ScanField::InputSchema) {
        text_findings(kinds, tool.input_schema, "tool.input_schema"@, kinds.len())
    } else {
        Seq::empty()
    };
    in_name + in_description + in_schema
}

/// What is found in the first `n` tools of a list with at least the
/// confidence `threshold`.
pub open spec fn list_findings(
    fields: Seq<ScanField>,
    kinds: Seq<PiiType>,
    threshold: u32,
    tools: Seq<ToolView>,
    n: nat,
) -> Seq<DetectedView>
    decreases n,
{
    if n == 0 || n > tools.len() {
        Seq::empty()
    } else {
        list_findings(fields, kinds, threshold, tools, (n - 1) as nat) + confident(
            tool_findings(fields, kinds, tools[n - 1]),
            threshold,
            tool_findings(fields, kinds, tools[n - 1]).len(),
        )
    }
}

/// Among the first `n` findings, those with at least the confidence
/// `threshold`.
pub open spec fn confident(findings: Seq<DetectedView>, threshold: u32, n: nat) -> Seq<
    DetectedView,
>
    decreases n,
{
    if n == 0 || n > findings.len() {
        Seq::empty()
    } else {
        let head = confident(findings, threshold, (n - 1) as nat);
        if findings[n - 1].confidence >= threshold {
            head.push(findings[n - 1])
        } else {
            head
        }
    }
}

/// One finding as it stands in the details of a denial.
pub open spec fn finding_json(d: DetectedView) -> JsonValue {
    JsonValue::Object(
        seq![
            ("type"@, JsonValue::Str(d.pii_type.name())),
            ("field"@, JsonValue::Str(d.field)),
            ("redacted_value"@, JsonValue::Str(d.matched_text)),
            ("confidence"@, JsonValue::Number(NumberValue::Real(score_decimal(d.confidence)))),
        ],
    )
}

/// The decision on a list of tools: with findings, denied or allowed as the
/// action says; without, allowed.
pub open spec fn detection_decision(
    action: PiiAction,
    fields: Seq<ScanField>,
    kinds: Seq<PiiType>,
    threshold: u32,
    tools: Seq<ToolView>,
) -> DecisionView {
    let found = list_findings(fields, kinds, threshold, tools, tools.len());
    if found.len() > 0 && action == PiiAction::Block {
        DecisionView::Deny(
            DenyReasonView {
                code: "pii_detected"@,
                message: "Detected "@ + decimal(found.len()) + " PII field(s) in MCP server response"@,
                details: Some(findings_json(found, threshold)),
            },
        )
    } else {
        DecisionView::Allow
    }
}

/// The guard.
pub struct PiiDetector {
    config: PiiDetectionConfig,
    patterns: Vec<(PiiType, Pattern, u32)>,
}

/// Whether a compiled pattern is that of the kind `kind`.
pub open spec fn is_pattern_of(entry: (PiiType, Pattern, u32), kind: PiiType) -> bool {
    entry.0 == kind && entry.1.source() == kind.source() && entry.2 == kind.confidence()
}

/// Compiles the pattern of each kind. Fails with a configuration error if
/// the engine rejects one.
pub fn build_pii_patterns(types: &Vec<PiiType>) -> (res: Result<
    Vec<(PiiType, Pattern, u32)>,
    GuardError,
>)
    ensures
        res is Ok <==> forall|i: int|
            0 <= i < types@.len() ==> pattern_accepted((#[trigger] types@[i]).source()),
        res matches Ok(p) ==> p@.len() == types@.len() && forall|i: int|
            0 <= i < p@.len() ==> is_pattern_of(#[trigger] p@[i], types@[i]),
        res matches Err(e) ==> e@ matches ErrorView::ConfigError(m) && m.len() >= 15
            && m.subrange(0, 15) == "Invalid regex: "@,
{
    let mut patterns: Vec<(PiiType, Pattern, u32)> = Vec::new();
    let mut i: usize = 0;
    while i < types.len()
        invariant
            i <= types@.len(),
            patterns@.len() == i,
            forall|k: int| 0 <= k < i ==> pattern_accepted((#[trigger] types@[k]).source()),
            forall|k: int| 0 <= k < i ==> is_pattern_of(#[trigger] patterns@[k], types@[k]),
        decreases types@.len() - i,
    {
        let kind = types[i];
        match compile(kind.pattern()) {
            Ok(p) => {
                patterns.push((kind, p, kind.base_confidence()));
            },
            Err(e) => {
                let mut message = "Invalid regex: ".to_owned();
                proof {
                    reveal_strlit("Invalid regex: ");
                    assert(!pattern_accepted(types@[i as int].source()));
                }
                let ghost prefix = message@;
                message.append(describe(&e).as_str());
                proof {
                    assert(message@.subrange(0, 15) =~= prefix);
                }
                return Err(GuardError::ConfigError(message));
            },
        }
        i += 1;
    }
    Ok(patterns)
}

fn has_field(fields: &Vec<ScanField>, field: ScanField) -> (res: bool)
    ensures
        res == fields@.contains(field),
{
    let mut i: usize = 0;
    while i < fields.len()
        invariant
            i <= fields.len(),
            forall|k: int| 0 <= k < i ==> fields@[k] != field,
        decreases fields.len() - i,
    {
        if fields[i] == field {
            return true;
        }
        i += 1;
    }
    false
}

impl PiiDetector {
    #[verifier::type_invariant]
    spec fn well_formed(self) -> bool {
        &&& self.patterns@.len() == self.config.pii_types@.len()
        &&& forall|i: int|
            0 <= i < self.patterns@.len() ==> is_pattern_of(
                #[trigger] self.patterns@[i],
                self.config.pii_types@[i],
            )
    }

    /// The kinds that the guard looks for.
    pub closed spec fn kinds(&self) -> Seq<PiiType> {
        self.config.pii_types@
    }

    /// The parts of a tool's metadata that are scanned.
    pub closed spec fn scan_fields(&self) -> Seq<ScanField> {
        self.config.scan_fields@
    }

    /// The least confidence at which a finding counts.
    pub closed spec fn threshold(&self) -> u32 {
        self.config.confidence_threshold
    }

    /// What the guard does when it finds something.
    pub closed spec fn action(&self) -> PiiAction {
        self.config.action
    }

    /// A guard with the given configuration. Fails with a configuration
    /// error if the engine rejects the pattern of one of the kinds.
    pub fn new(config: PiiDetectionConfig) -> (res: Result<PiiDetector, GuardError>)
        ensures
            res is Ok <==> forall|i: int|
                0 <= i < config.pii_types@.len() ==> pattern_accepted(
                    (#[trigger] config.pii_types@[i]).source(),
                ),
            res matches Ok(d) ==> d.kinds() == config.pii_types@ && d.scan_fields()
                == config.scan_fields@ && d.threshold() == config.confidence_threshold
                && d.action() == config.action,
            res matches Err(e) ==> e@ matches ErrorView::ConfigError(m) && m.len() >= 15
                && m.subrange(0, 15) == "Invalid regex: "@,
    {
        match build_pii_patterns(&config.pii_types) {
            Ok(patterns) => Ok(PiiDetector { config, patterns }),
            Err(e) => Err(e),
        }
    }

    /// What is found in one text.
    pub fn scan_text(&self, text: &str, field: &str) -> (res: Vec<DetectedPii>)
        ensures
            detected_view(res@) == text_findings(self.kinds(), text@, field@, self.kinds().len()),
    {
        proof {
            use_type_invariant(self);
        }
        let ghost kinds = self.config.pii_types@;
        let mut detections: Vec<DetectedPii> = Vec::new();
        let mut i: usize = 0;
        proof {
            assert(detected_view(detections@) =~= text_findings(kinds, text@, field@, 0));
        }
        while i < self.patterns.len()
            invariant
                i <= self.patterns@.len(),
                self.patterns@.len() == kinds.len(),
                kinds == self.config.pii_types@,
                forall|k: int|
                    0 <= k < self.patterns@.len() ==> is_pattern_of(
                        #[trigger] self.patterns@[k],
                        kinds[k],
                    ),
                detected_view(detections@) == text_findings(kinds, text@, field@, i as nat),
            decreases self.patterns@.len() - i,
        {
            proof {
                assert(is_pattern_of(self.patterns@[i as int], kinds[i as int]));
            }
            match find_first(&self.patterns[i].1, text) {
                Some(span) => {
                    let matched = match slice_text(text, span.start, span.end) {
                        Some(m) => m,
                        None => "",
                    };
                    let ghost before = detected_view(detections@);
                    let found = DetectedPii {
                        pii_type: self.patterns[i].0,
                        field: field.to_owned(),
                        matched_text: redact_pii(matched, &self.patterns[i].0),
                        confidence: self.patterns[i].2,
                    };
                    let ghost fv = found@;
                    detections.push(found);
                    proof {
                        assert(detected_view(detections@) =~= before.push(fv));
                    }
                },
                None => {},
            }
            i += 1;
        }
        detections
    }

    /// What is found in one tool.
    pub fn scan_tool(&self, tool: &Tool) -> (res: Vec<DetectedPii>)
        ensures
            detected_view(res@) == tool_findings(self.scan_fields(), self.kinds(), tool@),
    {
        let mut detections: Vec<DetectedPii> = Vec::new();
        proof {
            assert(detected_view(detections@) =~= Seq::<DetectedView>::empty());
        }
        if has_field(&self.config.scan_fields, ScanField::Name) {
            let mut found = self.scan_text(tool.name.as_str(), "tool.name");
            let ghost before = detected_view(detections@);
            let ghost added = detected_view(found@);
            detections.append(&mut found);
            proof {
                assert(detected_view(detections@) =~= before + added);
            }
        }
        if has_field(&self.config.scan_fields, ScanField::Description) {
            match &tool.description {
                Some(desc) => {
                    let mut found = self.scan_text(desc.as_str(), "tool.description");
                    let ghost before = detected_view(detections@);
                    let ghost added = detected_view(found@);
                    detections.append(&mut found);
                    proof {
                        assert(detected_view(detections@) =~= before + added);
                    }
                },
                None => {},
            }
        }
        if has_field(&self.config.scan_fields, ScanField::InputSchema) {
            let mut found = self.scan_text(tool.input_schema.as_str(), "tool.input_schema");
            let ghost before = detected_view(detections@);
            let ghost added = detected_view(found@);
            detections.append(&mut found);
            proof {
                assert(detected_view(detections@) =~= before + added);
            }
        }
        proof {
            assert(detected_view(detections@) =~= tool_findings(
                self.scan_fields(),
                self.kinds(),
                tool@,
            ));
        }
        detections
    }

    /// Decides on a list of tools.
    pub fn evaluate_tools_list(&self, tools: &Vec<Tool>, context: &GuardContext) -> (res:
        GuardResult)
        ensures
            result_view(res) == Ok::<DecisionView, ErrorView>(
                detection_decision(
                    self.action(),
                    self.scan_fields(),
                    self.kinds(),
                    self.threshold(),
                    tools_view(tools@),
                ),
            ),
    {
        let ghost tv = tools_view(tools@);
        let threshold = self.config.confidence_threshold;
        let mut all: Vec<DetectedPii> = Vec::new();
        let mut i: usize = 0;
        proof {
            assert(detected_view(all@) =~= Seq::<DetectedView>::empty());
        }
        while i < tools.len()
            invariant
                i <= tools@.len(),
                tv == tools_view(tools@),
                threshold == self.threshold(),
                detected_view(all@) == list_findings(
                    self.scan_fields(),
                    self.kinds(),
                    threshold,
                    tv,
                    i as nat,
                ),
            decreases tools@.len() - i,
        {
            proof {
                assert(tv[i as int] == tools@[i as int]@);
            }
            let found = self.scan_tool(&tools[i]);
            keep_confident(found, threshold, &mut all);
            i += 1;
        }
        if all.len() > 0 {
            match self.config.action {
                PiiAction::Block => {
                    let mut message = "Detected ".to_owned();
                    message.append(decimal_text(all.len() as u64).as_str());
                    message.append(" PII field(s) in MCP server response");
                    let details = detection_details(&all, threshold);
                    Ok(
                        GuardDecision::Deny(
                            DenyReason {
                                code: "pii_detected".to_owned(),
                                message,
                                details: Some(details),
                            },
                        ),
                    )
                },
                PiiAction::Warn => Ok(GuardDecision::Allow),
            }
        } else {
            Ok(GuardDecision::Allow)
        }
    }
}

/// Moves to `all` the findings with at least the confidence `threshold`.
fn keep_confident(found: Vec<DetectedPii>, threshold: u32, all: &mut Vec<DetectedPii>)
    ensures
        detected_view(final(all)@) == detected_view(old(all)@) + confident(
            detected_view(found@),
            threshold,
            found@.len(),
        ),
{
    let ghost fv = detected_view(found@);
    let ghost base = detected_view(all@);
    let ghost total = found@.len();
    let count = found.len();
    let mut rest = found;
    let mut k: usize = 0;
    proof {
        assert(detected_view(all@) =~= base + confident(fv, threshold, 0));
        assert(detected_view(rest@) =~= fv.subrange(0, total as int));
    }
    while rest.len() > 0
        invariant
            k + rest@.len() == total,
            total == fv.len(),
            total == count,
            detected_view(rest@) == fv.subrange(k as int, total as int),
            detected_view(all@) == base + confident(fv, threshold, k as nat),
        decreases rest@.len(),
    {
        let ghost rv = detected_view(rest@);
        let ghost old_rest = rest@;
        let item = rest.remove(0);
        proof {
            assert(item == old_rest[0]);
            assert(rv[0] == item@);
            assert(item@ == fv[k as int]);
            assert forall|j: int| 0 <= j < rest@.len() implies detected_view(rest@)[j]
                == fv.subrange(k + 1, total as int)[j] by {
                assert(rest@[j] == old_rest[j + 1]);
                assert(rv[j + 1] == old_rest[j + 1]@);
            }
            assert(detected_view(rest@) =~= fv.subrange(k + 1, total as int));
        }
        if item.confidence >= threshold {
            let ghost mid = detected_view(all@);
            let ghost iv = item@;
            all.push(item);
            proof {
                assert(detected_view(all@) =~= mid.push(iv));
                let prev = confident(fv, threshold, k as nat);
                assert(base + prev.push(iv) =~= (base + prev).push(iv));
            }
        }
        k += 1;
    }
}

/// The details of a denial.
pub open spec fn findings_json(found: Seq<DetectedView>, threshold: u32) -> JsonValue {
    JsonValue::Object(
        seq![
            ("detections"@, JsonValue::Array(Seq::new(found.len(), |i: int| finding_json(found[i])))),
            ("threshold"@, JsonValue::Number(NumberValue::Real(score_decimal(threshold)))),
        ],
    )
}

fn finding_to_json(d: &DetectedPii) -> (res: Json)
    ensures
        res@ == finding_json(d@),
{
    let mut fields: Vec<(String, Json)> = Vec::new();
    fields.push(("type".to_owned(), Json::text(d.pii_type.kind_name())));
    fields.push(("field".to_owned(), Json::Str(d.field.clone())));
    fields.push(("redacted_value".to_owned(), Json::Str(d.matched_text.clone())));
    fields.push(
        ("confidence".to_owned(), Json::Number(JsonNumber::Real(score_text(d.confidence)))),
    );
    proof {
        lemma_object_view(fields);
        assert(object_fields(fields@) =~= finding_json(d@)->Object_0);
    }
    Json::Object(fields)
}

fn detection_details(all: &Vec<DetectedPii>, threshold: u32) -> (res: Json)
    ensures
        res@ == findings_json(detected_view(all@), threshold),
{
    let ghost found = detected_view(all@);
    let mut items: Vec<Json> = Vec::new();
    let mut k: usize = 0;
    while k < all.len()
        invariant
            k <= all@.len(),
            found == detected_view(all@),
            items@.len() == k,
            forall|j: int| 0 <= j < k ==> (#[trigger] items@[j])@ == finding_json(found[j]),
        decreases all@.len() - k,
    {
        proof {
            assert(found[k as int] == all@[k as int]@);
        }
        items.push(finding_to_json(&all[k]));
        k += 1;
    }
    let mut details: Vec<(String, Json)> = Vec::new();
    proof {
        lemma_array_view(items);
        assert(array_values(items@) =~= Seq::new(found.len(), |i: int| finding_json(found[i])));
    }
    details.push(("detections".to_owned(), Json::Array(items)));
    details.push(("threshold".to_owned(), Json::Number(JsonNumber::Real(score_text(threshold)))));
    proof {
        lemma_object_view(details);
        assert(object_fields(details@) =~= findings_json(found, threshold)->Object_0);
    }
    Json::Object(details)
}

} // verus!
