//! Recognizers of personally identifiable information.
//!
//! A recognizer finds the spans of a text that look like one kind of
//! identifier, and scores each. Candidates are found by regular expressions;
//! credit-card and Canadian social-insurance numbers are kept only when their
//! digits pass the Luhn check. Offsets are byte offsets; scores are in
//! thousandths, from 0 to 1000.
use crate::luhn::{luhn_check, luhn_valid};
use crate::pattern::{all_matches, compile, find_all, pattern_accepted, spans_view, Pattern, Span};
use crate::text::bytes_of;
use vstd::prelude::*;
use vstd::string::StringSliceAdditionalSpecFns;

verus! {

/// The kinds of identifier that can be recognized.
#[derive(Debug, Clone, Copy, PartialEq, Eq, Hash, Structural)]
pub enum PiiType {
    /// Email addresses.
    Email,
    /// Phone numbers.
    PhoneNumber,
    /// US social security numbers.
    Ssn,
    /// Credit card numbers.
    CreditCard,
    /// Canadian social insurance numbers.
    CaSin,
    /// URLs.
    Url,
}

/// A span of a text that a recognizer took for an identifier.
#[derive(Debug, Clone, Copy, PartialEq, Eq, Structural)]
pub struct RecognizerResult {
    pub entity_type: PiiType,
    /// Byte offset of the first byte of the span.
    pub start: usize,
    /// Byte offset behind the last byte of the span.
    pub end: usize,
    /// Confidence in thousandths.
    pub score: u32,
}

/// The pattern of email addresses.
pub const EMAIL_PATTERN: &'static str = r"\b[A-Za-z0-9._%+-]+@[A-Za-z0-9.-]+\.[A-Za-z]{2,}\b";

/// The pattern of phone numbers, with or without a country code.
pub const PHONE_PATTERN: &'static str =
    r"(?:\+[0-9]{1,3}[-.\s]?)?(?:\([0-9]{3}\)|\b[0-9]{3})[-.\s]?[0-9]{3}[-.\s]?[0-9]{4}\b";

/// The pattern of social security numbers that are written in three groups.
pub const SSN_PATTERN: &'static str = r"\b[0-9]{3}[- .][0-9]{2}[- .][0-9]{4}\b";

/// The pattern of nine digits in a row, which may be a social security number.
pub const SSN_WEAK_PATTERN: &'static str = r"\b[0-9]{9}\b";

/// The pattern of candidates for card numbers: 13 to 17 digits in four groups.
pub const CREDIT_CARD_PATTERN: &'static str = r"\b[0-9]{4}[- ]?[0-9]{3,4}[- ]?[0-9]{3,4}[- ]?[0-9]{3,5}\b";

/// The pattern of candidates for social insurance numbers: nine digits in three
/// groups.
pub const CA_SIN_PATTERN: &'static str = r"\b[0-9]{3}[- ]?[0-9]{3}[- ]?[0-9]{3}\b";

/// The pattern of URLs that begin with `http://`, `https://` or `www.`.
pub const URL_PATTERN: &'static str = r#"\b(?:https?://|www\.)[^\s<>"']+"#;

/// The highest score.
pub const MAX_SCORE: u32 = 1000;

/// The score of a card number whose first digit names no known issuer.
pub const UNKNOWN_ISSUER_SCORE: u32 = 300;

/// The patterns of a kind with the score of each, in the order in which they
/// are tried.
pub open spec fn rule_specs(kind: PiiType) -> Seq<(Seq<char>, u32)> {
    match kind {
        PiiType::Email => seq![(EMAIL_PATTERN@, 500u32)],
        PiiType::PhoneNumber => seq![(PHONE_PATTERN@, 400u32)],
        PiiType::Ssn => seq![(SSN_PATTERN@, 500u32), (SSN_WEAK_PATTERN@, 50u32)],
        PiiType::CreditCard => seq![(CREDIT_CARD_PATTERN@, 300u32)],
        PiiType::CaSin => seq![(CA_SIN_PATTERN@, 500u32)],
        PiiType::Url => seq![(URL_PATTERN@, 600u32)],
    }
}

/// Whether candidates of this kind must pass the Luhn check.
pub open spec fn needs_luhn(kind: PiiType) -> bool {
    kind == PiiType::CreditCard || kind == PiiType::CaSin
}

/// The values of the decimal digits among `bytes`, in order.
pub open spec fn digits_of(bytes: Seq<u8>) -> Seq<u8>
    decreases bytes.len(),
{
    if bytes.len() == 0 {
        Seq::empty()
    } else {
        let head = digits_of(bytes.drop_last());
        let b = bytes.last();
        if 48 <= b <= 57 {
            head.push((b - 48) as u8)
        } else {
            head
        }
    }
}

/// Whether a byte is the first digit of a known card issuer: `3` to `6`.
pub open spec fn issuer_known(first: u8) -> bool {
    51 <= first <= 54
}

/// Whether a candidate span of `kind` is reported.
pub open spec fn span_passes(kind: PiiType, bytes: Seq<u8>, span: Span) -> bool {
    needs_luhn(kind) ==> luhn_valid(digits_of(bytes.subrange(span.start as int, span.end as int)))
}

/// The score of a reported span.
pub open spec fn span_score(kind: PiiType, rule_score: u32, bytes: Seq<u8>, span: Span) -> u32 {
    if kind == PiiType::CreditCard {
        if span.start < bytes.len() && issuer_known(bytes[span.start as int]) {
            MAX_SCORE
        } else {
            UNKNOWN_ISSUER_SCORE
        }
    } else {
        rule_score
    }
}

/// The result reported for a span.
pub open spec fn result_for(kind: PiiType, rule_score: u32, bytes: Seq<u8>, span: Span)
    -> RecognizerResult {
    RecognizerResult {
        entity_type: kind,
        start: span.start,
        end: span.end,
        score: span_score(kind, rule_score, bytes, span),
    }
}

/// The results for the candidates `spans` of one pattern.
pub open spec fn kept(kind: PiiType, rule_score: u32, bytes: Seq<u8>, spans: Seq<Span>) -> Seq<
    RecognizerResult,
>
    decreases spans.len(),
{
    if spans.len() == 0 {
        Seq::empty()
    } else {
        let head = kept(kind, rule_score, bytes, spans.drop_last());
        if span_passes(kind, bytes, spans.last()) {
            head.push(result_for(kind, rule_score, bytes, spans.last()))
        } else {
            head
        }
    }
}

/// The spans with the given offsets.
pub open spec fn to_spans(offsets: Seq<(int, int)>) -> Seq<Span> {
    Seq::new(offsets.len(), |i: int| Span { start: offsets[i].0 as usize, end: offsets[i].1 as usize })
}

/// What one pattern contributes: nothing if the engine rejects the pattern,
/// else the results for its matches.
pub open spec fn rule_results(kind: PiiType, rule: (Seq<char>, u32), text: Seq<char>) -> Seq<
    RecognizerResult,
> {
    if pattern_accepted(rule.0) {
        kept(kind, rule.1, bytes_of(text), to_spans(all_matches(rule.0, text)))
    } else {
        Seq::empty()
    }
}

/// What the patterns `rules` contribute, one after the other.
pub open spec fn rules_results(kind: PiiType, rules: Seq<(Seq<char>, u32)>, text: Seq<char>) -> Seq<
    RecognizerResult,
>
    decreases rules.len(),
{
    if rules.len() == 0 {
        Seq::empty()
    } else {
        rules_results(kind, rules.drop_last(), text) + rule_results(kind, rules.last(), text)
    }
}

/// What the recognizer of `kind` reports on `text`.
pub open spec fn recognized(kind: PiiType, text: Seq<char>) -> Seq<RecognizerResult> {
    rules_results(kind, rule_specs(kind), text)
}

/// What the recognizers of `kinds` report on `text`, one kind after the
/// other.
pub open spec fn scanned(kinds: Seq<PiiType>, text: Seq<char>) -> Seq<RecognizerResult>
    decreases kinds.len(),
{
    if kinds.len() == 0 {
        Seq::empty()
    } else {
        scanned(kinds.drop_last(), text) + recognized(kinds.last(), text)
    }
}

/// Every kind, in declaration order.
pub open spec fn all_kinds() -> Seq<PiiType> {
    seq![
        PiiType::Email,
        PiiType::PhoneNumber,
        PiiType::Ssn,
        PiiType::CreditCard,
        PiiType::CaSin,
        PiiType::Url,
    ]
}

/// The recognizer of one kind: its patterns, compiled. A pattern that the
/// engine rejected is absent and contributes nothing.
pub struct Recognizer {
    kind: PiiType,
    rules: Vec<(Option<Pattern>, u32)>,
}

fn rule_table(kind: PiiType) -> (res: Vec<(&'static str, u32)>)
    ensures
        res@.len() == rule_specs(kind).len(),
        forall|i: int|
            0 <= i < res@.len() ==> (#[trigger] res@[i]).0@ == rule_specs(kind)[i].0 && res@[i].1
                == rule_specs(kind)[i].1,
{
    let mut table: Vec<(&'static str, u32)> = Vec::new();
    match kind {
        PiiType::Email => {
            table.push((EMAIL_PATTERN, 500));
        },
        PiiType::PhoneNumber => {
            table.push((PHONE_PATTERN, 400));
        },
        PiiType::Ssn => {
            table.push((SSN_PATTERN, 500));
            table.push((SSN_WEAK_PATTERN, 50));
        },
        PiiType::CreditCard => {
            table.push((CREDIT_CARD_PATTERN, 300));
        },
        PiiType::CaSin => {
            table.push((CA_SIN_PATTERN, 500));
        },
        PiiType::Url => {
            table.push((URL_PATTERN, 600));
        },
    }
    table
}

/// The values of the decimal digits among `bytes[start..end]`.
fn digits_in(bytes: &[u8], start: usize, end: usize) -> (res: Vec<u8>)
    requires
        start <= end <= bytes@.len(),
    ensures
        res@ == digits_of(bytes@.subrange(start as int, end as int)),
        forall|k: int| 0 <= k < res@.len() ==> res@[k] < 10,
{
    let mut out: Vec<u8> = Vec::new();
    let mut k: usize = start;
    proof {
        assert(bytes@.subrange(start as int, start as int) =~= Seq::<u8>::empty());
    }
    while k < end
        invariant
            start <= k <= end,
            out@ == digits_of(bytes@.subrange(start as int, k as int)),
            forall|j: int| 0 <= j < out@.len() ==> out@[j] < 10,
        decreases end - k,
    {
        let b = bytes[k];
        proof {
            let next = bytes@.subrange(start as int, k + 1);
            assert(next.last() == b);
            assert(next.drop_last() =~= bytes@.subrange(start as int, k as int));
        }
        if 48 <= b && b <= 57 {
            out.push(b - 48);
        }
        k += 1;
    }
    out
}

impl PiiType {
    /// Every kind, in declaration order.
    pub fn all() -> (res: Vec<PiiType>)
        ensures
            res@ == all_kinds(),
    {
        let mut v: Vec<PiiType> = Vec::new();
        v.push(PiiType::Email);
        v.push(PiiType::PhoneNumber);
        v.push(PiiType::Ssn);
        v.push(PiiType::CreditCard);
        v.push(PiiType::CaSin);
        v.push(PiiType::Url);
        assert(v@ =~= all_kinds());
        v
    }

    /// The name under which spans of this kind are reported.
    pub open spec fn entity_name(self) -> Seq<char> {
        match self {
            PiiType::Email => "EMAIL_ADDRESS"@,
            PiiType::PhoneNumber => "PHONE_NUMBER"@,
            PiiType::Ssn => "SSN"@,
            PiiType::CreditCard => "CREDIT_CARD"@,
            PiiType::CaSin => "CA_SIN"@,
            PiiType::Url => "URL"@,
        }
    }

    /// The name under which spans of this kind are reported.
    pub fn entity_type(&self) -> (res: &'static str)
        ensures
            res@ == self.entity_name(),
    {
        match self {
            PiiType::Email => "EMAIL_ADDRESS",
            PiiType::PhoneNumber => "PHONE_NUMBER",
            PiiType::Ssn => "SSN",
            PiiType::CreditCard => "CREDIT_CARD",
            PiiType::CaSin => "CA_SIN",
            PiiType::Url => "URL",
        }
    }

    /// The recognizer of this kind.
    pub fn recognizer(&self) -> (res: Recognizer)
        ensures
            res.kind() == *self,
    {
        let table = rule_table(*self);
        let mut rules: Vec<(Option<Pattern>, u32)> = Vec::new();
        let mut i: usize = 0;
        while i < table.len()
            invariant
                i <= table.len(),
                rules@.len() == i,
                forall|k: int|
                    0 <= k < i ==> rule_matches_spec(#[trigger] rules@[k], rule_specs(*self)[k]),
            decreases table.len() - i,
        {
            let (source, score) = table[i];
            let pattern = match compile(source) {
                Ok(p) => Some(p),
                Err(_) => None,
            };
            rules.push((pattern, score));
            i += 1;
        }
        Recognizer { kind: *self, rules }
    }
}

/// Whether a compiled rule is what the engine makes of a rule of the table.
pub open spec fn rule_matches_spec(rule: (Option<Pattern>, u32), spec: (Seq<char>, u32)) -> bool {
    &&& rule.1 == spec.1
    &&& rule.0 is Some <==> pattern_accepted(spec.0)
    &&& rule.0 matches Some(p) ==> p.source() == spec.0
}

impl Recognizer {
    #[verifier::type_invariant]
    spec fn well_formed(self) -> bool {
        &&& self.rules@.len() == rule_specs(self.kind).len()
        &&& forall|k: int|
            0 <= k < self.rules@.len() ==> rule_matches_spec(
                #[trigger] self.rules@[k],
                rule_specs(self.kind)[k],
            )
    }

    /// The kind that this recognizer finds.
    pub closed spec fn kind(&self) -> PiiType {
        self.kind
    }

    /// The kind that this recognizer finds.
    pub fn entity(&self) -> (res: PiiType)
        ensures
            res == self.kind(),
    {
        self.kind
    }

    /// The results for the matches `spans` of one pattern in `text`.
    fn keep(&self, rule_score: u32, text: &str, spans: &Vec<Span>) -> (res: Vec<RecognizerResult>)
        requires
            forall|i: int| 0 <= i < spans@.len() ==> (#[trigger] spans@[i]).fits(text.spec_bytes()),
        ensures
            res@ == kept(self.kind(), rule_score, bytes_of(text@), spans@),
    {
        let bytes = text.as_bytes();
        let mut out: Vec<RecognizerResult> = Vec::new();
        let mut i: usize = 0;
        proof {
            assert(spans@.take(0) =~= Seq::<Span>::empty());
        }
        while i < spans.len()
            invariant
                i <= spans.len(),
                bytes@ == bytes_of(text@),
                out@ == kept(self.kind, rule_score, bytes@, spans@.take(i as int)),
            decreases spans.len() - i,
        {
            let span = spans[i];
            proof {
                let next = spans@.take(i + 1);
                assert(next.last() == span);
                assert(next.drop_last() =~= spans@.take(i as int));
                assert(span.fits(text.spec_bytes()));
            }
            let passes = match self.kind {
                PiiType::CreditCard | PiiType::CaSin => {
                    let digits = digits_in(bytes, span.start, span.end);
                    luhn_check(&digits)
                },
                _ => true,
            };
            if passes {
                let score = match self.kind {
                    PiiType::CreditCard => {
                        if span.start < bytes.len() && 51 <= bytes[span.start] && bytes[span.start]
                            <= 54 {
                            MAX_SCORE
                        } else {
                            UNKNOWN_ISSUER_SCORE
                        }
                    },
                    _ => rule_score,
                };
                out.push(
                    RecognizerResult {
                        entity_type: self.kind,
                        start: span.start,
                        end: span.end,
                        score,
                    },
                );
            }
            i += 1;
        }
        proof {
            assert(spans@.take(spans@.len() as int) =~= spans@);
        }
        out
    }

    /// The spans of `text` that this recognizer takes for identifiers of its
    /// kind: for each pattern in turn, its matches from left to right.
    pub fn recognize(&self, text: &str) -> (res: Vec<RecognizerResult>)
        ensures
            res@ == recognized(self.kind(), text@),
            forall|i: int| 0 <= i < res@.len() ==> (#[trigger] res@[i]).score <= MAX_SCORE,
            forall|i: int|
                0 <= i < res@.len() ==> (Span {
                    start: (#[trigger] res@[i]).start,
                    end: res@[i].end,
                }).fits(bytes_of(text@)),
    {
        proof {
            use_type_invariant(self);
        }
        let ghost specs = rule_specs(self.kind);
        let mut out: Vec<RecognizerResult> = Vec::new();
        let mut i: usize = 0;
        proof {
            assert(specs.take(0) =~= Seq::<(Seq<char>, u32)>::empty());
        }
        while i < self.rules.len()
            invariant
                i <= self.rules.len(),
                self.rules@.len() == specs.len(),
                specs == rule_specs(self.kind),
                forall|k: int|
                    0 <= k < self.rules@.len() ==> rule_matches_spec(
                        #[trigger] self.rules@[k],
                        specs[k],
                    ),
                out@ == rules_results(self.kind, specs.take(i as int), text@),
                forall|j: int|
                    0 <= j < out@.len() ==> (Span {
                        start: (#[trigger] out@[j]).start,
                        end: out@[j].end,
                    }).fits(bytes_of(text@)),
            decreases self.rules.len() - i,
        {
            proof {
                let next = specs.take(i + 1);
                assert(next.last() == specs[i as int]);
                assert(next.drop_last() =~= specs.take(i as int));
                assert(rule_matches_spec(self.rules@[i as int], specs[i as int]));
            }
            let score = self.rules[i].1;
            match &self.rules[i].0 {
                Some(pattern) => {
                    let spans = find_all(pattern, text);
                    proof {
                        let offsets = all_matches(specs[i as int].0, text@);
                        assert(spans_view(spans@) == offsets);
                        assert(spans@.len() == offsets.len());
                        assert forall|k: int| 0 <= k < spans@.len() implies spans@[k] == to_spans(
                            offsets,
                        )[k] by {
                            assert(spans_view(spans@)[k] == spans@[k].offsets());
                        }
                        assert(spans@ =~= to_spans(offsets));
                    }
                    let mut found = self.keep(score, text, &spans);
                    proof {
                        lemma_kept_fits(self.kind, score, bytes_of(text@), spans@);
                    }
                    out.append(&mut found);
                },
                None => {
                    assert(out@ + Seq::<RecognizerResult>::empty() =~= out@);
                },
            }
            i += 1;
        }
        proof {
            assert(specs.take(specs.len() as int) =~= specs);
            law_scores_bounded(self.kind, text@);
        }
        out
    }
}

/// Every reported span is one of the candidates.
pub proof fn lemma_kept_fits(kind: PiiType, rule_score: u32, bytes: Seq<u8>, spans: Seq<Span>)
    requires
        forall|i: int| 0 <= i < spans.len() ==> (#[trigger] spans[i]).fits(bytes),
    ensures
        forall|j: int|
            0 <= j < kept(kind, rule_score, bytes, spans).len() ==> (Span {
                start: (#[trigger] kept(kind, rule_score, bytes, spans)[j]).start,
                end: kept(kind, rule_score, bytes, spans)[j].end,
            }).fits(bytes),
    decreases spans.len(),
{
    if spans.len() != 0 {
        lemma_kept_fits(kind, rule_score, bytes, spans.drop_last());
        let last = spans.last();
        assert(last.fits(bytes));
        assert(Span { start: last.start, end: last.end } == last);
    }
}

/// No reported span scores higher than the highest score.
pub proof fn lemma_kept_scores(kind: PiiType, rule_score: u32, bytes: Seq<u8>, spans: Seq<Span>)
    requires
        rule_score <= MAX_SCORE,
    ensures
        forall|j: int|
            0 <= j < kept(kind, rule_score, bytes, spans).len() ==> (#[trigger] kept(
                kind,
                rule_score,
                bytes,
                spans,
            )[j]).score <= MAX_SCORE,
    decreases spans.len(),
{
    if spans.len() != 0 {
        lemma_kept_scores(kind, rule_score, bytes, spans.drop_last());
    }
}

/// Scores lie between 0 and 1: no recognizer reports a span with a score
/// above the highest score, 1000 thousandths.
pub proof fn law_scores_bounded(kind: PiiType, text: Seq<char>)
    ensures
        forall|j: int|
            0 <= j < recognized(kind, text).len() ==> (#[trigger] recognized(kind, text)[j]).score
                <= MAX_SCORE,
{
    let specs = rule_specs(kind);
    lemma_rules_scores(kind, specs, text);
}

proof fn lemma_rules_scores(kind: PiiType, rules: Seq<(Seq<char>, u32)>, text: Seq<char>)
    requires
        forall|k: int| 0 <= k < rules.len() ==> (#[trigger] rules[k]).1 <= MAX_SCORE,
    ensures
        forall|j: int|
            0 <= j < rules_results(kind, rules, text).len() ==> (#[trigger] rules_results(
                kind,
                rules,
                text,
            )[j]).score <= MAX_SCORE,
    decreases rules.len(),
{
    if rules.len() != 0 {
        lemma_rules_scores(kind, rules.drop_last(), text);
        let last = rules.last();
        if pattern_accepted(last.0) {
            lemma_kept_scores(kind, last.1, bytes_of(text), to_spans(all_matches(last.0, text)));
        }
    }
}

/// Runs one recognizer over a text.
pub fn recognize(r: &Recognizer, text: &str) -> (res: Vec<RecognizerResult>)
    ensures
        res@ == recognized(r.kind(), text@),
{
    r.recognize(text)
}

/// Runs one recognizer over a text, as [`recognize`] does.
pub fn recognizer(r: &Recognizer, text: &str) -> (res: Vec<RecognizerResult>)
    ensures
        res@ == recognized(r.kind(), text@),
{
    r.recognize(text)
}

/// The spans of `text` that the recognizers of `types` report, one kind
/// after the other.
pub fn scan_text(text: &str, types: &[PiiType]) -> (res: Vec<RecognizerResult>)
    ensures
        res@ == scanned(types@, text@),
{
    let mut results: Vec<RecognizerResult> = Vec::new();
    let mut i: usize = 0;
    proof {
        assert(types@.take(0) =~= Seq::<PiiType>::empty());
    }
    while i < types.len()
        invariant
            i <= types.len(),
            results@ == scanned(types@.take(i as int), text@),
        decreases types.len() - i,
    {
        proof {
            let next = types@.take(i + 1);
            assert(next.last() == types@[i as int]);
            assert(next.drop_last() =~= types@.take(i as int));
        }
        let recognizer = types[i].recognizer();
        let mut found = recognizer.recognize(text);
        results.append(&mut found);
        i += 1;
    }
    proof {
        assert(types@.take(types@.len() as int) =~= types@);
    }
    results
}

/// The spans of `text` that the recognizers of all kinds report.
pub fn scan_all(text: &str) -> (res: Vec<RecognizerResult>)
    ensures
        res@ == scanned(all_kinds(), text@),
{
    let kinds = PiiType::all();
    scan_text(text, kinds.as_slice())
}

/// Whether the digits of a span of `bytes` pass the Luhn check.
pub open spec fn passes_luhn(bytes: Seq<u8>) -> spec_fn(Span) -> bool {
    |s: Span| luhn_valid(digits_of(bytes.subrange(s.start as int, s.end as int)))
}

/// The result that is reported for a credit-card span.
pub open spec fn card_result(rule_score: u32, bytes: Seq<u8>) -> spec_fn(Span) -> RecognizerResult {
    |s: Span| result_for(PiiType::CreditCard, rule_score, bytes, s)
}

/// Luhn validation: of the candidates for a credit-card number, those are
/// reported, in their order, whose digits pass the Luhn check, and no
/// others; a reported one has the highest score if its first digit is that
/// of a known issuer, and the score of an unknown issuer else.
pub proof fn law_credit_card_luhn(bytes: Seq<u8>, rule_score: u32, spans: Seq<Span>)
    ensures
        kept(PiiType::CreditCard, rule_score, bytes, spans) == spans.filter(
            passes_luhn(bytes),
        ).map_values(card_result(rule_score, bytes)),
        forall|i: int|
            0 <= i < kept(PiiType::CreditCard, rule_score, bytes, spans).len() ==> (#[trigger] kept(
                PiiType::CreditCard,
                rule_score,
                bytes,
                spans,
            )[i]).score == MAX_SCORE || kept(PiiType::CreditCard, rule_score, bytes, spans)[i].score
                == UNKNOWN_ISSUER_SCORE,
    decreases spans.len(),
{
    reveal(Seq::filter);
    if spans.len() > 0 {
        law_credit_card_luhn(bytes, rule_score, spans.drop_last());
        let head = spans.drop_last().filter(passes_luhn(bytes));
        let f = card_result(rule_score, bytes);
        if passes_luhn(bytes)(spans.last()) {
            assert(head.push(spans.last()).map_values(f) =~= head.map_values(f).push(
                f(spans.last()),
            ));
        }
    }
    assert(kept(PiiType::CreditCard, rule_score, bytes, spans) =~= spans.filter(
        passes_luhn(bytes),
    ).map_values(card_result(rule_score, bytes)));
}

} // verus!
