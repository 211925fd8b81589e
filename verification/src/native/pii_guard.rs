//! The guard that finds personally identifiable information in JSON payloads
//! and either masks it or rejects the payload.
use crate::decision::{
    DecisionView, DenyReason, DenyReasonView, GuardContext, GuardDecision, GuardResult, ModifyAction,
    ModifyView, result_view,
};
use crate::json::{
    array_values, lemma_array_view, lemma_object_view, object_fields, Json, JsonNumber, JsonValue,
    NumberValue,
};
use crate::order::{arrange, lemma_insert_in_order, lemma_stable_order, stable_order};
use crate::pii::{recognized, PiiType, Recognizer, RecognizerResult};
use crate::decision::texts_view;
use crate::text::{
    bytes_of, clone_texts, decimal, decimal_text, dotted, join_dotted, lemma_boundary_at_join,
    lemma_boundary_by_byte, score_decimal, score_text, string_from_utf8,
};
use crate::tool::{Tool, ToolView, tools_view};
use vstd::prelude::*;
use vstd::string::StringSliceAdditionalSpecFns;
use vstd::utf8::{decode_utf8, is_char_boundary, valid_utf8};

verus! {

/// What the guard does with a payload in which it found something.
#[derive(Debug, Clone, Copy, PartialEq, Eq, Structural)]
pub enum PiiAction {
    /// Each detected span is replaced by `<ENTITY_TYPE>`.
    Mask,
    /// The payload is rejected.
    Reject,
}

impl Default for PiiAction {
    fn default() -> (res: PiiAction)
        ensures
            res == PiiAction::Mask,
    {
        PiiAction::Mask
    }
}

/// Configuration of the guard. `min_score` is in thousandths.
#[derive(Debug)]
pub struct PiiGuardConfig {
    /// The kinds to look for.
    pub detect: Vec<PiiType>,
    pub action: PiiAction,
    /// The least score, in thousandths, at which a span counts.
    pub min_score: u32,
    /// The message of a rejection.
    pub rejection_message: Option<String>,
}

/// The kinds that are looked for by default: all.
pub fn default_pii_types() -> (res: Vec<PiiType>)
    ensures
        res@ == crate::pii::all_kinds(),
{
    PiiType::all()
}

/// The default least score, in thousandths.
pub fn default_min_score() -> (res: u32)
    ensures
        res == 300,
{
    300
}

impl Default for PiiGuardConfig {
    fn default() -> (res: PiiGuardConfig)
        ensures
            res.detect@ == crate::pii::all_kinds(),
            res.action == PiiAction::Mask,
            res.min_score == 300,
            res.rejection_message is None,
    {
        PiiGuardConfig {
            detect: default_pii_types(),
            action: PiiAction::Mask,
            min_score: default_min_score(),
            rejection_message: None,
        }
    }
}

/// The results of `results` whose score is at least `min_score`.
pub open spec fn passing(results: Seq<RecognizerResult>, min_score: u32) -> Seq<RecognizerResult>
    decreases results.len(),
{
    if results.len() == 0 {
        Seq::empty()
    } else {
        let head = passing(results.drop_last(), min_score);
        if results.last().score >= min_score {
            head.push(results.last())
        } else {
            head
        }
    }
}

/// What the recognizers of `detect` find in `text` with at least `min_score`,
/// one kind after the other.
pub open spec fn found(detect: Seq<PiiType>, min_score: u32, text: Seq<char>) -> Seq<
    RecognizerResult,
>
    decreases detect.len(),
{
    if detect.len() == 0 {
        Seq::empty()
    } else {
        found(detect.drop_last(), min_score, text) + passing(
            recognized(detect.last(), text),
            min_score,
        )
    }
}

/// The keys by which results are put in descending order of start.
pub open spec fn start_keys(results: Seq<RecognizerResult>) -> Seq<u64> {
    Seq::new(results.len(), |i: int| (u64::MAX - results[i].start) as u64)
}

/// `results` in descending order of start; results with the same start keep
/// their order.
pub open spec fn by_start_descending(results: Seq<RecognizerResult>) -> Seq<RecognizerResult> {
    arrange(results, stable_order(start_keys(results)))
}

/// The detections in `text`: what was found, in descending order of start.
pub open spec fn detections(detect: Seq<PiiType>, min_score: u32, text: Seq<char>) -> Seq<
    RecognizerResult,
> {
    by_start_descending(found(detect, min_score, text))
}

/// Whether starts do not increase along `results`.
pub open spec fn descending(results: Seq<RecognizerResult>) -> bool {
    forall|a: int, b: int|
        0 <= a < b < results.len() ==> (#[trigger] results[a]).start >= (
        #[trigger] results[b]).start
}

/// Whether a result can be masked in `bytes`: it covers at least one byte,
/// lies inside the text and begins and ends on character boundaries.
pub open spec fn maskable(r: RecognizerResult, bytes: Seq<u8>) -> bool {
    &&& r.start < r.end <= bytes.len()
    &&& is_char_boundary(bytes, r.start as int)
    &&& is_char_boundary(bytes, r.end as int)
}

/// Whether two results share a byte.
pub open spec fn overlaps(a: RecognizerResult, b: RecognizerResult) -> bool {
    a.end > b.start && a.start < b.end
}

/// Whether `r` shares a byte with one of `chosen`.
pub open spec fn overlaps_any(r: RecognizerResult, chosen: Seq<RecognizerResult>) -> bool {
    exists|k: int| 0 <= k < chosen.len() && overlaps(r, #[trigger] chosen[k])
}

/// The results that are masked: going through `results` in order, each
/// maskable result that overlaps none chosen before it.
pub open spec fn chosen(results: Seq<RecognizerResult>, bytes: Seq<u8>) -> Seq<RecognizerResult>
    decreases results.len(),
{
    if results.len() == 0 {
        Seq::empty()
    } else {
        let before = chosen(results.drop_last(), bytes);
        let r = results.last();
        if maskable(r, bytes) && !overlaps_any(r, before) {
            before.push(r)
        } else {
            before
        }
    }
}

/// The placeholder that replaces a span of the given kind.
pub open spec fn placeholder(kind: PiiType) -> Seq<char> {
    "<"@ + kind.entity_name() + ">"@
}

/// `bytes` with the range of `r` replaced by the placeholder of its kind.
pub open spec fn replaced(bytes: Seq<u8>, r: RecognizerResult) -> Seq<u8> {
    bytes.subrange(0, r.start as int) + bytes_of(placeholder(r.entity_type)) + bytes.subrange(
        r.end as int,
        bytes.len() as int,
    )
}

/// `bytes` after the ranges of `spans` were replaced one after the other.
pub open spec fn replaced_all(bytes: Seq<u8>, spans: Seq<RecognizerResult>) -> Seq<u8>
    decreases spans.len(),
{
    if spans.len() == 0 {
        bytes
    } else {
        replaced(replaced_all(bytes, spans.drop_last()), spans.last())
    }
}

/// The bytes of a text after masking, given its results in descending order
/// of start.
pub open spec fn masked_bytes(bytes: Seq<u8>, results: Seq<RecognizerResult>) -> Seq<u8> {
    replaced_all(bytes, chosen(results, bytes))
}

/// A text after masking of what is detected in it.
pub open spec fn masked_text(detect: Seq<PiiType>, min_score: u32, text: Seq<char>) -> Seq<char> {
    decode_utf8(masked_bytes(bytes_of(text), detections(detect, min_score, text)))
}

/// The guard.
pub struct PiiGuard {
    config: PiiGuardConfig,
    recognizers: Vec<Recognizer>,
}

/// The placeholder that replaces a span of the given kind.
fn placeholder_text(kind: PiiType) -> (res: String)
    ensures
        res@ == placeholder(kind),
{
    let mut s = "<".to_owned();
    s.append(kind.entity_type());
    s.append(">");
    s
}

/// Results in descending order of start; results with the same start keep
/// their order.
fn sort_by_start_descending(all: &Vec<RecognizerResult>) -> (res: Vec<RecognizerResult>)
    ensures
        res@ == by_start_descending(all@),
        descending(res@),
{
    let mut sorted: Vec<RecognizerResult> = Vec::new();
    let mut i: usize = 0;
    proof {
        assert(all@.take(0) =~= Seq::<RecognizerResult>::empty());
        assert(start_keys(all@.take(0)) =~= Seq::<u64>::empty());
        assert(sorted@ =~= by_start_descending(all@.take(0)));
    }
    while i < all.len()
        invariant
            i <= all.len(),
            sorted@ == by_start_descending(all@.take(i as int)),
        decreases all.len() - i,
    {
        let r = all[i];
        let mut pos: usize = 0;
        proof {
            lemma_stable_order(start_keys(all@.take(i as int)));
        }
        while pos < sorted.len() && sorted[pos].start >= r.start
            invariant
                pos <= sorted.len(),
                forall|k: int| 0 <= k < pos ==> (#[trigger] sorted@[k]).start >= r.start,
            decreases sorted.len() - pos,
        {
            pos += 1;
        }
        proof {
            let items = all@.take(i + 1);
            let keys = start_keys(items);
            let prev = all@.take(i as int);
            assert(items.drop_last() =~= prev);
            assert(keys.drop_last() =~= start_keys(prev));
            assert(items.last() == r);
            let before = stable_order(keys.drop_last());
            let sorted_keys = start_keys(sorted@);
            assert forall|k: int| 0 <= k < sorted@.len() implies #[trigger] sorted_keys[k]
                == keys[before[k]] by {
                assert(sorted@[k] == prev[before[k]]);
                assert(items[before[k]] == prev[before[k]]);
            }
            assert forall|k: int| 0 <= k < pos implies sorted_keys[k] <= keys.last() by {
                assert(sorted@[k].start >= r.start);
            }
            lemma_insert_in_order(items, keys, sorted@, sorted_keys, pos as int);
        }
        sorted.insert(pos, r);
        i += 1;
    }
    proof {
        assert(all@.take(all@.len() as int) =~= all@);
        let keys = start_keys(all@);
        let perm = stable_order(keys);
        lemma_stable_order(keys);
        assert forall|a: int, b: int| 0 <= a < b < sorted@.len() implies (#[trigger] sorted@[a]).start
            >= (#[trigger] sorted@[b]).start by {
            assert(crate::order::comes_before(keys, perm[a], perm[b]));
        }
    }
    sorted
}

impl PiiGuard {
    #[verifier::type_invariant]
    spec fn well_formed(self) -> bool {
        &&& self.recognizers@.len() == self.config.detect@.len()
        &&& forall|k: int|
            0 <= k < self.recognizers@.len() ==> (#[trigger] self.recognizers@[k]).kind()
                == self.config.detect@[k]
    }

    /// The kinds that the guard looks for.
    pub closed spec fn detect(&self) -> Seq<PiiType> {
        self.config.detect@
    }

    /// The least score, in thousandths, at which a span counts.
    pub closed spec fn min_score(&self) -> u32 {
        self.config.min_score
    }

    /// What the guard does with a payload in which it found something.
    pub closed spec fn action(&self) -> PiiAction {
        self.config.action
    }

    /// The configured message of a rejection.
    pub closed spec fn rejection_message(&self) -> Option<Seq<char>> {
        crate::tool::opt_text(self.config.rejection_message)
    }

    /// A guard with the given configuration.
    pub fn new(config: PiiGuardConfig) -> (res: PiiGuard)
        ensures
            res.detect() == config.detect@,
            res.min_score() == config.min_score,
            res.action() == config.action,
            res.rejection_message() == crate::tool::opt_text(config.rejection_message),
    {
        let mut recognizers: Vec<Recognizer> = Vec::new();
        let mut i: usize = 0;
        while i < config.detect.len()
            invariant
                i <= config.detect.len(),
                recognizers@.len() == i,
                forall|k: int|
                    0 <= k < i ==> (#[trigger] recognizers@[k]).kind() == config.detect@[k],
            decreases config.detect.len() - i,
        {
            recognizers.push(config.detect[i].recognizer());
            i += 1;
        }
        PiiGuard { config, recognizers }
    }

    /// The detections in `text`: for each configured kind, what its
    /// recognizer reports with at least the least score; all of them in
    /// descending order of start.
    pub fn scan_text(&self, text: &str) -> (res: Vec<RecognizerResult>)
        ensures
            res@ == detections(self.detect(), self.min_score(), text@),
            descending(res@),
    {
        proof {
            use_type_invariant(self);
        }
        let ghost detect = self.config.detect@;
        let min_score = self.config.min_score;
        let mut all: Vec<RecognizerResult> = Vec::new();
        let mut i: usize = 0;
        proof {
            assert(detect.take(0) =~= Seq::<PiiType>::empty());
        }
        while i < self.recognizers.len()
            invariant
                i <= self.recognizers.len(),
                self.recognizers@.len() == detect.len(),
                forall|k: int|
                    0 <= k < self.recognizers@.len() ==> (#[trigger] self.recognizers@[k]).kind()
                        == detect[k],
                all@ == found(detect.take(i as int), min_score, text@),
            decreases self.recognizers.len() - i,
        {
            let results = self.recognizers[i].recognize(text);
            proof {
                let next = detect.take(i + 1);
                assert(next.last() == detect[i as int]);
                assert(next.drop_last() =~= detect.take(i as int));
                assert(results@.take(0) =~= Seq::<RecognizerResult>::empty());
            }
            let ghost base = all@;
            let mut j: usize = 0;
            while j < results.len()
                invariant
                    j <= results.len(),
                    all@ == base + passing(results@.take(j as int), min_score),
                decreases results.len() - j,
            {
                proof {
                    let next = results@.take(j + 1);
                    assert(next.last() == results@[j as int]);
                    assert(next.drop_last() =~= results@.take(j as int));
                }
                if results[j].score >= min_score {
                    all.push(results[j]);
                    assert(all@ =~= base + passing(results@.take(j + 1), min_score));
                }
                j += 1;
            }
            proof {
                assert(results@.take(results@.len() as int) =~= results@);
            }
            i += 1;
        }
        proof {
            assert(detect.take(detect.len() as int) =~= detect);
        }
        sort_by_start_descending(&all)
    }
}

/// Appends `src[from..to]` to `out`.
fn append_range(out: &mut Vec<u8>, src: &[u8], from: usize, to: usize)
    requires
        from <= to <= src@.len(),
    ensures
        final(out)@ == old(out)@ + src@.subrange(from as int, to as int),
{
    let mut k: usize = from;
    assert(src@.subrange(from as int, from as int) =~= Seq::<u8>::empty());
    assert(out@ =~= old(out)@ + src@.subrange(from as int, from as int));
    while k < to
        invariant
            from <= k <= to,
            out@ == old(out)@ + src@.subrange(from as int, k as int),
        decreases to - k,
    {
        out.push(src[k]);
        assert(out@ =~= old(out)@ + src@.subrange(from as int, k + 1));
        k += 1;
    }
}

/// The chosen results of a list in descending order of start are maskable,
/// and each ends where the one chosen before it starts, or earlier.
pub proof fn lemma_chosen(results: Seq<RecognizerResult>, bytes: Seq<u8>)
    requires
        descending(results),
    ensures
        forall|k: int|
            0 <= k < chosen(results, bytes).len() ==> maskable(
                #[trigger] chosen(results, bytes)[k],
                bytes,
            ),
        forall|k: int|
            0 <= k < chosen(results, bytes).len() ==> (#[trigger] chosen(results, bytes)[k]).start
                >= results.last().start,
        forall|a: int, b: int|
            0 <= a < b < chosen(results, bytes).len() ==> (#[trigger] chosen(
                results,
                bytes,
            )[b]).end <= (#[trigger] chosen(results, bytes)[a]).start,
    decreases results.len(),
{
    if results.len() != 0 {
        let shorter = results.drop_last();
        assert forall|a: int, b: int| 0 <= a < b < shorter.len() implies (#[trigger] shorter[a]).start
            >= (#[trigger] shorter[b]).start by {
            assert(shorter[a] == results[a] && shorter[b] == results[b]);
        }
        lemma_chosen(shorter, bytes);
        let before = chosen(shorter, bytes);
        let r = results.last();
        let c = chosen(results, bytes);
        if shorter.len() > 0 {
            assert(shorter.last() == results[results.len() - 2]);
            assert(results[results.len() - 2].start >= results[results.len() - 1].start);
        }
        if maskable(r, bytes) && !overlaps_any(r, before) {
            assert(c == before.push(r));
            assert forall|a: int, b: int| 0 <= a < b < c.len() implies (#[trigger] c[b]).end <= (
            #[trigger] c[a]).start by {
                if b == before.len() {
                    assert(c[a] == before[a]);
                    assert(!overlaps(r, before[a]));
                    assert(maskable(before[a], bytes));
                    assert(before[a].start >= shorter.last().start);
                } else {
                    assert(c[a] == before[a] && c[b] == before[b]);
                }
            }
        } else {
            assert(c == before);
        }
    }
}

impl PiiGuard {
    /// Replaces each detected span of `text` by the placeholder of its kind.
    ///
    /// Of the results, given in descending order of start, those are
    /// discarded that cover no byte, reach outside the text or do not begin
    /// and end on a character boundary; of the rest, each is masked that
    /// overlaps none taken before it.
    pub fn mask_text(text: &str, results: &Vec<RecognizerResult>) -> (res: String)
        requires
            descending(results@),
        ensures
            bytes_of(res@) == masked_bytes(bytes_of(text@), results@),
            res@ == decode_utf8(masked_bytes(bytes_of(text@), results@)),
    {
        broadcast use vstd::utf8::encode_utf8_valid_utf8;

        let bytes = text.as_bytes();
        let mut selected: Vec<RecognizerResult> = Vec::new();
        let mut i: usize = 0;
        proof {
            assert(results@.take(0) =~= Seq::<RecognizerResult>::empty());
        }
        while i < results.len()
            invariant
                i <= results.len(),
                bytes@ == bytes_of(text@),
                selected@ == chosen(results@.take(i as int), bytes@),
            decreases results.len() - i,
        {
            let r = results[i];
            proof {
                let next = results@.take(i + 1);
                assert(next.last() == r);
                assert(next.drop_last() =~= results@.take(i as int));
            }
            if r.start < r.end && r.end <= bytes.len() && text.is_char_boundary(r.start)
                && text.is_char_boundary(r.end) {
                let mut k: usize = 0;
                let mut clash = false;
                while k < selected.len()
                    invariant
                        k <= selected.len(),
                        clash <==> exists|j: int| 0 <= j < k && overlaps(r, #[trigger] selected@[j]),
                    decreases selected.len() - k,
                {
                    if r.end > selected[k].start && r.start < selected[k].end {
                        clash = true;
                    }
                    k += 1;
                }
                if !clash {
                    selected.push(r);
                }
            }
            i += 1;
        }
        proof {
            assert(results@.take(results@.len() as int) =~= results@);
            lemma_chosen(results@, bytes@);
        }
        let mut out: Vec<u8> = Vec::new();
        append_range(&mut out, bytes, 0, bytes.len());
        let mut k: usize = 0;
        let ghost mut low: int = bytes@.len() as int;
        proof {
            assert(bytes@.subrange(0, bytes@.len() as int) =~= bytes@);
            assert(out@ =~= bytes@);
            assert(selected@.take(0) =~= Seq::<RecognizerResult>::empty());
            vstd::utf8::is_char_boundary_start_end_of_seq(out@);
        }
        while k < selected.len()
            invariant
                k <= selected.len(),
                bytes@ == bytes_of(text@),
                valid_utf8(bytes@),
                selected@ == chosen(results@, bytes@),
                forall|j: int| 0 <= j < selected@.len() ==> maskable(#[trigger] selected@[j], bytes@),
                forall|a: int, b: int|
                    0 <= a < b < selected@.len() ==> (#[trigger] selected@[b]).end <= (
                    #[trigger] selected@[a]).start,
                out@ == replaced_all(bytes@, selected@.take(k as int)),
                valid_utf8(out@),
                0 <= low <= out@.len(),
                low <= bytes@.len(),
                k == 0 ==> low == bytes@.len(),
                k > 0 ==> low == selected@[k - 1].start,
                out@.subrange(0, low) == bytes@.subrange(0, low),
                is_char_boundary(out@, low),
            decreases selected.len() - k,
        {
            let r = selected[k];
            let ghost old_out = out@;
            proof {
                let next = selected@.take(k + 1);
                assert(next.last() == r);
                assert(next.drop_last() =~= selected@.take(k as int));
                assert(maskable(r, bytes@));
                if k > 0 {
                    assert(selected@[k as int].end <= selected@[k - 1].start);
                }
                assert(r.end <= low);
                // The bytes below `low` are those of the text.
                assert(old_out[r.start as int] == old_out.subrange(0, low)[r.start as int]);
                assert(bytes@[r.start as int] == bytes@.subrange(0, low)[r.start as int]);
                vstd::utf8::is_char_boundary_iff_not_is_continuation_byte(bytes@, r.start as int);
                lemma_boundary_by_byte(old_out, r.start as int);
                if r.end < low {
                    assert(old_out[r.end as int] == old_out.subrange(0, low)[r.end as int]);
                    assert(bytes@[r.end as int] == bytes@.subrange(0, low)[r.end as int]);
                    vstd::utf8::is_char_boundary_iff_not_is_continuation_byte(bytes@, r.end as int);
                    lemma_boundary_by_byte(old_out, r.end as int);
                }
                vstd::utf8::valid_utf8_split(old_out, r.start as int);
                vstd::utf8::valid_utf8_split(old_out, r.end as int);
            }
            let label = placeholder_text(r.entity_type);
            let mut next: Vec<u8> = Vec::new();
            append_range(&mut next, out.as_slice(), 0, r.start);
            let label_bytes = label.as_str().as_bytes();
            append_range(&mut next, label_bytes, 0, label_bytes.len());
            append_range(&mut next, out.as_slice(), r.end, out.len());
            proof {
                let head = old_out.subrange(0, r.start as int);
                let mid = bytes_of(placeholder(r.entity_type));
                let tail = old_out.subrange(r.end as int, old_out.len() as int);
                assert(label_bytes@ == mid);
                assert(mid.subrange(0, mid.len() as int) =~= mid);
                assert(next@ =~= head + mid + tail);
                assert(next@ == replaced(old_out, r));
                vstd::utf8::valid_utf8_concat(mid, tail);
                lemma_boundary_at_join(head, mid + tail);
                assert(head + (mid + tail) =~= next@);
                assert(next@.subrange(0, r.start as int) =~= head);
                assert(head =~= bytes@.subrange(0, r.start as int)) by {
                    assert forall|j: int| 0 <= j < r.start implies head[j] == bytes@[j] by {
                        assert(old_out[j] == old_out.subrange(0, low)[j]);
                        assert(bytes@[j] == bytes@.subrange(0, low)[j]);
                    }
                }
                low = r.start as int;
            }
            out = next;
            k += 1;
        }
        proof {
            assert(selected@.take(selected@.len() as int) =~= selected@);
        }
        match string_from_utf8(out) {
            Ok(s) => {
                proof {
                    vstd::utf8::decode_utf8_encode_utf8(masked_bytes(bytes_of(text@), results@));
                }
                s
            },
            Err(_) => {
                assert(false);
                String::new()
            },
        }
    }
}

/// One detection in a JSON payload: where the text stands, what was found
/// and how surely.
#[derive(Debug)]
pub struct PiiDetection {
    /// The object keys and array indices that lead to the text.
    pub path: Vec<String>,
    pub entity_type: PiiType,
    /// Confidence in thousandths.
    pub score: u32,
}

/// The mathematical value of a [`PiiDetection`].
pub struct DetectionView {
    pub path: Seq<Seq<char>>,
    pub entity_type: PiiType,
    pub score: u32,
}

impl View for PiiDetection {
    type V = DetectionView;

    open spec fn view(&self) -> DetectionView {
        DetectionView {
            path: texts_view(self.path@),
            entity_type: self.entity_type,
            score: self.score,
        }
    }
}

/// The values of a list of detections.
pub open spec fn detections_view(ds: Seq<PiiDetection>) -> Seq<DetectionView> {
    Seq::new(ds.len(), |i: int| ds[i]@)
}

/// A payload after masking of what is detected in its texts. Keys, numbers,
/// booleans and nulls stay as they are.
pub open spec fn masked_value(detect: Seq<PiiType>, min_score: u32, v: JsonValue) -> JsonValue
    decreases v,
{
    match v {
        JsonValue::Str(s) => JsonValue::Str(masked_text(detect, min_score, s)),
        JsonValue::Array(items) => JsonValue::Array(
            Seq::new(
                items.len(),
                |i: int|
                    if 0 <= i < items.len() {
                        masked_value(detect, min_score, items[i])
                    } else {
                        JsonValue::Null
                    },
            ),
        ),
        JsonValue::Object(fields) => JsonValue::Object(
            Seq::new(
                fields.len(),
                |i: int|
                    if 0 <= i < fields.len() {
                        (fields[i].0, masked_value(detect, min_score, fields[i].1))
                    } else {
                        (Seq::empty(), JsonValue::Null)
                    },
            ),
        ),
        other => other,
    }
}

/// The detections in one text that stands at `path`.
pub open spec fn hits(detect: Seq<PiiType>, min_score: u32, text: Seq<char>, path: Seq<Seq<char>>)
    -> Seq<DetectionView> {
    let d = detections(detect, min_score, text);
    Seq::new(
        d.len(),
        |i: int| DetectionView { path, entity_type: d[i].entity_type, score: d[i].score },
    )
}

/// The detections in a payload that stands at `path`: those of its texts,
/// in document order.
pub open spec fn collected(
    detect: Seq<PiiType>,
    min_score: u32,
    v: JsonValue,
    path: Seq<Seq<char>>,
) -> Seq<DetectionView>
    decreases v, 0nat,
{
    match v {
        JsonValue::Str(s) => hits(detect, min_score, s, path),
        JsonValue::Array(items) => collected_items(detect, min_score, items, path, items.len()),
        JsonValue::Object(fields) => collected_fields(detect, min_score, fields, path, fields.len()),
        _ => Seq::empty(),
    }
}

/// The detections in the first `n` items of an array that stands at `path`.
pub open spec fn collected_items(
    detect: Seq<PiiType>,
    min_score: u32,
    items: Seq<JsonValue>,
    path: Seq<Seq<char>>,
    n: nat,
) -> Seq<DetectionView>
    decreases items, n,
{
    if n == 0 || n > items.len() {
        Seq::empty()
    } else {
        collected_items(detect, min_score, items, path, (n - 1) as nat) + collected(
            detect,
            min_score,
            items[n - 1],
            path.push(decimal((n - 1) as nat)),
        )
    }
}

/// The detections in the first `n` fields of an object that stands at `path`.
pub open spec fn collected_fields(
    detect: Seq<PiiType>,
    min_score: u32,
    fields: Seq<(Seq<char>, JsonValue)>,
    path: Seq<Seq<char>>,
    n: nat,
) -> Seq<DetectionView>
    decreases fields, n,
{
    if n == 0 || n > fields.len() {
        Seq::empty()
    } else {
        collected_fields(detect, min_score, fields, path, (n - 1) as nat) + collected(
            detect,
            min_score,
            fields[n - 1].1,
            path.push(fields[n - 1].0),
        )
    }
}

/// One detection as it stands in the details of a rejection.
pub open spec fn detection_json(d: DetectionView) -> JsonValue {
    JsonValue::Object(
        seq![
            ("type"@, JsonValue::Str(d.entity_type.entity_name())),
            ("path"@, JsonValue::Str(dotted(d.path))),
            ("score"@, JsonValue::Number(NumberValue::Real(score_decimal(d.score)))),
        ],
    )
}

/// The details of a rejection.
pub open spec fn details_json(ds: Seq<DetectionView>) -> JsonValue {
    JsonValue::Object(
        seq![("detections"@, JsonValue::Array(Seq::new(ds.len(), |i: int| detection_json(ds[i]))))],
    )
}

/// The message of a rejection of a payload with `count` detections.
pub open spec fn rejection_text(configured: Option<Seq<char>>, count: nat) -> Seq<char> {
    match configured {
        Some(m) => m,
        None => "Request rejected: "@ + decimal(count) + " PII item(s) detected"@,
    }
}

/// The decision on a JSON payload.
pub open spec fn json_decision(
    action: PiiAction,
    configured: Option<Seq<char>>,
    detect: Seq<PiiType>,
    min_score: u32,
    v: JsonValue,
) -> DecisionView {
    let ds = collected(detect, min_score, v, Seq::empty());
    if ds.len() == 0 {
        DecisionView::Allow
    } else {
        match action {
            PiiAction::Reject => DecisionView::Deny(
                DenyReasonView {
                    code: "pii_detected"@,
                    message: rejection_text(configured, ds.len()),
                    details: Some(details_json(ds)),
                },
            ),
            PiiAction::Mask => DecisionView::Modify(
                ModifyView::Transform(masked_value(detect, min_score, v)),
            ),
        }
    }
}

/// Whether something is detected in the description of a tool.
pub open spec fn description_dirty(detect: Seq<PiiType>, min_score: u32, tool: ToolView) -> bool {
    match tool.description {
        Some(d) => detections(detect, min_score, d).len() > 0,
        None => false,
    }
}

/// The position of the first tool in whose description something is
/// detected, or the number of tools when there is none.
pub open spec fn first_dirty(detect: Seq<PiiType>, min_score: u32, tools: Seq<ToolView>) -> int
    decreases tools.len(),
{
    if tools.len() == 0 {
        0
    } else if description_dirty(detect, min_score, tools[0]) {
        0
    } else {
        1 + first_dirty(detect, min_score, tools.drop_first())
    }
}

/// The first position of a tool with a finding lies in range, holds such a tool
/// if it is a position, and no position before it does.
pub proof fn lemma_first_dirty(detect: Seq<PiiType>, min_score: u32, tools: Seq<ToolView>)
    ensures
        0 <= first_dirty(detect, min_score, tools) <= tools.len(),
        first_dirty(detect, min_score, tools) < tools.len() ==> description_dirty(
            detect,
            min_score,
            tools[first_dirty(detect, min_score, tools)],
        ),
        forall|i: int|
            0 <= i < first_dirty(detect, min_score, tools) ==> !description_dirty(
                detect,
                min_score,
                #[trigger] tools[i],
            ),
    decreases tools.len(),
{
    if tools.len() != 0 && !description_dirty(detect, min_score, tools[0]) {
        let rest = tools.drop_first();
        lemma_first_dirty(detect, min_score, rest);
        let p = first_dirty(detect, min_score, rest);
        assert forall|i: int| 0 <= i < 1 + p implies !description_dirty(
            detect,
            min_score,
            #[trigger] tools[i],
        ) by {
            if i > 0 {
                assert(tools[i] == rest[i - 1]);
            }
        }
        if p < rest.len() {
            assert(tools[1 + p] == rest[p]);
        }
    }
}

/// A position before which no tool has a finding, and which holds a tool that
/// has one or is the end, is the first position of such a tool.
pub proof fn lemma_first_dirty_is(
    detect: Seq<PiiType>,
    min_score: u32,
    tools: Seq<ToolView>,
    p: int,
)
    requires
        0 <= p <= tools.len(),
        forall|i: int| 0 <= i < p ==> !description_dirty(detect, min_score, #[trigger] tools[i]),
        p < tools.len() ==> description_dirty(detect, min_score, tools[p]),
    ensures
        first_dirty(detect, min_score, tools) == p,
{
    lemma_first_dirty(detect, min_score, tools);
    let q = first_dirty(detect, min_score, tools);
    if q < p {
        assert(!description_dirty(detect, min_score, tools[q]));
    } else if p < q {
        assert(!description_dirty(detect, min_score, tools[p]));
    }
}

/// The decision on a list of tools: in reject mode the list is denied for
/// the first tool in whose description something is detected; in mask mode
/// it is allowed, because the list cannot be rewritten here.
pub open spec fn tools_decision(
    action: PiiAction,
    detect: Seq<PiiType>,
    min_score: u32,
    tools: Seq<ToolView>,
) -> DecisionView {
    let p = first_dirty(detect, min_score, tools);
    if action == PiiAction::Reject && p < tools.len() {
        DecisionView::Deny(
            DenyReasonView {
                code: "pii_in_tool_description"@,
                message: "PII detected in tool '"@ + tools[p].name + "' description"@,
                details: None,
            },
        )
    } else {
        DecisionView::Allow
    }
}

fn detection_to_json(d: &PiiDetection) -> (res: Json)
    ensures
        res@ == detection_json(d@),
{
    let mut fields: Vec<(String, Json)> = Vec::new();
    fields.push(("type".to_owned(), Json::text(d.entity_type.entity_type())));
    let path = join_dotted(&d.path);
    fields.push(("path".to_owned(), Json::Str(path)));
    fields.push(("score".to_owned(), Json::Number(JsonNumber::Real(score_text(d.score)))));
    proof {
        lemma_object_view(fields);
        assert(texts_view(d.path@) =~= Seq::new(d.path@.len(), |i: int| d.path@[i]@));
        assert(object_fields(fields@) =~= detection_json(d@)->Object_0);
    }
    Json::Object(fields)
}

fn details_to_json(ds: &Vec<PiiDetection>) -> (res: Json)
    ensures
        res@ == details_json(detections_view(ds@)),
{
    let mut items: Vec<Json> = Vec::new();
    let mut i: usize = 0;
    while i < ds.len()
        invariant
            i <= ds.len(),
            items@.len() == i,
            forall|k: int| 0 <= k < i ==> (#[trigger] items@[k])@ == detection_json(ds@[k]@),
        decreases ds.len() - i,
    {
        items.push(detection_to_json(&ds[i]));
        i += 1;
    }
    let mut fields: Vec<(String, Json)> = Vec::new();
    proof {
        lemma_array_view(items);
        let dv = detections_view(ds@);
        assert(array_values(items@) =~= Seq::new(dv.len(), |i: int| detection_json(dv[i])));
    }
    fields.push(("detections".to_owned(), Json::Array(items)));
    proof {
        lemma_object_view(fields);
        assert(object_fields(fields@) =~= details_json(detections_view(ds@))->Object_0);
    }
    Json::Object(fields)
}

impl PiiGuard {
    /// The payload with what is detected in its texts masked.
    pub fn mask_json_value(&self, value: &Json) -> (res: Json)
        ensures
            res@ == masked_value(self.detect(), self.min_score(), value@),
        decreases value,
    {
        match value {
            Json::Str(s) => {
                let results = self.scan_text(s.as_str());
                Json::Str(Self::mask_text(s.as_str(), &results))
            },
            Json::Array(items) => {
                let mut out: Vec<Json> = Vec::new();
                let mut i: usize = 0;
                proof {
                    lemma_array_view(*items);
                }
                while i < items.len()
                    invariant
                        i <= items.len(),
                        out@.len() == i,
                        forall|k: int|
                            0 <= k < i ==> (#[trigger] out@[k])@ == masked_value(
                                self.detect(),
                                self.min_score(),
                                items@[k]@,
                            ),
                    decreases items.len() - i,
                {
                    proof {
                        assert(decreases_to!(items => items[i as int]));
                    }
                    let m = self.mask_json_value(&items[i]);
                    out.push(m);
                    i += 1;
                }
                proof {
                    lemma_array_view(out);
                    assert(array_values(out@) =~= masked_value(
                        self.detect(),
                        self.min_score(),
                        value@,
                    )->Array_0);
                }
                Json::Array(out)
            },
            Json::Object(fields) => {
                let mut out: Vec<(String, Json)> = Vec::new();
                let mut i: usize = 0;
                proof {
                    lemma_object_view(*fields);
                }
                while i < fields.len()
                    invariant
                        i <= fields.len(),
                        out@.len() == i,
                        forall|k: int|
                            0 <= k < i ==> (#[trigger] out@[k]).0@ == fields@[k].0@ && out@[k].1@
                                == masked_value(self.detect(), self.min_score(), fields@[k].1@),
                    decreases fields.len() - i,
                {
                    proof {
                        assert(decreases_to!(fields => fields[i as int]));
                    }
                    let m = self.mask_json_value(&fields[i].1);
                    out.push((fields[i].0.clone(), m));
                    i += 1;
                }
                proof {
                    lemma_object_view(out);
                    assert(object_fields(out@) =~= masked_value(
                        self.detect(),
                        self.min_score(),
                        value@,
                    )->Object_0);
                }
                Json::Object(out)
            },
            Json::Null => Json::Null,
            Json::Bool(b) => Json::Bool(*b),
            Json::Number(n) => Json::Number(n.duplicate()),
        }
    }

    /// Appends to `results` the detections in `value`, which stands at `path`.
    pub fn collect_detections_recursive(
        &self,
        value: &Json,
        path: &Vec<String>,
        results: &mut Vec<PiiDetection>,
    )
        ensures
            detections_view(final(results)@) == detections_view(old(results)@) + collected(
                self.detect(),
                self.min_score(),
                value@,
                texts_view(path@),
            ),
        decreases value,
    {
        let ghost base = detections_view(results@);
        let ghost pv = texts_view(path@);
        match value {
            Json::Str(s) => {
                let found = self.scan_text(s.as_str());
                let mut i: usize = 0;
                let ghost all = hits(self.detect(), self.min_score(), s@, pv);
                proof {
                    assert(detections_view(results@) =~= base + all.take(0));
                }
                while i < found.len()
                    invariant
                        i <= found.len(),
                        all == hits(self.detect(), self.min_score(), s@, pv),
                        all.len() == found@.len(),
                        found@ == detections(self.detect(), self.min_score(), s@),
                        pv == texts_view(path@),
                        detections_view(results@) == base + all.take(i as int),
                    decreases found.len() - i,
                {
                    let p = clone_texts(path);
                    proof {
                        assert(texts_view(p@) =~= pv);
                    }
                    let ghost before = detections_view(results@);
                    results.push(
                        PiiDetection {
                            path: p,
                            entity_type: found[i].entity_type,
                            score: found[i].score,
                        },
                    );
                    proof {
                        assert(detections_view(results@) =~= before.push(all[i as int]));
                        assert(all.take(i + 1) =~= all.take(i as int).push(all[i as int]));
                        assert(detections_view(results@) =~= base + all.take(i + 1));
                    }
                    i += 1;
                }
                proof {
                    assert(all.take(all.len() as int) =~= all);
                }
            },
            Json::Array(items) => {
                proof {
                    lemma_array_view(*items);
                }
                let ghost iv = array_values(items@);
                let mut i: usize = 0;
                proof {
                    assert(detections_view(results@) =~= base + Seq::<DetectionView>::empty());
                }
                while i < items.len()
                    invariant
                        i <= items.len(),
                        iv == array_values(items@),
                        pv == texts_view(path@),
                        detections_view(results@) == base + collected_items(
                            self.detect(),
                            self.min_score(),
                            iv,
                            pv,
                            i as nat,
                        ),
                    decreases items.len() - i,
                {
                    proof {
                        assert(decreases_to!(items => items[i as int]));
                    }
                    let mut p = clone_texts(path);
                    p.push(decimal_text(i as u64));
                    proof {
                        assert(texts_view(p@) =~= pv.push(decimal(i as nat)));
                        assert(iv[i as int] == items@[i as int]@);
                    }
                    let ghost before = detections_view(results@);
                    self.collect_detections_recursive(&items[i], &p, results);
                    proof {
                        let step = collected(
                            self.detect(),
                            self.min_score(),
                            iv[i as int],
                            pv.push(decimal(i as nat)),
                        );
                        let prev = collected_items(
                            self.detect(),
                            self.min_score(),
                            iv,
                            pv,
                            i as nat,
                        );
                        assert(collected_items(
                            self.detect(),
                            self.min_score(),
                            iv,
                            pv,
                            (i + 1) as nat,
                        ) == prev + step);
                        assert(base + prev + step =~= base + (prev + step));
                    }
                    i += 1;
                }
            },
            Json::Object(fields) => {
                proof {
                    lemma_object_view(*fields);
                }
                let ghost fv = object_fields(fields@);
                let mut i: usize = 0;
                proof {
                    assert(detections_view(results@) =~= base + Seq::<DetectionView>::empty());
                }
                while i < fields.len()
                    invariant
                        i <= fields.len(),
                        fv == object_fields(fields@),
                        pv == texts_view(path@),
                        detections_view(results@) == base + collected_fields(
                            self.detect(),
                            self.min_score(),
                            fv,
                            pv,
                            i as nat,
                        ),
                    decreases fields.len() - i,
                {
                    proof {
                        assert(decreases_to!(fields => fields[i as int]));
                    }
                    let mut p = clone_texts(path);
                    p.push(fields[i].0.clone());
                    proof {
                        assert(texts_view(p@) =~= pv.push(fields@[i as int].0@));
                        assert(fv[i as int] == (fields@[i as int].0@, fields@[i as int].1@));
                    }
                    self.collect_detections_recursive(&fields[i].1, &p, results);
                    proof {
                        let step = collected(
                            self.detect(),
                            self.min_score(),
                            fv[i as int].1,
                            pv.push(fv[i as int].0),
                        );
                        let prev = collected_fields(
                            self.detect(),
                            self.min_score(),
                            fv,
                            pv,
                            i as nat,
                        );
                        assert(collected_fields(
                            self.detect(),
                            self.min_score(),
                            fv,
                            pv,
                            (i + 1) as nat,
                        ) == prev + step);
                        assert(base + prev + step =~= base + (prev + step));
                    }
                    i += 1;
                }
            },
            _ => {
                assert(detections_view(results@) =~= base + Seq::<DetectionView>::empty());
            },
        }
    }

    /// The detections in `value`, in document order.
    pub fn collect_detections(&self, value: &Json) -> (res: Vec<PiiDetection>)
        ensures
            detections_view(res@) == collected(
                self.detect(),
                self.min_score(),
                value@,
                Seq::empty(),
            ),
    {
        let mut detections: Vec<PiiDetection> = Vec::new();
        let path: Vec<String> = Vec::new();
        proof {
            assert(texts_view(path@) =~= Seq::<Seq<char>>::empty());
            assert(detections_view(detections@) =~= Seq::<DetectionView>::empty());
        }
        self.collect_detections_recursive(value, &path, &mut detections);
        proof {
            let c = collected(self.detect(), self.min_score(), value@, Seq::empty());
            assert(Seq::<DetectionView>::empty() + c =~= c);
        }
        detections
    }

    /// Decides on a JSON payload: allowed if nothing is detected in it; else
    /// rejected with the detections as details, or answered with the masked
    /// payload, as the configured action says.
    pub fn evaluate_json(&self, json: &Json, context: &GuardContext) -> (res: GuardResult)
        ensures
            result_view(res) == Ok::<DecisionView, crate::decision::ErrorView>(
                json_decision(
                    self.action(),
                    self.rejection_message(),
                    self.detect(),
                    self.min_score(),
                    json@,
                ),
            ),
    {
        let detections = self.collect_detections(json);
        if detections.len() == 0 {
            return Ok(GuardDecision::Allow);
        }
        match self.config.action {
            PiiAction::Reject => {
                let message = match &self.config.rejection_message {
                    Some(m) => m.clone(),
                    None => {
                        let mut m = "Request rejected: ".to_owned();
                        m.append(decimal_text(detections.len() as u64).as_str());
                        m.append(" PII item(s) detected");
                        m
                    },
                };
                let details = details_to_json(&detections);
                Ok(
                    GuardDecision::Deny(
                        DenyReason {
                            code: "pii_detected".to_owned(),
                            message,
                            details: Some(details),
                        },
                    ),
                )
            },
            PiiAction::Mask => {
                let masked = self.mask_json_value(json);
                Ok(GuardDecision::Modify(ModifyAction::Transform(masked)))
            },
        }
    }

    /// Decides on a list of tools by their descriptions.
    pub fn evaluate_tools_list(&self, tools: &Vec<Tool>, context: &GuardContext) -> (res:
        GuardResult)
        ensures
            result_view(res) == Ok::<DecisionView, crate::decision::ErrorView>(
                tools_decision(
                    self.action(),
                    self.detect(),
                    self.min_score(),
                    tools_view(tools@),
                ),
            ),
    {
        let ghost tv = tools_view(tools@);
        let mut i: usize = 0;
        while i < tools.len()
            invariant
                i <= tools.len(),
                tv == tools_view(tools@),
                self.config.action == PiiAction::Reject ==> forall|k: int|
                    0 <= k < i ==> !description_dirty(
                        self.detect(),
                        self.min_score(),
                        #[trigger] tv[k],
                    ),
            decreases tools.len() - i,
        {
            proof {
                assert(tv[i as int] == tools@[i as int]@);
            }
            match &tools[i].description {
                Some(desc) => {
                    let results = self.scan_text(desc.as_str());
                    if results.len() > 0 {
                        match self.config.action {
                            PiiAction::Reject => {
                                let mut message = "PII detected in tool '".to_owned();
                                message.append(tools[i].name.as_str());
                                message.append("' description");
                                proof {
                                    lemma_first_dirty_is(
                                        self.detect(),
                                        self.min_score(),
                                        tv,
                                        i as int,
                                    );
                                }
                                return Ok(
                                    GuardDecision::Deny(
                                        DenyReason {
                                            code: "pii_in_tool_description".to_owned(),
                                            message,
                                            details: None,
                                        },
                                    ),
                                );
                            },
                            PiiAction::Mask => {},
                        }
                    }
                },
                None => {},
            }
            i += 1;
        }
        proof {
            if self.config.action == PiiAction::Reject {
                lemma_first_dirty_is(self.detect(), self.min_score(), tv, tv.len() as int);
            }
        }
        Ok(GuardDecision::Allow)
    }

    /// Decides on the arguments of a tool invocation.
    pub fn evaluate_tool_invoke(&self, tool_name: &str, arguments: &Json, context: &GuardContext)
        -> (res: GuardResult)
        ensures
            result_view(res) == Ok::<DecisionView, crate::decision::ErrorView>(
                json_decision(
                    self.action(),
                    self.rejection_message(),
                    self.detect(),
                    self.min_score(),
                    arguments@,
                ),
            ),
    {
        self.evaluate_json(arguments, context)
    }

    /// Decides on a request.
    pub fn evaluate_request(&self, request: &Json, context: &GuardContext) -> (res: GuardResult)
        ensures
            result_view(res) == Ok::<DecisionView, crate::decision::ErrorView>(
                json_decision(
                    self.action(),
                    self.rejection_message(),
                    self.detect(),
                    self.min_score(),
                    request@,
                ),
            ),
    {
        self.evaluate_json(request, context)
    }

    /// Decides on a response.
    pub fn evaluate_response(&self, response: &Json, context: &GuardContext) -> (res: GuardResult)
        ensures
            result_view(res) == Ok::<DecisionView, crate::decision::ErrorView>(
                json_decision(
                    self.action(),
                    self.rejection_message(),
                    self.detect(),
                    self.min_score(),
                    response@,
                ),
            ),
    {
        self.evaluate_json(response, context)
    }
}

/// Whether nothing is detected in any text of a payload.
pub open spec fn clean(detect: Seq<PiiType>, min_score: u32, v: JsonValue) -> bool
    decreases v,
{
    match v {
        JsonValue::Str(s) => detections(detect, min_score, s).len() == 0,
        JsonValue::Array(items) => forall|i: int|
            0 <= i < items.len() ==> clean(detect, min_score, #[trigger] items[i]),
        JsonValue::Object(fields) => forall|i: int|
            0 <= i < fields.len() ==> clean(detect, min_score, (#[trigger] fields[i]).1),
        _ => true,
    }
}

/// Where no detection is collected from a payload, nothing is detected in
/// any of its texts.
pub proof fn lemma_nothing_collected(
    detect: Seq<PiiType>,
    min_score: u32,
    v: JsonValue,
    path: Seq<Seq<char>>,
)
    requires
        collected(detect, min_score, v, path).len() == 0,
    ensures
        clean(detect, min_score, v),
    decreases v, 0nat,
{
    match v {
        JsonValue::Array(items) => {
            lemma_nothing_collected_items(detect, min_score, items, path, items.len());
        },
        JsonValue::Object(fields) => {
            lemma_nothing_collected_fields(detect, min_score, fields, path, fields.len());
        },
        _ => {},
    }
}

proof fn lemma_nothing_collected_items(
    detect: Seq<PiiType>,
    min_score: u32,
    items: Seq<JsonValue>,
    path: Seq<Seq<char>>,
    n: nat,
)
    requires
        n <= items.len(),
        collected_items(detect, min_score, items, path, n).len() == 0,
    ensures
        forall|i: int| 0 <= i < n ==> clean(detect, min_score, #[trigger] items[i]),
    decreases items, n,
{
    if n > 0 {
        lemma_nothing_collected_items(detect, min_score, items, path, (n - 1) as nat);
        lemma_nothing_collected(
            detect,
            min_score,
            items[n - 1],
            path.push(decimal((n - 1) as nat)),
        );
    }
}

proof fn lemma_nothing_collected_fields(
    detect: Seq<PiiType>,
    min_score: u32,
    fields: Seq<(Seq<char>, JsonValue)>,
    path: Seq<Seq<char>>,
    n: nat,
)
    requires
        n <= fields.len(),
        collected_fields(detect, min_score, fields, path, n).len() == 0,
    ensures
        forall|i: int| 0 <= i < n ==> clean(detect, min_score, (#[trigger] fields[i]).1),
    decreases fields, n,
{
    if n > 0 {
        lemma_nothing_collected_fields(detect, min_score, fields, path, (n - 1) as nat);
        lemma_nothing_collected(detect, min_score, fields[n - 1].1, path.push(fields[n - 1].0));
    }
}

/// Masking leaves a payload as it is where nothing is detected in it.
pub proof fn lemma_clean_unchanged(detect: Seq<PiiType>, min_score: u32, v: JsonValue)
    requires
        clean(detect, min_score, v),
    ensures
        masked_value(detect, min_score, v) == v,
    decreases v,
{
    match v {
        JsonValue::Str(s) => {
            let d = detections(detect, min_score, s);
            assert(d =~= Seq::<RecognizerResult>::empty());
            vstd::utf8::encode_utf8_decode_utf8(s);
        },
        JsonValue::Array(items) => {
            let m = masked_value(detect, min_score, v);
            assert forall|i: int| 0 <= i < items.len() implies m->Array_0[i] == items[i] by {
                assert(clean(detect, min_score, items[i]));
                lemma_clean_unchanged(detect, min_score, items[i]);
            }
            assert(m->Array_0 =~= items);
        },
        JsonValue::Object(fields) => {
            let m = masked_value(detect, min_score, v);
            assert forall|i: int| 0 <= i < fields.len() implies m->Object_0[i] == fields[i] by {
                assert(clean(detect, min_score, fields[i].1));
                lemma_clean_unchanged(detect, min_score, fields[i].1);
            }
            assert(m->Object_0 =~= fields);
        },
        _ => {},
    }
}

/// Masking is idempotent on every payload whose masked form the guard
/// allows: where nothing is detected in the masked payload, masking it
/// again gives the same payload.
pub proof fn law_masking_idempotent(detect: Seq<PiiType>, min_score: u32, v: JsonValue)
    requires
        collected(detect, min_score, masked_value(detect, min_score, v), Seq::empty()).len() == 0,
    ensures
        masked_value(detect, min_score, masked_value(detect, min_score, v)) == masked_value(
            detect,
            min_score,
            v,
        ),
{
    let once = masked_value(detect, min_score, v);
    lemma_nothing_collected(detect, min_score, once, Seq::empty());
    lemma_clean_unchanged(detect, min_score, once);
}

} // verus!
