//! The decisions of an analysis run around its measurements: the input check,
//! the cleaned and capped text with its alerts, the seeds of each event map and
//! null model, and the cross-encoding alert.
use vstd::prelude::*;

use crate::encode::{preprocess_text, preprocessed};
use crate::nulls::{null_kind_ordinal, BoolNullKind};
use crate::text::{chars_of, decimal, owned, string_from_chars, sub_chars, trim_str, usize_decimal};
use crate::types::{
    alert_view, encoding_ordinal, Alert, AlertView, AnalyseOptions, EncodingKind, RrlangError,
};

verus! {

/// A run needs an input path that is not blank.
pub fn require_input_path(options: &AnalyseOptions) -> (r: Result<(), RrlangError>)
    ensures
        crate::text::trimmed(options.input_path@).len() == 0 <==> r is Err,
        r matches Err(e) ==> (e matches RrlangError::Message(m) && m@ == "No input path supplied."@),
{
    let t = trim_str(options.input_path.as_str());
    if t.len() == 0 {
        Err(RrlangError::Message(owned("No input path supplied.")))
    } else {
        Ok(())
    }
}

/// The cleaned text cut to at most `max` characters when a cap is set.
pub open spec fn capped(s: Seq<char>, max: Option<usize>) -> Seq<char> {
    match max {
        Some(m) => if s.len() > m {
            s.take(m as int)
        } else {
            s
        },
        None => s,
    }
}

/// The alert that the cleaned text was cut to `max` of its `len` characters.
pub open spec fn truncation_alert(max: nat, len: nat) -> AlertView {
    alert_view(
        "INPUT_TRUNCATED"@,
        "warning"@,
        0,
        "Cleaned input was capped at "@ + decimal(max)
            + " characters for this run; original cleaned length was "@ + decimal(len)
            + " characters."@,
    )
}

/// The alert on an empty input file.
pub open spec fn empty_input_alert() -> AlertView {
    alert_view(
        "EMPTY_INPUT"@,
        "error"@,
        0,
        "Input file is empty; metric output is not meaningful."@,
    )
}

/// The alert on a short cleaned text.
pub open spec fn short_corpus_alert() -> AlertView {
    alert_view(
        "SHORT_CORPUS"@,
        "warning"@,
        0,
        "Cleaned input has fewer than 128 characters; this run is exploratory only."@,
    )
}

/// The global alerts about the input: the cap, an empty file, a short text.
pub open spec fn input_alerts(raw: Seq<char>, o: AnalyseOptions) -> Seq<AlertView> {
    let cleaned = preprocessed(raw, o);
    let a = match o.max_chars {
        Some(m) => if cleaned.len() > m {
            seq![truncation_alert(m as nat, cleaned.len())]
        } else {
            Seq::empty()
        },
        None => Seq::empty(),
    };
    let b = if raw.len() == 0 {
        a.push(empty_input_alert())
    } else {
        a
    };
    if capped(cleaned, o.max_chars).len() < 128 {
        b.push(short_corpus_alert())
    } else {
        b
    }
}

/// The cleaned text of `raw_text` under `options`, cut to `max_chars`
/// characters when a cap is set, with the global alerts about the input.
pub fn prepare_cleaned_text(raw_text: &str, options: &AnalyseOptions) -> (r: (String, Vec<Alert>))
    ensures
        r.0@ == capped(preprocessed(raw_text@, *options), options.max_chars),
        r.1.deep_view() == input_alerts(raw_text@, *options),
{
    let cleaned = preprocess_text(raw_text, options);
    let mut chars = chars_of(cleaned.as_str());
    let mut alerts: Vec<Alert> = Vec::new();
    match options.max_chars {
        Some(max_chars) => {
            let cleaned_chars = chars.len();
            if cleaned_chars > max_chars {
                chars = sub_chars(&chars, 0, max_chars);
                let mut m = owned("Cleaned input was capped at ");
                let a = usize_decimal(max_chars);
                m.append(a.as_str());
                m.append(" characters for this run; original cleaned length was ");
                let b = usize_decimal(cleaned_chars);
                m.append(b.as_str());
                m.append(" characters.");
                alerts.push(Alert::new("INPUT_TRUNCATED", "warning", 0, m));
            }
        },
        None => {},
    }
    if raw_text.is_empty() {
        alerts.push(Alert::new("EMPTY_INPUT", "error", 0, owned("Input file is empty; metric output is not meaningful.")));
    }
    if chars.len() < 128 {
        alerts.push(Alert::new("SHORT_CORPUS", "warning", 0, owned("Cleaned input has fewer than 128 characters; this run is exploratory only.")));
    }
    assert(alerts.deep_view() =~= input_alerts(raw_text@, *options));
    (string_from_chars(&chars), alerts)
}

/// The seed of one event map: the run seed mixed with the encoding, its place
/// in the run and the event map's place in the encoding.
pub open spec fn event_seed_of(seed: u64, kind: EncodingKind, encoding_index: u64, event_index: u64) -> u64 {
    seed ^ (((encoding_ordinal(kind) + 1) as u64) << 16u64) ^ (((encoding_index + 1) as u64)
        << 32u64) ^ (((event_index + 1) as u64) << 48u64)
}

/// The seed for the event map at `event_index` of the encoding `kind` at
/// `encoding_index` of the run.
pub fn event_seed(seed: u64, kind: EncodingKind, encoding_index: usize, event_index: usize) -> (r: u64)
    requires
        encoding_index < usize::MAX,
        event_index < usize::MAX,
    ensures
        r == event_seed_of(seed, kind, encoding_index as u64, event_index as u64),
{
    let k = kind.ordinal() + 1;
    let e = encoding_index as u64 + 1;
    let v = event_index as u64 + 1;
    seed ^ (k << 16u64) ^ (e << 32u64) ^ (v << 48u64)
}

/// The generator seed for one null model of an event map.
pub open spec fn null_seed_of(seed: u64, kind: BoolNullKind) -> u64 {
    seed ^ (((null_kind_ordinal(kind) + 1) as u64) << 8u64)
}

/// The generator seed for the null model `kind` of the event map seeded `seed`.
pub fn null_seed(seed: u64, kind: BoolNullKind) -> (r: u64)
    ensures
        r == null_seed_of(seed, kind),
{
    let k = kind.ordinal() + 1;
    seed ^ (k << 8u64)
}

/// The raw diagnostic layers.
pub open spec fn is_raw_layer(kind: EncodingKind) -> bool {
    kind == EncodingKind::Utf8Bits || kind == EncodingKind::BitText
}

/// Some strong deviation lies in a raw layer and none in a linguistic one.
pub open spec fn raw_only_effect(deviations: Seq<(EncodingKind, bool)>) -> bool {
    &&& exists|i: int| 0 <= i < deviations.len() && (#[trigger] deviations[i]).1 && is_raw_layer(deviations[i].0)
    &&& !exists|i: int| 0 <= i < deviations.len() && (#[trigger] deviations[i]).1 && !is_raw_layer(deviations[i].0)
}

/// The alert that strong deviations appear only in raw layers.
pub open spec fn raw_only_alert() -> AlertView {
    alert_view(
        "RAW_ONLY_EFFECT"@,
        "warning"@,
        0,
        "Strong deviations were found in raw/bit diagnostic encodings but not in the enabled linguistic encodings. Treat as encoding-level unless replicated elsewhere."@,
    )
}

/// Adds the raw-only alert when every strong deviation lies in a raw layer.
/// Each entry of `deviations` is one comparison: its encoding and whether it
/// deviated strongly.
pub fn add_cross_encoding_alerts(global_alerts: &mut Vec<Alert>, deviations: &Vec<(EncodingKind, bool)>)
    ensures
        final(global_alerts).deep_view() == (if raw_only_effect(deviations@) {
            old(global_alerts).deep_view().push(raw_only_alert())
        } else {
            old(global_alerts).deep_view()
        }),
{
    let mut raw_has_strong_deviation = false;
    let mut linguistic_has_strong_deviation = false;
    let mut i: usize = 0;
    while i < deviations.len()
        invariant
            i <= deviations.len(),
            raw_has_strong_deviation == exists|j: int|
                0 <= j < i && (#[trigger] deviations@[j]).1 && is_raw_layer(deviations@[j].0),
            linguistic_has_strong_deviation == exists|j: int|
                0 <= j < i && (#[trigger] deviations@[j]).1 && !is_raw_layer(deviations@[j].0),
        decreases deviations.len() - i,
    {
        let (kind, strong) = deviations[i];
        if strong {
            if kind == EncodingKind::Utf8Bits || kind == EncodingKind::BitText {
                raw_has_strong_deviation = true;
            } else {
                linguistic_has_strong_deviation = true;
            }
        }
        i = i + 1;
    }
    if raw_has_strong_deviation && !linguistic_has_strong_deviation {
        global_alerts.push(Alert::new("RAW_ONLY_EFFECT", "warning", 0, owned("Strong deviations were found in raw/bit diagnostic encodings but not in the enabled linguistic encodings. Treat as encoding-level unless replicated elsewhere.")));
    }
}

/// Both bit-level layers, UTF-8 bits and literal bit text, count as raw: the
/// raw-only warning is added exactly when some strong deviation comes from
/// `Utf8Bits` or `BitText` and every strong deviation comes from one of them,
/// and it is the `RAW_ONLY_EFFECT` warning at interpretation level 0.
pub proof fn lemma_raw_only_effect_rule(deviations: Seq<(EncodingKind, bool)>)
    ensures
        raw_only_effect(deviations) <==> (exists|i: int|
            0 <= i < deviations.len() && (#[trigger] deviations[i]).1 && (deviations[i].0
                == EncodingKind::Utf8Bits || deviations[i].0 == EncodingKind::BitText)) && (forall|
            i: int,
        |
            0 <= i < deviations.len() && (#[trigger] deviations[i]).1 ==> (deviations[i].0
                == EncodingKind::Utf8Bits || deviations[i].0 == EncodingKind::BitText)),
        raw_only_alert().code == "RAW_ONLY_EFFECT"@,
        raw_only_alert().severity == "warning"@,
        raw_only_alert().interpretation_level == 0,
{
}

} // verus!
