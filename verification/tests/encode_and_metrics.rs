use rrlang_core::encode::{
    char_class, clean_cased_text, encode_text, frequency_class_labels, is_basic_vowel, is_hyphen, is_punctuation, preprocess_text,
    punctuation_under_policy, tokenize_words,
};
use rrlang_core::metrics::{
    build_event_alerts, event_count, event_gaps, event_positions, label_counts,
    low_null_sample_alert, modular_residue_counts, null_interpretation_level, prime_gap_counts,
    prime_index_counts, run_lengths, select_null_models, unique_label_count, value_counts,
    DeviationSignal,
};
use rrlang_core::nulls::BoolNullKind;
use rrlang_core::primes::{is_prime_number, prime_sieve};
use rrlang_core::types::{
    AnalyseOptions, CasePolicy, EncodingKind, EventMap, HyphenPolicy, PunctuationPolicy,
    WhitespacePolicy,
};

fn names(maps: &[EventMap]) -> Vec<String> {
    maps.iter().map(|m| m.name.clone()).collect()
}

#[test]
fn preprocessing_with_default_options() {
    let o = AnalyseOptions::default();
    assert_eq!(preprocess_text("  Hello,   WORLD\u{2014}test  ", &o), "hello, world-test");
    assert_eq!(preprocess_text("", &o), "");
    assert_eq!(preprocess_text(" \t\n ", &o), "");
}

#[test]
fn preprocessing_under_each_policy() {
    let mut o = AnalyseOptions::default();
    o.punctuation_policy = PunctuationPolicy::Remove;
    assert_eq!(preprocess_text("Hello, world-test!", &o), "hello world test");
    o.hyphen_policy = HyphenPolicy::MorphemeBoundary;
    assert_eq!(preprocess_text("Hello, world\u{2013}test!", &o), "hello world-test");
    o.hyphen_policy = HyphenPolicy::Remove;
    o.punctuation_policy = PunctuationPolicy::Preserve;
    assert_eq!(preprocess_text("world-test", &o), "worldtest");
    o.case_policy = CasePolicy::Preserve;
    o.whitespace_policy = WhitespacePolicy::Preserve;
    assert_eq!(preprocess_text(" A  b\n", &o), " A  b\n");
}

#[test]
fn normalised_text_has_single_inner_spaces() {
    let o = AnalyseOptions::default();
    let out = preprocess_text("a \t b\n\nc   ", &o);
    assert_eq!(out, "a b c");
    assert!(!out.contains("  "));
    assert!(!out.starts_with(' ') && !out.ends_with(' '));
}

#[test]
fn character_predicates() {
    for c in ['-', '\u{2010}', '\u{2011}', '\u{2012}', '\u{2013}', '\u{2014}'] {
        assert!(is_hyphen(c));
    }
    assert!(!is_hyphen('_'));
    assert!(is_punctuation('!'));
    assert!(is_punctuation('\u{2026}'));
    assert!(is_punctuation('\u{3002}'));
    assert!(!is_punctuation('a'));
    assert!(is_basic_vowel('\u{e6}'));
    assert!(is_basic_vowel('U'));
    assert!(!is_basic_vowel('y'));
    assert!(punctuation_under_policy('-', HyphenPolicy::Punctuation));
    assert!(!punctuation_under_policy('-', HyphenPolicy::WordInternal));
    assert!(punctuation_under_policy(',', HyphenPolicy::WordInternal));
}

#[test]
fn character_classes() {
    assert_eq!(char_class('\u{e4}', HyphenPolicy::Punctuation), "vowel");
    assert_eq!(char_class('\u{df}', HyphenPolicy::Punctuation), "consonant");
    assert_eq!(char_class('5', HyphenPolicy::Punctuation), "digit");
    assert_eq!(char_class('\n', HyphenPolicy::Punctuation), "whitespace");
    assert_eq!(char_class('\u{2013}', HyphenPolicy::MorphemeBoundary), "hyphen_boundary");
    assert_eq!(char_class('\u{2013}', HyphenPolicy::Punctuation), "punctuation");
    assert_eq!(char_class('-', HyphenPolicy::WordInternal), "other");
    assert_eq!(char_class('\u{a9}', HyphenPolicy::Punctuation), "other");
}

#[test]
fn tokenizer_splits_on_non_word_characters() {
    assert_eq!(
        tokenize_words("Well-known co_op, DOG!", HyphenPolicy::Punctuation),
        vec!["well", "known", "co_op", "dog"]
    );
    assert_eq!(
        tokenize_words("Well-known co_op, DOG!", HyphenPolicy::WordInternal),
        vec!["well-known", "co_op", "dog"]
    );
    assert!(tokenize_words("  ,,, ", HyphenPolicy::Punctuation).is_empty());
}

#[test]
fn utf8_bits_encoding() {
    let o = AnalyseOptions::default();
    let e = encode_text("A", EncodingKind::Utf8Bits, &o);
    assert_eq!(e.kind, EncodingKind::Utf8Bits);
    assert_eq!(e.labels, vec!["0", "1", "0", "0", "0", "0", "0", "1"]);
    assert_eq!(names(&e.event_maps), vec!["bit_one", "bit_transition"]);
    assert_eq!(e.event_maps[0].values, vec![false, true, false, false, false, false, false, true]);
    assert_eq!(e.event_maps[1].values, vec![false, true, true, false, false, false, false, true]);
    assert_eq!(e.event_maps[0].description, "Positions where the bitstream contains 1.");
    assert_eq!(e.notes, vec!["E0 raw UTF-8 bit analysis is diagnostic only. Raw-byte findings are not linguistic evidence without cross-encoding support."]);
    let wide = encode_text("\u{e9}", EncodingKind::Utf8Bits, &o);
    assert_eq!(wide.labels.len(), 16);
}

#[test]
fn bit_text_encoding() {
    let o = AnalyseOptions::default();
    let e = encode_text("01 x1", EncodingKind::BitText, &o);
    assert_eq!(e.labels, vec!["0", "1", "1"]);
    assert_eq!(e.event_maps[0].values, vec![false, true, true]);
    assert_eq!(e.event_maps[1].values, vec![false, true, false]);
    assert_eq!(e.notes.len(), 2);
    assert_eq!(e.notes[1], "Ignored 1 non-bit, non-whitespace characters while building the bit_text stream.");
    let none = encode_text("abc", EncodingKind::BitText, &o);
    assert!(none.labels.is_empty());
    assert_eq!(none.notes.len(), 3);
    assert_eq!(none.notes[2], "No literal 0/1 bits were found; bit_text metrics will be degenerate.");
}

#[test]
fn grapheme_encodings() {
    let o = AnalyseOptions::default();
    let e = encode_text("ab c", EncodingKind::Grapheme, &o);
    assert_eq!(e.labels, vec!["a", "b", " ", "c"]);
    assert_eq!(
        names(&e.event_maps),
        vec!["vowel", "consonant", "whitespace", "punctuation", "hyphen_boundary", "digit"]
    );
    assert_eq!(e.event_maps[0].values, vec![true, false, false, false]);
    assert_eq!(e.event_maps[1].values, vec![false, true, false, true]);
    assert_eq!(e.event_maps[2].values, vec![false, false, true, false]);
    assert_eq!(e.notes[1], "Hyphen policy for this run: punctuation.");

    let mut m = AnalyseOptions::default();
    m.hyphen_policy = HyphenPolicy::MorphemeBoundary;
    let c = encode_text("a-1 \u{e9}!", EncodingKind::GraphemeClass, &m);
    assert_eq!(c.labels, vec!["vowel", "hyphen_boundary", "digit", "whitespace", "vowel", "punctuation"]);
    assert_eq!(
        names(&c.event_maps),
        vec!["vowel", "consonant", "digit", "whitespace", "punctuation", "hyphen_boundary", "other"]
    );
    assert_eq!(c.event_maps[5].values, vec![false, true, false, false, false, false]);
    assert_eq!(c.event_maps[0].description, "Positions classified as vowel in the grapheme-class stream.");
    assert_eq!(c.notes, vec!["E2 maps Unicode scalar values into broad grapheme classes. Hyphen policy: morpheme_boundary."]);
}

#[test]
fn word_boundary_encoding() {
    let o = AnalyseOptions::default();
    let e = encode_text("ab c", EncodingKind::WordBoundary, &o);
    assert_eq!(e.labels, vec!["non_boundary", "non_boundary", "boundary", "non_boundary"]);
    assert_eq!(names(&e.event_maps), vec!["word_boundary"]);
    assert_eq!(e.event_maps[0].values, vec![false, false, true, false]);
}

#[test]
fn frequency_class_encoding() {
    let o = AnalyseOptions::default();
    let e = encode_text("the cat the dog the the the cat", EncodingKind::FrequencyClass, &o);
    assert_eq!(
        e.labels,
        vec![
            "high_frequency",
            "mid_frequency",
            "high_frequency",
            "hapax",
            "high_frequency",
            "high_frequency",
            "high_frequency",
            "mid_frequency"
        ]
    );
    assert_eq!(names(&e.event_maps), vec!["hapax", "mid_frequency", "high_frequency"]);
    assert_eq!(e.event_maps[0].values, vec![false, false, false, true, false, false, false, false]);
    assert_eq!(e.event_maps[0].description, "Token positions in frequency class hapax.");
}

#[test]
fn every_event_map_covers_every_label() {
    let o = AnalyseOptions::default();
    for kind in [
        EncodingKind::Utf8Bits,
        EncodingKind::BitText,
        EncodingKind::Grapheme,
        EncodingKind::GraphemeClass,
        EncodingKind::WordBoundary,
        EncodingKind::FrequencyClass,
    ] {
        let e = encode_text("Ab 01 c-d, \u{e9}t\u{e9} 7", kind, &o);
        for m in &e.event_maps {
            assert_eq!(m.values.len(), e.labels.len());
        }
    }
}

#[test]
fn event_positions_and_gaps() {
    let v = [true, false, true, false, false, true];
    assert_eq!(event_positions(&v), vec![1, 3, 6]);
    assert_eq!(event_count(&v), 3);
    assert_eq!(event_gaps(&v), vec![2, 3]);
    assert!(event_gaps(&[false, true]).is_empty());
    assert_eq!(run_lengths(&[true, true, false, true, false, false]), vec![2, 1, 1, 2]);
    assert!(run_lengths(&[]).is_empty());
}

#[test]
fn counting_helpers() {
    assert_eq!(value_counts(&[2, 3, 2, 2]), vec![3, 1]);
    let labels = vec!["a".to_string(), "b".to_string(), "a".to_string()];
    assert_eq!(label_counts(&labels), vec![2, 1]);
    assert_eq!(unique_label_count(&labels), 2);
    assert_eq!(unique_label_count(&Vec::new()), 0);
}

#[test]
fn prime_position_tallies() {
    let v = [true, false, true, false, false, true];
    let c = prime_index_counts(&v);
    assert_eq!((c.prime_true, c.prime_total, c.nonprime_true, c.nonprime_total), (1, 3, 1, 2));
    assert_eq!(prime_gap_counts(&v), (2, 2));
    assert_eq!(prime_gap_counts(&[true, true, false, false, false, true]), (0, 2));
    assert_eq!(modular_residue_counts(&v, 2), (2, 3));
    assert_eq!(modular_residue_counts(&v, 0), (0, 0));
    assert_eq!(modular_residue_counts(&[false, false], 3), (0, 0));
}

#[test]
fn primes_by_sieve_and_by_trial_division() {
    let sieve = prime_sieve(100);
    assert_eq!(sieve.len(), 101);
    let listed: Vec<usize> = (0..=100).filter(|i| sieve[*i]).collect();
    assert_eq!(
        listed,
        vec![2, 3, 5, 7, 11, 13, 17, 19, 23, 29, 31, 37, 41, 43, 47, 53, 59, 61, 67, 71, 73, 79, 83, 89, 97]
    );
    for i in 0..=100 {
        assert_eq!(is_prime_number(i), sieve[i]);
    }
    assert!(is_prime_number(7919));
    assert!(!is_prime_number(7917));
    assert_eq!(prime_sieve(0), vec![false]);
}

#[test]
fn null_model_selection() {
    let m = EventMap::new("vowel", String::new(), vec![]);
    let mut v = vec![false; 16];
    v[1] = true;
    v[5] = true;
    v[9] = true;
    assert_eq!(
        select_null_models(&m, &v, 3),
        vec![
            BoolNullKind::DensityShuffle,
            BoolNullKind::Markov1,
            BoolNullKind::Markov2,
            BoolNullKind::GapOrderShuffle
        ]
    );
    assert_eq!(select_null_models(&m, &v[..15], 3).len(), 3);
    assert_eq!(select_null_models(&m, &v, 14).len(), 3);
    assert_eq!(null_interpretation_level("markov_2"), 3);
    assert_eq!(null_interpretation_level("gap_order_shuffle"), 2);
    assert_eq!(null_interpretation_level("other"), 1);
}

#[test]
fn event_alert_rules() {
    let signal = DeviationSignal {
        name: "gap_entropy".to_string(),
        null_model: "markov_2".to_string(),
        strong: true,
        strongly_low: true,
        z_text: "-4.000".to_string(),
    };
    let alerts = build_event_alerts(EncodingKind::Utf8Bits, 10, 0, &vec![signal]);
    let codes: Vec<&str> = alerts.iter().map(|a| a.code.as_str()).collect();
    assert_eq!(
        codes,
        vec![
            "WINDOW_TOO_SMALL",
            "LOW_EVENT_COUNT",
            "DEGENERATE_EVENT_MAP",
            "STATISTICAL_DEVIATION",
            "RAW_LAYER_FINDING_NOT_LINGUISTIC",
            "PERIODICITY_OR_CLUSTERING_WARNING",
            "SURVIVES_MARKOV_2_NULL"
        ]
    );
    assert_eq!(alerts[3].interpretation_level, 3);
    assert_eq!(
        alerts[3].message,
        "Metric 'gap_entropy' deviates from 'markov_2' null with z=-4.000. This is a tripwire, not a conclusion."
    );
    let quiet = build_event_alerts(EncodingKind::Grapheme, 200, 50, &vec![]);
    assert!(quiet.is_empty());
    let weak = DeviationSignal {
        name: "run_entropy".to_string(),
        null_model: "density_shuffle".to_string(),
        strong: false,
        strongly_low: true,
        z_text: "-3.100".to_string(),
    };
    let r = build_event_alerts(EncodingKind::WordBoundary, 200, 200, &vec![weak]);
    let codes: Vec<&str> = r.iter().map(|a| a.code.as_str()).collect();
    assert_eq!(codes, vec!["DEGENERATE_EVENT_MAP", "OVER_REGULARITY_WARNING"]);
    assert_eq!(r[1].interpretation_level, 1);
}

#[test]
fn low_null_sample_warning() {
    let a = low_null_sample_alert(25).unwrap();
    assert_eq!(a.code, "LOW_NULL_SAMPLE_COUNT");
    assert_eq!(a.interpretation_level, 1);
    assert_eq!(a.message, "Only 25 null samples were used. Treat p-values and z-scores as exploratory.");
    assert!(low_null_sample_alert(100).is_none());
}

#[test]
fn frequency_labels_count_within_the_sample() {
    let tokens: Vec<String> = ["a", "b", "a", "c", "c", "c", "c", "c"]
        .iter()
        .map(|s| s.to_string())
        .collect();
    assert_eq!(
        frequency_class_labels(&tokens),
        vec![
            "mid_frequency",
            "hapax",
            "mid_frequency",
            "high_frequency",
            "high_frequency",
            "high_frequency",
            "high_frequency",
            "high_frequency"
        ]
    );
    assert!(frequency_class_labels(&Vec::new()).is_empty());
}

#[test]
fn cleaning_after_the_case_step() {
    let o = AnalyseOptions::default();
    assert_eq!(clean_cased_text("  Keep CASE\u{2013}here  ", &o), "Keep CASE-here");
    let mut p = AnalyseOptions::default();
    p.punctuation_policy = PunctuationPolicy::Remove;
    assert_eq!(clean_cased_text("A,b", &p), "A b");
}
