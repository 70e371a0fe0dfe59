use rrlang_core::encode::{char_class, is_basic_vowel, preprocess_text};
use rrlang_core::text::{
    chars_of, eq_ignore_ascii_case, is_alphanumeric, is_ascii_alphanumeric, is_ascii_digit,
    is_ascii_punctuation, is_control, is_whitespace, parse_u64, parse_usize, to_ascii_lower,
    trim_str, u64_decimal, usize_decimal,
};
use rrlang_core::types::{
    Alert, AnalyseOptions, CasePolicy, EncodingKind, EventMap, ExperimentMetadata, HyphenPolicy,
    PunctuationPolicy, RrlangError, WhitespacePolicy,
};

fn all_chars() -> impl Iterator<Item = char> {
    (0u32..=0x10FFFF).filter_map(char::from_u32)
}

#[test]
fn character_classes_agree_with_std() {
    for c in all_chars() {
        assert_eq!(is_whitespace(c), c.is_whitespace(), "whitespace {:?}", c);
        assert_eq!(is_control(c), c.is_control(), "control {:?}", c);
        assert_eq!(is_ascii_punctuation(c), c.is_ascii_punctuation(), "punct {:?}", c);
        assert_eq!(is_ascii_digit(c), c.is_ascii_digit(), "digit {:?}", c);
        assert_eq!(is_ascii_alphanumeric(c), c.is_ascii_alphanumeric(), "alnum {:?}", c);
        assert_eq!(to_ascii_lower(c), c.to_ascii_lowercase(), "lower {:?}", c);
        assert_eq!(is_alphanumeric(c), c.is_alphanumeric(), "alphanumeric {:?}", c);
        let class = char_class(c, HyphenPolicy::Punctuation);
        assert_eq!(
            class == "vowel" || class == "consonant",
            is_basic_vowel(c) || c.is_alphabetic(),
            "alphabetic {:?}",
            c
        );
    }
}

#[test]
fn lowercasing_follows_std() {
    let mut o = AnalyseOptions::default();
    o.whitespace_policy = WhitespacePolicy::Preserve;
    for s in ["Hello World", "ÀÉÎ ÕÜ", "İstanbul", "ΣΟΦΙΑ ΟΔΟΣ", "ABC_def 123", ""] {
        assert_eq!(preprocess_text(s, &o), s.to_lowercase());
    }
    assert_eq!(preprocess_text("Mesu UDHR", &o), "mesu udhr");
}

#[test]
fn trimming_follows_std() {
    for s in ["  a b  ", "\t\n x\u{3000}", "", "   ", "none", "\u{85}y\u{2029}"] {
        let expected: Vec<char> = s.trim().chars().collect();
        assert_eq!(trim_str(s), expected);
    }
}

#[test]
fn decimal_numerals() {
    assert_eq!(u64_decimal(0), "0");
    assert_eq!(u64_decimal(18427), "18427");
    assert_eq!(u64_decimal(u64::MAX), u64::MAX.to_string());
    assert_eq!(usize_decimal(25000), "25000");
}

#[test]
fn unsigned_parsing_follows_str_parse() {
    let samples = [
        "0",
        "42",
        "+7",
        "",
        "+",
        "-1",
        " 5",
        "5 ",
        "18446744073709551615",
        "18446744073709551616",
        "00012",
        "1_000",
        "１２",
    ];
    for s in samples {
        let v = chars_of(s);
        assert_eq!(parse_u64(&v), s.parse::<u64>().ok(), "u64 {:?}", s);
        assert_eq!(parse_usize(&v), s.parse::<usize>().ok(), "usize {:?}", s);
    }
}

#[test]
fn ascii_case_insensitive_comparison() {
    assert!(eq_ignore_ascii_case(&chars_of("NoNe"), "none"));
    assert!(!eq_ignore_ascii_case(&chars_of("nonE "), "none"));
    assert!(!eq_ignore_ascii_case(&chars_of("ÑONE"), "ñone"));
}

#[test]
fn encoding_names_and_aliases() {
    let all = [
        EncodingKind::Utf8Bits,
        EncodingKind::BitText,
        EncodingKind::Grapheme,
        EncodingKind::GraphemeClass,
        EncodingKind::WordBoundary,
        EncodingKind::FrequencyClass,
    ];
    for kind in all {
        assert_eq!(EncodingKind::from_name(kind.as_str()), Some(kind));
        assert_eq!(EncodingKind::from_name(&kind.as_str().to_uppercase()), Some(kind));
    }
    assert_eq!(EncodingKind::from_name(" RAW "), Some(EncodingKind::Utf8Bits));
    assert_eq!(EncodingKind::from_name("literal-bits"), Some(EncodingKind::BitText));
    assert_eq!(EncodingKind::from_name("Chars"), Some(EncodingKind::Grapheme));
    assert_eq!(EncodingKind::from_name("grapheme-class"), Some(EncodingKind::GraphemeClass));
    assert_eq!(EncodingKind::from_name("word-boundaries"), Some(EncodingKind::WordBoundary));
    assert_eq!(EncodingKind::from_name("token_frequency"), Some(EncodingKind::FrequencyClass));
    assert_eq!(EncodingKind::from_name("phoneme"), None);
    assert_eq!(EncodingKind::from_name(""), None);
}

#[test]
fn policy_names_and_aliases() {
    for p in [CasePolicy::Preserve, CasePolicy::Lowercase] {
        assert_eq!(CasePolicy::from_name(p.as_str()), Some(p));
    }
    for p in [PunctuationPolicy::Preserve, PunctuationPolicy::Remove] {
        assert_eq!(PunctuationPolicy::from_name(p.as_str()), Some(p));
    }
    for p in [
        HyphenPolicy::Punctuation,
        HyphenPolicy::MorphemeBoundary,
        HyphenPolicy::WordInternal,
        HyphenPolicy::Remove,
    ] {
        assert_eq!(HyphenPolicy::from_name(p.as_str()), Some(p));
    }
    for p in [WhitespacePolicy::Preserve, WhitespacePolicy::Normalise] {
        assert_eq!(WhitespacePolicy::from_name(p.as_str()), Some(p));
    }
    assert_eq!(CasePolicy::from_name(" Case_Fold "), Some(CasePolicy::Lowercase));
    assert_eq!(CasePolicy::from_name("case-fold"), None);
    assert_eq!(PunctuationPolicy::from_name("STRIP"), Some(PunctuationPolicy::Remove));
    assert_eq!(HyphenPolicy::from_name("morpheme-boundary"), Some(HyphenPolicy::MorphemeBoundary));
    assert_eq!(HyphenPolicy::from_name("keep"), Some(HyphenPolicy::WordInternal));
    assert_eq!(HyphenPolicy::from_name("hyphen-removed"), Some(HyphenPolicy::Remove));
    assert_eq!(WhitespacePolicy::from_name("normalize"), Some(WhitespacePolicy::Normalise));
    assert_eq!(WhitespacePolicy::from_name("squash"), None);
    assert_eq!(CasePolicy::Lowercase.as_str(), "lowercase");
    assert_eq!(HyphenPolicy::MorphemeBoundary.as_str(), "morpheme_boundary");
    assert_eq!(WhitespacePolicy::Normalise.as_str(), "normalise");
    assert_eq!(EncodingKind::FrequencyClass.as_str(), "frequency_class");
}

#[test]
fn default_options_are_the_documented_ones() {
    let o = AnalyseOptions::default();
    assert_eq!(o.input_path, "");
    assert_eq!(o.output_json.as_deref(), Some("rrlang_report.json"));
    assert_eq!(o.output_text.as_deref(), Some("rrlang_report.txt"));
    assert_eq!(o.language, "unknown");
    assert_eq!(o.null_samples, 100);
    assert_eq!(o.seed, 18427);
    assert_eq!(o.max_chars, None);
    assert_eq!(
        o.encodings,
        vec![
            EncodingKind::Utf8Bits,
            EncodingKind::Grapheme,
            EncodingKind::GraphemeClass,
            EncodingKind::WordBoundary,
            EncodingKind::FrequencyClass,
        ]
    );
    assert_eq!(o.case_policy, CasePolicy::Lowercase);
    assert_eq!(o.punctuation_policy, PunctuationPolicy::Preserve);
    assert_eq!(o.hyphen_policy, HyphenPolicy::Punctuation);
    assert_eq!(o.whitespace_policy, WhitespacePolicy::Normalise);
}

#[test]
fn alerts_and_event_maps_keep_their_parts() {
    let a = Alert::new("CODE", "warning", 2, "text".to_string());
    assert_eq!(a.code, "CODE");
    assert_eq!(a.severity, "warning");
    assert_eq!(a.interpretation_level, 2);
    assert_eq!(a.message, "text");
    let m = EventMap::new("vowel", "desc".to_string(), vec![true, false]);
    assert_eq!(m.name, "vowel");
    assert_eq!(m.description, "desc");
    assert_eq!(m.values, vec![true, false]);
}

#[test]
fn metadata_records_the_options() {
    let mut o = AnalyseOptions::default();
    o.input_path = "in.txt".to_string();
    o.language = "English".to_string();
    o.max_chars = Some(500);
    o.hyphen_policy = HyphenPolicy::MorphemeBoundary;
    let m = ExperimentMetadata::from_options_at(&o, 1234);
    assert_eq!(m.experiment_name, o.experiment_name);
    assert_eq!(m.input_path, "in.txt");
    assert_eq!(m.language, "English");
    assert_eq!(m.unix_timestamp, 1234);
    assert_eq!(m.null_samples, 100);
    assert_eq!(m.seed, 18427);
    assert_eq!(m.case_policy, "lowercase");
    assert_eq!(m.punctuation_policy, "preserve");
    assert_eq!(m.hyphen_policy, "morpheme_boundary");
    assert_eq!(m.whitespace_policy, "normalise");
    assert_eq!(m.max_chars, Some(500));
    assert_eq!(m.tool_version, "0.2.0");
    assert_eq!(m.status, "exploratory");
    let now = ExperimentMetadata::from_options(&o);
    assert!(now.unix_timestamp > 1_600_000_000);
}

#[test]
fn errors_carry_their_message() {
    match RrlangError::message("bad".to_string()) {
        RrlangError::Message(m) => assert_eq!(m, "bad"),
        RrlangError::Io(_) => panic!("expected a message"),
    }
    let io = std::io::Error::new(std::io::ErrorKind::NotFound, "missing");
    assert!(matches!(RrlangError::from(io), RrlangError::Io(_)));
}

#[test]
fn names_read_the_same_once_normalised() {
    for name in [" Word-Boundary ", "RAW", "bits", "grapheme-class", "\tFreq\n"] {
        let normal = name.trim().to_ascii_lowercase().replace('-', "_");
        assert_eq!(EncodingKind::from_name(name), EncodingKind::from_name(&normal));
        assert_eq!(HyphenPolicy::from_name(name), HyphenPolicy::from_name(&normal));
    }
    assert_eq!(EncodingKind::from_name(" Word-Boundary "), Some(EncodingKind::WordBoundary));
    assert_eq!(EncodingKind::from_name("bits"), None);
}

#[test]
fn preprocessing_twice_changes_nothing() {
    let texts = ["  Hello,   WORLD\u{2014}test  ", "a - b -- c", "\u{2013}x\u{2010}y!", " \t "];
    for case in [CasePolicy::Preserve, CasePolicy::Lowercase] {
        for punct in [PunctuationPolicy::Preserve, PunctuationPolicy::Remove] {
            for hyphen in [
                HyphenPolicy::Punctuation,
                HyphenPolicy::MorphemeBoundary,
                HyphenPolicy::WordInternal,
                HyphenPolicy::Remove,
            ] {
                for ws in [WhitespacePolicy::Preserve, WhitespacePolicy::Normalise] {
                    let mut o = AnalyseOptions::default();
                    o.case_policy = case;
                    o.punctuation_policy = punct;
                    o.hyphen_policy = hyphen;
                    o.whitespace_policy = ws;
                    for t in texts {
                        let once = preprocess_text(t, &o);
                        assert_eq!(preprocess_text(&once, &o), once);
                    }
                }
            }
        }
    }
}
