use rrlang_core::cli::{
    apply_cli_overrides, batch_after_run, batch_after_skip, batch_outcome, batch_should_skip,
    BatchTally, encoding_list_label, get_arg_value, has_flag, is_skipped_input_path,
    linguistic_encodings, parse_encoding_list, sanitize_output_name,
};
use rrlang_core::config::parse_config_text;
use rrlang_core::corpus::inspect_text;
use rrlang_core::pipeline::{
    add_cross_encoding_alerts, event_seed, null_seed, prepare_cleaned_text, require_input_path,
};
use rrlang_core::nulls::BoolNullKind;
use rrlang_core::report::{
    alerts_json, escape_json, event_text_heading, format_alert, json_pair_opt_usize,
    json_pair_str, json_pair_uint, report_text_heading,
};
use rrlang_core::types::{
    Alert, AnalyseOptions, ExperimentMetadata, CasePolicy, EncodingKind, HyphenPolicy, RrlangError, WhitespacePolicy,
};

fn args(items: &[&str]) -> Vec<String> {
    items.iter().map(|s| s.to_string()).collect()
}

fn message_of(e: RrlangError) -> String {
    match e {
        RrlangError::Message(m) => m,
        RrlangError::Io(err) => panic!("unexpected I/O error {err}"),
    }
}

#[test]
fn config_text_sets_the_options() {
    let text = "# run settings\n[analysis]\ninput_path = \"data/in.txt\"\nlanguage = 'English'\nnull_samples = 25\nseed = 7 # trailing comment\nmax_chars = none\njson = none\ncase_policy = preserve\nhyphen_policy = morpheme-boundary\nencodings = [\"grapheme\", \"word_boundary\",]\nunknown_key = 1\nno equals sign here\nname = a=b\n";
    let o = parse_config_text(text).unwrap();
    assert_eq!(o.input_path, "data/in.txt");
    assert_eq!(o.language, "English");
    assert_eq!(o.null_samples, 25);
    assert_eq!(o.seed, 7);
    assert_eq!(o.max_chars, None);
    assert_eq!(o.output_json, None);
    assert_eq!(o.output_text.as_deref(), Some("rrlang_report.txt"));
    assert_eq!(o.case_policy, CasePolicy::Preserve);
    assert_eq!(o.hyphen_policy, HyphenPolicy::MorphemeBoundary);
    assert_eq!(o.encodings, vec![EncodingKind::Grapheme, EncodingKind::WordBoundary]);
    assert_eq!(o.experiment_name, "a=b");
}

#[test]
fn empty_config_gives_the_defaults() {
    let o = parse_config_text("").unwrap();
    let d = AnalyseOptions::default();
    assert_eq!(o.input_path, d.input_path);
    assert_eq!(o.encodings, d.encodings);
    assert_eq!(o.null_samples, d.null_samples);
    let o = parse_config_text("encodings = []\r\nlanguage = French\r\nmax_characters = \"12\"\r\nwhitespace_policy = keep").unwrap();
    assert_eq!(o.encodings, d.encodings);
    assert_eq!(o.language, "French");
    assert_eq!(o.max_chars, Some(12));
    assert_eq!(o.whitespace_policy, WhitespacePolicy::Preserve);
}

#[test]
fn config_errors_name_the_value() {
    let cases = [
        ("null_samples = many", "Invalid null sample count in config: many"),
        ("samples = \"x\"", "Invalid null sample count in config: \"x\""),
        ("seed = -1", "Invalid seed in config: -1"),
        ("max_chars = 12x", "Invalid max_chars in config: 12x"),
        ("case_policy = 'shouty'", "Unknown case_policy: shouty"),
        ("punctuation_policy = drop", "Unknown punctuation_policy: drop"),
        ("hyphen_policy = sideways", "Unknown hyphen_policy: sideways"),
        ("whitespace_policy = squash", "Unknown whitespace_policy: squash"),
        ("encodings = [grapheme, phoneme]", "Unknown encoding in config: phoneme"),
    ];
    for (text, expected) in cases {
        let e = parse_config_text(text).err().expect(text);
        assert_eq!(message_of(e), expected);
    }
    let e = parse_config_text("seed = 1\nseed = x\nnull_samples = y").err().unwrap();
    assert_eq!(message_of(e), "Invalid seed in config: x");
}

#[test]
fn argument_lookup() {
    assert_eq!(get_arg_value(&args(&["--input"]), "--input"), None);
    assert_eq!(
        get_arg_value(&args(&["-i", "a", "--input", "b"]), "--input").as_deref(),
        Some("b")
    );
    assert_eq!(
        get_arg_value(&args(&["--input=a", "--input", "b"]), "--input").as_deref(),
        Some("a")
    );
    assert_eq!(get_arg_value(&args(&["--input="]), "--input").as_deref(), Some(""));
    assert_eq!(get_arg_value(&args(&["--inputs", "x"]), "--input"), None);
    assert!(has_flag(&args(&["a", "--skip-raw"]), "--skip-raw"));
    assert!(!has_flag(&args(&["--skip-raw=1"]), "--skip-raw"));
}

#[test]
fn command_line_overrides() {
    let mut o = AnalyseOptions::default();
    let a = args(&[
        "--input",
        "x.txt",
        "--language=German",
        "--nulls",
        "10",
        "--skip-raw",
        "--out",
        "NONE",
        "--case-policy",
        "preserve",
        "--max-chars",
        "0",
    ]);
    apply_cli_overrides(&a, &mut o).unwrap();
    assert_eq!(o.input_path, "x.txt");
    assert_eq!(o.language, "German");
    assert_eq!(o.null_samples, 10);
    assert_eq!(o.output_json, None);
    assert_eq!(o.case_policy, CasePolicy::Preserve);
    assert_eq!(o.max_chars, None);
    assert_eq!(
        o.encodings,
        vec![
            EncodingKind::Grapheme,
            EncodingKind::GraphemeClass,
            EncodingKind::WordBoundary,
            EncodingKind::FrequencyClass
        ]
    );
}

#[test]
fn fast_profile_is_overridable() {
    let mut o = AnalyseOptions::default();
    apply_cli_overrides(&args(&["--fast-profile", "--nulls", "50"]), &mut o).unwrap();
    assert_eq!(o.null_samples, 50);
    assert_eq!(o.max_chars, Some(25000));
    assert_eq!(o.encodings, linguistic_encodings());
    let mut p = AnalyseOptions::default();
    apply_cli_overrides(&args(&["--encodings", "bit_text, ,grapheme", "--seed=99"]), &mut p).unwrap();
    assert_eq!(p.encodings, vec![EncodingKind::BitText, EncodingKind::Grapheme]);
    assert_eq!(p.seed, 99);
}

#[test]
fn command_line_errors() {
    let cases: [(&[&str], &str); 6] = [
        (&["--nulls", "ten"], "Invalid --nulls value: ten"),
        (&["--seed", "1.5"], "Invalid --seed value: 1.5"),
        (&["--max-characters", "abc"], "Invalid --max-chars value: abc"),
        (&["--encoding", "grapheme,phonemes"], "Unknown encoding: phonemes"),
        (&["--hyphen-policy", "sideways"], "Unknown --hyphen-policy value: sideways"),
        (
            &["--encodings", "bit_text", "--skip-raw"],
            "No encodings enabled. Remove --skip-raw or provide --encodings.",
        ),
    ];
    for (a, expected) in cases {
        let mut o = AnalyseOptions::default();
        let e = apply_cli_overrides(&args(a), &mut o).err().expect(expected);
        assert_eq!(message_of(e), expected);
    }
    let mut o = AnalyseOptions::default();
    let _ = apply_cli_overrides(&args(&["--nulls", "7", "--max-chars", "abc", "--seed", "3"]), &mut o);
    assert_eq!(o.null_samples, 7);
    assert_eq!(o.seed, 3);
    assert_eq!(o.max_chars, None);
}

#[test]
fn encoding_lists() {
    assert_eq!(parse_encoding_list("").unwrap(), vec![]);
    assert_eq!(
        parse_encoding_list(" utf8 , class,,freq").unwrap(),
        vec![EncodingKind::Utf8Bits, EncodingKind::GraphemeClass, EncodingKind::FrequencyClass]
    );
    assert_eq!(
        message_of(parse_encoding_list("grapheme, nope ,zzz").err().unwrap()),
        "Unknown encoding: nope"
    );
    assert_eq!(
        encoding_list_label(&[EncodingKind::Grapheme, EncodingKind::WordBoundary]),
        "grapheme,word_boundary"
    );
    assert_eq!(encoding_list_label(&[]), "");
    assert_eq!(
        encoding_list_label(&linguistic_encodings()),
        "grapheme,grapheme_class,word_boundary,frequency_class"
    );
}

#[test]
fn output_names_and_skipped_inputs() {
    assert_eq!(sanitize_output_name("udhr/eng/Text (v2)"), "udhr_eng_Text_v2");
    assert_eq!(sanitize_output_name("///"), "rrlang_report");
    assert_eq!(sanitize_output_name("a__b"), "a__b");
    assert_eq!(sanitize_output_name("\u{e9}"), "rrlang_report");
    assert_eq!(sanitize_output_name("_x-y_"), "x-y");
    assert!(is_skipped_input_path("data/Source_Raw/x.txt"));
    assert!(is_skipped_input_path("C:\\data\\_cache\\a.txt"));
    assert!(is_skipped_input_path("x/abc_RAW.TXT"));
    assert!(!is_skipped_input_path("x/raw.txt"));
    assert!(!is_skipped_input_path("source_raw/x.txt"));
    assert!(!is_skipped_input_path(""));
}

#[test]
fn corpus_inspection() {
    let text = "Hello hello, world-wide_web!\nsecond line";
    let i = inspect_text("p.txt", text);
    assert_eq!(i.path, "p.txt");
    assert_eq!(i.byte_len, text.len());
    assert_eq!(i.char_len, text.chars().count());
    assert_eq!(i.line_count, 2);
    assert_eq!(i.word_like_count, 5);
    assert_eq!(i.unique_word_like_count, 4);
    assert_eq!(inspect_text("e", "a\n\nb\n").line_count, 3);
    assert_eq!(inspect_text("e", "").line_count, 0);
    assert_eq!(inspect_text("e", "\n").line_count, 1);
    assert_eq!(inspect_text("e", "\u{e9}t\u{e9}").byte_len, 5);
}

#[test]
fn run_preparation() {
    let mut o = AnalyseOptions::default();
    assert!(require_input_path(&o).is_err());
    o.input_path = "  ".to_string();
    assert_eq!(message_of(require_input_path(&o).err().unwrap()), "No input path supplied.");
    o.input_path = "x".to_string();
    assert!(require_input_path(&o).is_ok());

    o.max_chars = Some(5);
    let (cleaned, alerts) = prepare_cleaned_text("Hello   World", &o);
    assert_eq!(cleaned, "hello");
    let codes: Vec<&str> = alerts.iter().map(|a| a.code.as_str()).collect();
    assert_eq!(codes, vec!["INPUT_TRUNCATED", "SHORT_CORPUS"]);
    assert_eq!(
        alerts[0].message,
        "Cleaned input was capped at 5 characters for this run; original cleaned length was 11 characters."
    );
    o.max_chars = None;
    let (cleaned, alerts) = prepare_cleaned_text("", &o);
    assert_eq!(cleaned, "");
    let codes: Vec<&str> = alerts.iter().map(|a| a.code.as_str()).collect();
    assert_eq!(codes, vec!["EMPTY_INPUT", "SHORT_CORPUS"]);
}

#[test]
fn seeds_follow_the_mixing_formula() {
    let seed = 18427u64;
    assert_eq!(
        event_seed(seed, EncodingKind::Grapheme, 1, 4),
        seed ^ (3u64 << 16) ^ (2u64 << 32) ^ (5u64 << 48)
    );
    assert_eq!(null_seed(seed, BoolNullKind::Markov2), seed ^ (3u64 << 8));
    assert_eq!(null_seed(seed, BoolNullKind::DensityShuffle), seed ^ (1u64 << 8));
}

#[test]
fn raw_only_effect_alert() {
    let mut alerts = Vec::new();
    add_cross_encoding_alerts(
        &mut alerts,
        &vec![(EncodingKind::Utf8Bits, true), (EncodingKind::Grapheme, false)],
    );
    assert_eq!(alerts.len(), 1);
    assert_eq!(alerts[0].code, "RAW_ONLY_EFFECT");
    let mut none = Vec::new();
    add_cross_encoding_alerts(
        &mut none,
        &vec![(EncodingKind::BitText, true), (EncodingKind::WordBoundary, true)],
    );
    assert!(none.is_empty());
}

#[test]
fn json_helpers() {
    assert_eq!(escape_json("a\"b\\c\n\r\t\u{1}\u{7f}é"), "a\\\"b\\\\c\\n\\r\\t\\u0001\\u007fé");
    assert_eq!(json_pair_str("k", "v\"", 2, true), "  \"k\": \"v\\\"\",\n");
    assert_eq!(json_pair_str("k", "v", 0, false), "\"k\": \"v\"\n");
    assert_eq!(json_pair_opt_usize("max_chars", Some(12), 4, true), "    \"max_chars\": 12,\n");
    assert_eq!(json_pair_opt_usize("max_chars", None, 4, false), "    \"max_chars\": null\n");
    assert_eq!(json_pair_uint("seed", 18427, 1, false), " \"seed\": 18427\n");
}

#[test]
fn alert_rendering() {
    let a = Alert::new("C", "info", 1, "m".to_string());
    assert_eq!(format_alert(&a), "  - [info:C:L1] m\n");
    assert_eq!(alerts_json(&vec![], 2), "[]");
    assert_eq!(
        alerts_json(&vec![a.clone()], 2),
        "[\n    {\n      \"code\": \"C\",\n      \"severity\": \"info\",\n      \"interpretation_level\": 1,\n      \"message\": \"m\"\n     }\n  ]"
    );
    let b = Alert::new("D", "warning", 0, "n".to_string());
    let two = alerts_json(&vec![a, b], 0);
    assert!(two.contains("   },\n  {\n"));
    assert!(two.ends_with("   }\n]"));
}

#[test]
fn text_report_headings() {
    let mut o = AnalyseOptions::default();
    o.input_path = "in.txt".to_string();
    o.max_chars = Some(40);
    let m = ExperimentMetadata::from_options_at(&o, 5);
    let alerts = vec![Alert::new("SHORT_CORPUS", "warning", 0, "short".to_string())];
    let text = report_text_heading(&m, 10, 9, 8, &alerts);
    let expected = format!(
        "RRLANG ANALYSIS REPORT\n======================\n\nExperiment: {}\nStatus: exploratory\nLanguage: unknown\nInput: in.txt\nInput bytes: 10\nInput chars: 9\nCleaned chars: 8\nNull samples per null model: 100\nSeed: 18427\nTool version: 0.2.0\nHyphen policy: punctuation\nMax chars cap: 40\n\nGlobal alerts:\n  - [warning:SHORT_CORPUS:L0] short\n\n",
        o.experiment_name
    );
    assert_eq!(text, expected);
    o.max_chars = None;
    let m = ExperimentMetadata::from_options_at(&o, 5);
    let bare = report_text_heading(&m, 0, 0, 0, &vec![]);
    assert!(bare.ends_with("Hyphen policy: punctuation\nMax chars cap: none\n\n"));

    let event = event_text_heading("vowel", "Vowels.", 3, &alerts);
    assert_eq!(
        event,
        "  Event: vowel\n    description: Vowels.\n    event_count: 3\n    alerts:\n      - [warning:SHORT_CORPUS:L0] short\n"
    );
    assert_eq!(
        event_text_heading("x", "d", 0, &vec![]),
        "  Event: x\n    description: d\n    event_count: 0\n"
    );
}

#[test]
fn batch_decisions() {
    assert!(batch_should_skip(true, true, true));
    assert!(!batch_should_skip(true, true, false));
    assert!(!batch_should_skip(false, true, true));
    let t = BatchTally::new();
    assert_eq!(t, BatchTally { completed: 0, skipped: 0, failed: 0 });
    let t = batch_after_skip(t);
    let (t, stop) = batch_after_run(t, true, false);
    assert!(!stop);
    let (t, stop) = batch_after_run(t, false, true);
    assert!(!stop);
    assert_eq!(t, BatchTally { completed: 1, skipped: 1, failed: 1 });
    let (u, stop) = batch_after_run(t, false, false);
    assert!(stop);
    assert_eq!(u.failed, 2);
    assert!(batch_outcome(BatchTally { completed: 3, skipped: 2, failed: 0 }).is_ok());
    assert_eq!(
        message_of(batch_outcome(u).err().unwrap()),
        "Batch completed with 2 failed input(s)."
    );
}

#[test]
fn encoding_labels_read_back() {
    let lists = [
        vec![],
        vec![EncodingKind::BitText],
        vec![EncodingKind::Utf8Bits, EncodingKind::Utf8Bits, EncodingKind::FrequencyClass],
        linguistic_encodings(),
    ];
    for v in lists {
        assert_eq!(parse_encoding_list(&encoding_list_label(&v)).unwrap(), v);
    }
}
