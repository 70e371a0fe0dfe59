//! Run options, policies, encoded sequences, alerts and report metadata.
use vstd::prelude::*;

use crate::text::{
    ascii_lowercase, ascii_lowercase_chars, chars_equal, is_white_space,
    lemma_trimmed_ends, lemma_trimmed_unchanged, owned, trim_str, trimmed,
};

verus! {

// ---------------------------------------------------------------------------
// Name keys shared by every `from_name`
// ---------------------------------------------------------------------------

/// `-` replaced by `_` (`str::replace('-', "_")`).
pub open spec fn hyphens_to_underscores(s: Seq<char>) -> Seq<char> {
    s.map_values(|c: char| if c == '-' { '_' } else { c })
}

/// The key a policy name is matched by: trimmed and ASCII-lowercased.
pub open spec fn plain_key(name: Seq<char>) -> Seq<char> {
    ascii_lowercase(trimmed(name))
}

/// The key an encoding or hyphen-policy name is matched by: trimmed,
/// ASCII-lowercased, with `-` read as `_`.
pub open spec fn underscore_key(name: Seq<char>) -> Seq<char> {
    hyphens_to_underscores(plain_key(name))
}

fn plain_key_of(name: &str) -> (k: Vec<char>)
    ensures
        k@ == plain_key(name@),
{
    let t = trim_str(name);
    ascii_lowercase_chars(&t)
}

fn underscore_key_of(name: &str) -> (k: Vec<char>)
    ensures
        k@ == underscore_key(name@),
{
    let l = plain_key_of(name);
    let mut k: Vec<char> = Vec::new();
    let mut i: usize = 0;
    while i < l.len()
        invariant
            i <= l.len(),
            k@ == hyphens_to_underscores(l@.take(i as int)),
        decreases l.len() - i,
    {
        let c = l[i];
        k.push(
            if c == '-' {
                '_'
            } else {
                c
            },
        );
        assert(hyphens_to_underscores(l@.take(i + 1)) =~= hyphens_to_underscores(
            l@.take(i as int),
        ).push(if c == '-' { '_' } else { c }));
        i = i + 1;
    }
    assert(l@.take(l.len() as int) =~= l@);
    k
}

// ---------------------------------------------------------------------------
// Encodings
// ---------------------------------------------------------------------------

/// The layer a text is encoded into before analysis.
#[derive(Debug, Clone, Copy, PartialEq, Eq, Hash, Structural)]
pub enum EncodingKind {
    Utf8Bits,
    BitText,
    Grapheme,
    GraphemeClass,
    WordBoundary,
    FrequencyClass,
}

/// Canonical name of an encoding.
pub open spec fn encoding_name(k: EncodingKind) -> Seq<char> {
    match k {
        EncodingKind::Utf8Bits => "utf8_bits"@,
        EncodingKind::BitText => "bit_text"@,
        EncodingKind::Grapheme => "grapheme"@,
        EncodingKind::GraphemeClass => "grapheme_class"@,
        EncodingKind::WordBoundary => "word_boundary"@,
        EncodingKind::FrequencyClass => "frequency_class"@,
    }
}

/// The encoding a normalised key names, with its accepted aliases.
pub open spec fn encoding_for_key(key: Seq<char>) -> Option<EncodingKind> {
    if key == "utf8"@ || key == "utf8_bits"@ || key == "raw"@ || key == "raw_utf8"@ || key
        == "binary"@ {
        Some(EncodingKind::Utf8Bits)
    } else if key == "bit_text"@ || key == "bits_text"@ || key == "text_bits"@ || key
        == "ascii_bits"@ || key == "literal_bits"@ {
        Some(EncodingKind::BitText)
    } else if key == "grapheme"@ || key == "graphemes"@ || key == "char"@ || key == "chars"@ {
        Some(EncodingKind::Grapheme)
    } else if key == "grapheme_class"@ || key == "class"@ || key == "classes"@ {
        Some(EncodingKind::GraphemeClass)
    } else if key == "word_boundary"@ || key == "boundary"@ || key == "word_boundaries"@ {
        Some(EncodingKind::WordBoundary)
    } else if key == "frequency"@ || key == "frequency_class"@ || key == "freq"@ || key
        == "token_frequency"@ {
        Some(EncodingKind::FrequencyClass)
    } else {
        None
    }
}

/// Position of an encoding in its declaration order, counted from 0.
pub open spec fn encoding_ordinal(k: EncodingKind) -> u64 {
    match k {
        EncodingKind::Utf8Bits => 0,
        EncodingKind::BitText => 1,
        EncodingKind::Grapheme => 2,
        EncodingKind::GraphemeClass => 3,
        EncodingKind::WordBoundary => 4,
        EncodingKind::FrequencyClass => 5,
    }
}

impl EncodingKind {
    /// The canonical name.
    pub fn as_str(self) -> (r: &'static str)
        ensures
            r@ == encoding_name(self),
    {
        match self {
            EncodingKind::Utf8Bits => "utf8_bits",
            EncodingKind::BitText => "bit_text",
            EncodingKind::Grapheme => "grapheme",
            EncodingKind::GraphemeClass => "grapheme_class",
            EncodingKind::WordBoundary => "word_boundary",
            EncodingKind::FrequencyClass => "frequency_class",
        }
    }

    /// The encoding named by `name` or one of its aliases, ignoring surrounding
    /// white space and ASCII case, with `-` read as `_`.
    pub fn from_name(name: &str) -> (r: Option<Self>)
        ensures
            r == encoding_for_key(underscore_key(name@)),
    {
        let key = underscore_key_of(name);
        if chars_equal(&key, "utf8") || chars_equal(&key, "utf8_bits") || chars_equal(&key, "raw")
            || chars_equal(&key, "raw_utf8") || chars_equal(&key, "binary") {
            Some(EncodingKind::Utf8Bits)
        } else if chars_equal(&key, "bit_text") || chars_equal(&key, "bits_text") || chars_equal(
            &key,
            "text_bits",
        ) || chars_equal(&key, "ascii_bits") || chars_equal(&key, "literal_bits") {
            Some(EncodingKind::BitText)
        } else if chars_equal(&key, "grapheme") || chars_equal(&key, "graphemes") || chars_equal(
            &key,
            "char",
        ) || chars_equal(&key, "chars") {
            Some(EncodingKind::Grapheme)
        } else if chars_equal(&key, "grapheme_class") || chars_equal(&key, "class") || chars_equal(
            &key,
            "classes",
        ) {
            Some(EncodingKind::GraphemeClass)
        } else if chars_equal(&key, "word_boundary") || chars_equal(&key, "boundary")
            || chars_equal(&key, "word_boundaries") {
            Some(EncodingKind::WordBoundary)
        } else if chars_equal(&key, "frequency") || chars_equal(&key, "frequency_class")
            || chars_equal(&key, "freq") || chars_equal(&key, "token_frequency") {
            Some(EncodingKind::FrequencyClass)
        } else {
            None
        }
    }

    /// Position of the encoding in its declaration order, counted from 0.
    pub fn ordinal(self) -> (r: u64)
        ensures
            r == encoding_ordinal(self),
    {
        match self {
            EncodingKind::Utf8Bits => 0,
            EncodingKind::BitText => 1,
            EncodingKind::Grapheme => 2,
            EncodingKind::GraphemeClass => 3,
            EncodingKind::WordBoundary => 4,
            EncodingKind::FrequencyClass => 5,
        }
    }
}

// ---------------------------------------------------------------------------
// Case policy
// ---------------------------------------------------------------------------

/// Whether the text is lowercased before encoding.
#[derive(Debug, Clone, Copy, PartialEq, Eq, Structural)]
pub enum CasePolicy {
    Preserve,
    Lowercase,
}

/// Canonical name of a case policy.
pub open spec fn case_policy_name(p: CasePolicy) -> Seq<char> {
    match p {
        CasePolicy::Preserve => "preserve"@,
        CasePolicy::Lowercase => "lowercase"@,
    }
}

/// The case policy a normalised key names.
pub open spec fn case_policy_for_key(key: Seq<char>) -> Option<CasePolicy> {
    if key == "preserve"@ || key == "keep"@ {
        Some(CasePolicy::Preserve)
    } else if key == "lower"@ || key == "lowercase"@ || key == "casefold"@ || key
        == "case_fold"@ {
        Some(CasePolicy::Lowercase)
    } else {
        None
    }
}

impl CasePolicy {
    /// The canonical name.
    pub fn as_str(self) -> (r: &'static str)
        ensures
            r@ == case_policy_name(self),
    {
        match self {
            CasePolicy::Preserve => "preserve",
            CasePolicy::Lowercase => "lowercase",
        }
    }

    /// The policy named by `name` or an alias, ignoring surrounding white space
    /// and ASCII case.
    pub fn from_name(name: &str) -> (r: Option<Self>)
        ensures
            r == case_policy_for_key(plain_key(name@)),
    {
        let key = plain_key_of(name);
        if chars_equal(&key, "preserve") || chars_equal(&key, "keep") {
            Some(CasePolicy::Preserve)
        } else if chars_equal(&key, "lower") || chars_equal(&key, "lowercase") || chars_equal(
            &key,
            "casefold",
        ) || chars_equal(&key, "case_fold") {
            Some(CasePolicy::Lowercase)
        } else {
            None
        }
    }
}

// ---------------------------------------------------------------------------
// Punctuation policy
// ---------------------------------------------------------------------------

/// Whether punctuation is kept or replaced by spaces.
#[derive(Debug, Clone, Copy, PartialEq, Eq, Structural)]
pub enum PunctuationPolicy {
    Preserve,
    Remove,
}

/// Canonical name of a punctuation policy.
pub open spec fn punctuation_policy_name(p: PunctuationPolicy) -> Seq<char> {
    match p {
        PunctuationPolicy::Preserve => "preserve"@,
        PunctuationPolicy::Remove => "remove"@,
    }
}

/// The punctuation policy a normalised key names.
pub open spec fn punctuation_policy_for_key(key: Seq<char>) -> Option<PunctuationPolicy> {
    if key == "preserve"@ || key == "keep"@ {
        Some(PunctuationPolicy::Preserve)
    } else if key == "remove"@ || key == "strip"@ {
        Some(PunctuationPolicy::Remove)
    } else {
        None
    }
}

impl PunctuationPolicy {
    /// The canonical name.
    pub fn as_str(self) -> (r: &'static str)
        ensures
            r@ == punctuation_policy_name(self),
    {
        match self {
            PunctuationPolicy::Preserve => "preserve",
            PunctuationPolicy::Remove => "remove",
        }
    }

    /// The policy named by `name` or an alias, ignoring surrounding white space
    /// and ASCII case.
    pub fn from_name(name: &str) -> (r: Option<Self>)
        ensures
            r == punctuation_policy_for_key(plain_key(name@)),
    {
        let key = plain_key_of(name);
        if chars_equal(&key, "preserve") || chars_equal(&key, "keep") {
            Some(PunctuationPolicy::Preserve)
        } else if chars_equal(&key, "remove") || chars_equal(&key, "strip") {
            Some(PunctuationPolicy::Remove)
        } else {
            None
        }
    }
}

// ---------------------------------------------------------------------------
// Hyphen policy
// ---------------------------------------------------------------------------

/// How hyphen-like characters are treated.
#[derive(Debug, Clone, Copy, PartialEq, Eq, Structural)]
pub enum HyphenPolicy {
    Punctuation,
    MorphemeBoundary,
    WordInternal,
    Remove,
}

/// Canonical name of a hyphen policy.
pub open spec fn hyphen_policy_name(p: HyphenPolicy) -> Seq<char> {
    match p {
        HyphenPolicy::Punctuation => "punctuation"@,
        HyphenPolicy::MorphemeBoundary => "morpheme_boundary"@,
        HyphenPolicy::WordInternal => "word_internal"@,
        HyphenPolicy::Remove => "remove"@,
    }
}

/// The hyphen policy a normalised key names.
pub open spec fn hyphen_policy_for_key(key: Seq<char>) -> Option<HyphenPolicy> {
    if key == "punctuation"@ || key == "punct"@ || key == "hyphen_as_punctuation"@ {
        Some(HyphenPolicy::Punctuation)
    } else if key == "morpheme"@ || key == "morpheme_boundary"@ || key == "boundary"@ || key
        == "hyphen_as_morpheme_boundary"@ {
        Some(HyphenPolicy::MorphemeBoundary)
    } else if key == "word_internal"@ || key == "internal"@ || key == "keep"@ || key
        == "hyphen_as_word_internal"@ {
        Some(HyphenPolicy::WordInternal)
    } else if key == "remove"@ || key == "strip"@ || key == "delete"@ || key
        == "hyphen_removed"@ {
        Some(HyphenPolicy::Remove)
    } else {
        None
    }
}

impl HyphenPolicy {
    /// The canonical name.
    pub fn as_str(self) -> (r: &'static str)
        ensures
            r@ == hyphen_policy_name(self),
    {
        match self {
            HyphenPolicy::Punctuation => "punctuation",
            HyphenPolicy::MorphemeBoundary => "morpheme_boundary",
            HyphenPolicy::WordInternal => "word_internal",
            HyphenPolicy::Remove => "remove",
        }
    }

    /// The policy named by `name` or an alias, ignoring surrounding white space
    /// and ASCII case, with `-` read as `_`.
    pub fn from_name(name: &str) -> (r: Option<Self>)
        ensures
            r == hyphen_policy_for_key(underscore_key(name@)),
    {
        let key = underscore_key_of(name);
        if chars_equal(&key, "punctuation") || chars_equal(&key, "punct") || chars_equal(
            &key,
            "hyphen_as_punctuation",
        ) {
            Some(HyphenPolicy::Punctuation)
        } else if chars_equal(&key, "morpheme") || chars_equal(&key, "morpheme_boundary")
            || chars_equal(&key, "boundary") || chars_equal(&key, "hyphen_as_morpheme_boundary") {
            Some(HyphenPolicy::MorphemeBoundary)
        } else if chars_equal(&key, "word_internal") || chars_equal(&key, "internal")
            || chars_equal(&key, "keep") || chars_equal(&key, "hyphen_as_word_internal") {
            Some(HyphenPolicy::WordInternal)
        } else if chars_equal(&key, "remove") || chars_equal(&key, "strip") || chars_equal(
            &key,
            "delete",
        ) || chars_equal(&key, "hyphen_removed") {
            Some(HyphenPolicy::Remove)
        } else {
            None
        }
    }
}

// ---------------------------------------------------------------------------
// Whitespace policy
// ---------------------------------------------------------------------------

/// Whether runs of white space are collapsed.
#[derive(Debug, Clone, Copy, PartialEq, Eq, Structural)]
pub enum WhitespacePolicy {
    Preserve,
    Normalise,
}

/// Canonical name of a whitespace policy.
pub open spec fn whitespace_policy_name(p: WhitespacePolicy) -> Seq<char> {
    match p {
        WhitespacePolicy::Preserve => "preserve"@,
        WhitespacePolicy::Normalise => "normalise"@,
    }
}

/// The whitespace policy a normalised key names.
pub open spec fn whitespace_policy_for_key(key: Seq<char>) -> Option<WhitespacePolicy> {
    if key == "preserve"@ || key == "keep"@ {
        Some(WhitespacePolicy::Preserve)
    } else if key == "normalise"@ || key == "normalize"@ || key == "collapse"@ {
        Some(WhitespacePolicy::Normalise)
    } else {
        None
    }
}

impl WhitespacePolicy {
    /// The canonical name.
    pub fn as_str(self) -> (r: &'static str)
        ensures
            r@ == whitespace_policy_name(self),
    {
        match self {
            WhitespacePolicy::Preserve => "preserve",
            WhitespacePolicy::Normalise => "normalise",
        }
    }

    /// The policy named by `name` or an alias, ignoring surrounding white space
    /// and ASCII case.
    pub fn from_name(name: &str) -> (r: Option<Self>)
        ensures
            r == whitespace_policy_for_key(plain_key(name@)),
    {
        let key = plain_key_of(name);
        if chars_equal(&key, "preserve") || chars_equal(&key, "keep") {
            Some(WhitespacePolicy::Preserve)
        } else if chars_equal(&key, "normalise") || chars_equal(&key, "normalize") || chars_equal(
            &key,
            "collapse",
        ) {
            Some(WhitespacePolicy::Normalise)
        } else {
            None
        }
    }
}


proof fn lemma_key_of_plain_name(s: Seq<char>)
    requires
        forall|i: int| 0 <= i < s.len() ==> ('a' <= #[trigger] s[i] <= 'z' || '0' <= s[i] <= '9' || s[i] == '_'),
        s.len() > 0,
    ensures
        underscore_key(s) == s,
        plain_key(s) == s,
{
    assert(!crate::text::is_white_space(s[0]));
    assert(crate::text::trim_start(s) == s);
    assert(!crate::text::is_white_space(s.last()));
    assert(crate::text::trim_end(s) == s);
    assert(ascii_lowercase(s) =~= s);
    assert(hyphens_to_underscores(s) =~= s);
}

/// Every encoding's canonical name is read back as that encoding.
pub proof fn lemma_encoding_name_roundtrip(k: EncodingKind)
    ensures
        encoding_for_key(underscore_key(encoding_name(k))) == Some(k),
{
    reveal_strlit("utf8_bits");
    reveal_strlit("bit_text");
    reveal_strlit("grapheme");
    reveal_strlit("grapheme_class");
    reveal_strlit("word_boundary");
    reveal_strlit("frequency_class");
    reveal_strlit("utf8");
    reveal_strlit("raw");
    reveal_strlit("raw_utf8");
    reveal_strlit("binary");
    reveal_strlit("bits_text");
    reveal_strlit("text_bits");
    reveal_strlit("ascii_bits");
    reveal_strlit("literal_bits");
    reveal_strlit("graphemes");
    reveal_strlit("char");
    reveal_strlit("chars");
    reveal_strlit("class");
    reveal_strlit("classes");
    reveal_strlit("boundary");
    reveal_strlit("word_boundaries");
    reveal_strlit("frequency");
    lemma_key_of_plain_name(encoding_name(k));
}

/// Every case policy's canonical name is read back as that policy.
pub proof fn lemma_case_policy_name_roundtrip(p: CasePolicy)
    ensures
        case_policy_for_key(plain_key(case_policy_name(p))) == Some(p),
{
    reveal_strlit("preserve");
    reveal_strlit("keep");
    reveal_strlit("lower");
    reveal_strlit("lowercase");
    lemma_key_of_plain_name(case_policy_name(p));
}

/// Every punctuation policy's canonical name is read back as that policy.
pub proof fn lemma_punctuation_policy_name_roundtrip(p: PunctuationPolicy)
    ensures
        punctuation_policy_for_key(plain_key(punctuation_policy_name(p))) == Some(p),
{
    reveal_strlit("preserve");
    reveal_strlit("keep");
    reveal_strlit("remove");
    lemma_key_of_plain_name(punctuation_policy_name(p));
}

/// Every hyphen policy's canonical name is read back as that policy.
pub proof fn lemma_hyphen_policy_name_roundtrip(p: HyphenPolicy)
    ensures
        hyphen_policy_for_key(underscore_key(hyphen_policy_name(p))) == Some(p),
{
    reveal_strlit("punctuation");
    reveal_strlit("punct");
    reveal_strlit("hyphen_as_punctuation");
    reveal_strlit("morpheme");
    reveal_strlit("morpheme_boundary");
    reveal_strlit("boundary");
    reveal_strlit("hyphen_as_morpheme_boundary");
    reveal_strlit("word_internal");
    reveal_strlit("internal");
    reveal_strlit("keep");
    reveal_strlit("hyphen_as_word_internal");
    reveal_strlit("remove");
    lemma_key_of_plain_name(hyphen_policy_name(p));
}

/// Every whitespace policy's canonical name is read back as that policy.
pub proof fn lemma_whitespace_policy_name_roundtrip(p: WhitespacePolicy)
    ensures
        whitespace_policy_for_key(plain_key(whitespace_policy_name(p))) == Some(p),
{
    reveal_strlit("preserve");
    reveal_strlit("keep");
    reveal_strlit("normalise");
    lemma_key_of_plain_name(whitespace_policy_name(p));
}

/// The characters of every encoding name are lowercase ASCII letters, digits
/// and `_`, and the name is not empty.
pub proof fn lemma_encoding_name_chars(k: EncodingKind)
    ensures
        encoding_name(k).len() > 0,
        forall|i: int|
            0 <= i < encoding_name(k).len() ==> ('a' <= #[trigger] encoding_name(k)[i] <= 'z' || '0'
                <= encoding_name(k)[i] <= '9' || encoding_name(k)[i] == '_'),
{
    reveal_strlit("utf8_bits");
    reveal_strlit("bit_text");
    reveal_strlit("grapheme");
    reveal_strlit("grapheme_class");
    reveal_strlit("word_boundary");
    reveal_strlit("frequency_class");
}

proof fn lemma_lowercase_keeps_ends(t: Seq<char>)
    requires
        t.len() > 0 ==> !is_white_space(t[0]) && !is_white_space(t.last()),
    ensures
        ascii_lowercase(t).len() == t.len(),
        t.len() > 0 ==> !is_white_space(ascii_lowercase(t)[0]) && !is_white_space(
            ascii_lowercase(t).last(),
        ),
{
}

/// Reading a name already trimmed, ASCII-lowercased and with `_` for `-`
/// changes nothing: both keys are settled, so a name and its normal form
/// name the same encoding and the same policies.
pub proof fn lemma_name_keys_settled(name: Seq<char>)
    ensures
        plain_key(plain_key(name)) == plain_key(name),
        underscore_key(underscore_key(name)) == underscore_key(name),
        encoding_for_key(underscore_key(underscore_key(name))) == encoding_for_key(
            underscore_key(name),
        ),
        hyphen_policy_for_key(underscore_key(underscore_key(name))) == hyphen_policy_for_key(
            underscore_key(name),
        ),
        case_policy_for_key(plain_key(plain_key(name))) == case_policy_for_key(plain_key(name)),
{
    let t = trimmed(name);
    lemma_trimmed_ends(name);
    lemma_lowercase_keeps_ends(t);
    let p = ascii_lowercase(t);
    lemma_trimmed_unchanged(p);
    assert(ascii_lowercase(p) =~= p);
    let u = hyphens_to_underscores(p);
    if u.len() > 0 {
        assert(u[0] == (if p[0] == '-' { '_' } else { p[0] }));
        assert(u.last() == (if p.last() == '-' { '_' } else { p.last() }));
    }
    lemma_trimmed_unchanged(u);
    assert(ascii_lowercase(u) =~= u);
    assert(hyphens_to_underscores(u) =~= u);
}

// ---------------------------------------------------------------------------
// Run options
// ---------------------------------------------------------------------------

/// Everything one analysis run is configured by.
#[derive(Debug, Clone)]
pub struct AnalyseOptions {
    pub input_path: String,
    pub output_json: Option<String>,
    pub output_text: Option<String>,
    pub language: String,
    pub experiment_name: String,
    pub encodings: Vec<EncodingKind>,
    pub null_samples: usize,
    pub seed: u64,
    pub max_chars: Option<usize>,
    pub case_policy: CasePolicy,
    pub punctuation_policy: PunctuationPolicy,
    pub hyphen_policy: HyphenPolicy,
    pub whitespace_policy: WhitespacePolicy,
}

/// The view of an optional string.
pub open spec fn opt_view(o: Option<String>) -> Option<Seq<char>> {
    match o {
        Some(s) => Some(s@),
        None => None,
    }
}

/// The encodings enabled when nothing else is asked for.
pub open spec fn default_encodings() -> Seq<EncodingKind> {
    seq![
        EncodingKind::Utf8Bits,
        EncodingKind::Grapheme,
        EncodingKind::GraphemeClass,
        EncodingKind::WordBoundary,
        EncodingKind::FrequencyClass,
    ]
}

/// The model of the run options.
pub struct OptionsView {
    pub input_path: Seq<char>,
    pub output_json: Option<Seq<char>>,
    pub output_text: Option<Seq<char>>,
    pub language: Seq<char>,
    pub experiment_name: Seq<char>,
    pub encodings: Seq<EncodingKind>,
    pub null_samples: usize,
    pub seed: u64,
    pub max_chars: Option<usize>,
    pub case_policy: CasePolicy,
    pub punctuation_policy: PunctuationPolicy,
    pub hyphen_policy: HyphenPolicy,
    pub whitespace_policy: WhitespacePolicy,
}

impl View for AnalyseOptions {
    type V = OptionsView;

    open spec fn view(&self) -> OptionsView {
        OptionsView {
            input_path: self.input_path@,
            output_json: opt_view(self.output_json),
            output_text: opt_view(self.output_text),
            language: self.language@,
            experiment_name: self.experiment_name@,
            encodings: self.encodings@,
            null_samples: self.null_samples,
            seed: self.seed,
            max_chars: self.max_chars,
            case_policy: self.case_policy,
            punctuation_policy: self.punctuation_policy,
            hyphen_policy: self.hyphen_policy,
            whitespace_policy: self.whitespace_policy,
        }
    }
}

/// The options a run starts from.
pub open spec fn default_options() -> OptionsView {
    OptionsView {
        input_path: Seq::empty(),
        output_json: Some("rrlang_report.json"@),
        output_text: Some("rrlang_report.txt"@),
        language: "unknown"@,
        experiment_name: "rrlang_mvp_analysis_v0_2"@,
        encodings: default_encodings(),
        null_samples: 100,
        seed: 18427,
        max_chars: None,
        case_policy: CasePolicy::Lowercase,
        punctuation_policy: PunctuationPolicy::Preserve,
        hyphen_policy: HyphenPolicy::Punctuation,
        whitespace_policy: WhitespacePolicy::Normalise,
    }
}

impl Default for AnalyseOptions {
    fn default() -> (r: Self)
        ensures
            r@ == default_options(),
    {
        let mut encodings: Vec<EncodingKind> = Vec::new();
        encodings.push(EncodingKind::Utf8Bits);
        encodings.push(EncodingKind::Grapheme);
        encodings.push(EncodingKind::GraphemeClass);
        encodings.push(EncodingKind::WordBoundary);
        encodings.push(EncodingKind::FrequencyClass);
        let r = AnalyseOptions {
            input_path: String::new(),
            output_json: Some(owned("rrlang_report.json")),
            output_text: Some(owned("rrlang_report.txt")),
            language: owned("unknown"),
            experiment_name: owned("rrlang_mvp_analysis_v0_2"),
            encodings,
            null_samples: 100,
            seed: 18427,
            max_chars: None,
            case_policy: CasePolicy::Lowercase,
            punctuation_policy: PunctuationPolicy::Preserve,
            hyphen_policy: HyphenPolicy::Punctuation,
            whitespace_policy: WhitespacePolicy::Normalise,
        };
        assert(r.encodings@ =~= default_encodings());
        r
    }
}

// ---------------------------------------------------------------------------
// Encoded sequences
// ---------------------------------------------------------------------------

/// A named boolean marking over the positions of an encoded sequence.
#[derive(Debug, Clone)]
pub struct EventMap {
    pub name: String,
    pub description: String,
    pub values: Vec<bool>,
}

/// The model of an event map.
pub struct EventMapView {
    pub name: Seq<char>,
    pub description: Seq<char>,
    pub values: Seq<bool>,
}

impl View for EventMap {
    type V = EventMapView;

    open spec fn view(&self) -> EventMapView {
        EventMapView { name: self.name@, description: self.description@, values: self.values@ }
    }
}

impl DeepView for EventMap {
    type V = EventMapView;

    open spec fn deep_view(&self) -> EventMapView {
        self@
    }
}

/// A text encoded into a label stream, with its event maps and notes.
#[derive(Debug, Clone)]
pub struct EncodedSequence {
    pub kind: EncodingKind,
    pub labels: Vec<String>,
    pub event_maps: Vec<EventMap>,
    pub notes: Vec<String>,
}

/// The model of an encoded sequence.
pub struct EncodedView {
    pub kind: EncodingKind,
    pub labels: Seq<Seq<char>>,
    pub event_maps: Seq<EventMapView>,
    pub notes: Seq<Seq<char>>,
}

impl View for EncodedSequence {
    type V = EncodedView;

    open spec fn view(&self) -> EncodedView {
        EncodedView {
            kind: self.kind,
            labels: self.labels.deep_view(),
            event_maps: self.event_maps.deep_view(),
            notes: self.notes.deep_view(),
        }
    }
}

/// An event map model from its parts.
pub open spec fn event_map_view(name: Seq<char>, description: Seq<char>, values: Seq<bool>) -> EventMapView {
    EventMapView { name, description, values }
}

impl EventMap {
    /// An event map with the given name, description and values.
    pub fn new(name: &str, description: String, values: Vec<bool>) -> (r: Self)
        ensures
            r@ == event_map_view(name@, description@, values@),
    {
        EventMap { name: owned(name), description, values }
    }
}

// ---------------------------------------------------------------------------
// Alerts
// ---------------------------------------------------------------------------

/// A warning or note attached to a measurement.
#[derive(Debug, Clone)]
pub struct Alert {
    pub code: String,
    pub severity: String,
    pub interpretation_level: u8,
    pub message: String,
}

/// The model of an alert.
pub struct AlertView {
    pub code: Seq<char>,
    pub severity: Seq<char>,
    pub interpretation_level: u8,
    pub message: Seq<char>,
}

/// An alert model from its parts.
pub open spec fn alert_view(code: Seq<char>, severity: Seq<char>, level: u8, message: Seq<char>) -> AlertView {
    AlertView { code, severity, interpretation_level: level, message }
}

impl View for Alert {
    type V = AlertView;

    open spec fn view(&self) -> AlertView {
        alert_view(self.code@, self.severity@, self.interpretation_level, self.message@)
    }
}

impl DeepView for Alert {
    type V = AlertView;

    open spec fn deep_view(&self) -> AlertView {
        self@
    }
}

impl Alert {
    /// An alert with the given code, severity, interpretation level and message.
    pub fn new(code: &str, severity: &str, interpretation_level: u8, message: String) -> (r: Self)
        ensures
            r@ == alert_view(code@, severity@, interpretation_level, message@),
    {
        Alert {
            code: owned(code),
            severity: owned(severity),
            interpretation_level,
            message,
        }
    }
}

// ---------------------------------------------------------------------------
// Report metadata
// ---------------------------------------------------------------------------

/// What a report records about the run that produced it.
#[derive(Debug, Clone)]
pub struct ExperimentMetadata {
    pub experiment_name: String,
    pub input_path: String,
    pub language: String,
    pub unix_timestamp: u64,
    pub null_samples: usize,
    pub seed: u64,
    pub case_policy: String,
    pub punctuation_policy: String,
    pub hyphen_policy: String,
    pub whitespace_policy: String,
    pub max_chars: Option<usize>,
    pub tool_version: String,
    pub status: String,
}

/// The metadata recorded for `options` at time `unix_timestamp`.
pub open spec fn metadata_matches(m: ExperimentMetadata, options: AnalyseOptions, unix_timestamp: u64) -> bool {
    &&& m.experiment_name@ == options.experiment_name@
    &&& m.input_path@ == options.input_path@
    &&& m.language@ == options.language@
    &&& m.unix_timestamp == unix_timestamp
    &&& m.null_samples == options.null_samples
    &&& m.seed == options.seed
    &&& m.case_policy@ == case_policy_name(options.case_policy)
    &&& m.punctuation_policy@ == punctuation_policy_name(options.punctuation_policy)
    &&& m.hyphen_policy@ == hyphen_policy_name(options.hyphen_policy)
    &&& m.whitespace_policy@ == whitespace_policy_name(options.whitespace_policy)
    &&& m.max_chars == options.max_chars
    &&& m.tool_version@ == "0.2.0"@
    &&& m.status@ == "exploratory"@
}

#[verifier::external_type_specification]
#[verifier::external_body]
pub struct ExSystemTime(std::time::SystemTime);

/// Calls `SystemTime::now`. Nothing is stated of the result: it is the clock.
#[verifier::external_body]
fn system_now() -> std::time::SystemTime {
    std::time::SystemTime::now()
}

/// Calls `SystemTime::duration_since(UNIX_EPOCH)`: `None` when the time lies
/// before the epoch. Nothing is stated of which case comes: it depends on the
/// clock's value, which is opaque here.
#[verifier::external_body]
fn since_unix_epoch(t: std::time::SystemTime) -> Option<std::time::Duration> {
    match t.duration_since(std::time::UNIX_EPOCH) {
        Ok(d) => Some(d),
        Err(_) => None,
    }
}

/// Calls `Duration::as_secs`. The duration is opaque here, so nothing is stated
/// of the result.
#[verifier::external_body]
fn duration_secs(d: std::time::Duration) -> u64 {
    d.as_secs()
}

/// Whole seconds since the Unix epoch, or 0 when the clock is set before it.
fn unix_time_now() -> u64 {
    match since_unix_epoch(system_now()) {
        Some(d) => duration_secs(d),
        None => 0,
    }
}

impl ExperimentMetadata {
    /// The metadata for `options`, stamped with the given time.
    pub fn from_options_at(options: &AnalyseOptions, unix_timestamp: u64) -> (r: Self)
        ensures
            metadata_matches(r, *options, unix_timestamp),
    {
        ExperimentMetadata {
            experiment_name: owned(options.experiment_name.as_str()),
            input_path: owned(options.input_path.as_str()),
            language: owned(options.language.as_str()),
            unix_timestamp,
            null_samples: options.null_samples,
            seed: options.seed,
            case_policy: owned(options.case_policy.as_str()),
            punctuation_policy: owned(options.punctuation_policy.as_str()),
            hyphen_policy: owned(options.hyphen_policy.as_str()),
            whitespace_policy: owned(options.whitespace_policy.as_str()),
            max_chars: options.max_chars,
            tool_version: owned("0.2.0"),
            status: owned("exploratory"),
        }
    }

    /// The metadata for `options`, stamped with the current time.
    pub fn from_options(options: &AnalyseOptions) -> (r: Self)
        ensures
            metadata_matches(r, *options, r.unix_timestamp),
    {
        let now = unix_time_now();
        Self::from_options_at(options, now)
    }
}

// ---------------------------------------------------------------------------
// Errors
// ---------------------------------------------------------------------------

#[verifier::external_type_specification]
#[verifier::external_body]
pub struct ExIoError(std::io::Error);

/// Why a run could not be carried out.
#[derive(Debug)]
pub enum RrlangError {
    Io(std::io::Error),
    Message(String),
}

impl From<std::io::Error> for RrlangError {
    fn from(value: std::io::Error) -> (r: Self) {
        RrlangError::Io(value)
    }
}

impl vstd::std_specs::convert::FromSpecImpl<std::io::Error> for RrlangError {
    open spec fn obeys_from_spec() -> bool {
        true
    }

    open spec fn from_spec(v: std::io::Error) -> Self {
        RrlangError::Io(v)
    }
}

/// The text of a message error (empty for an I/O error).
pub open spec fn message_text(e: RrlangError) -> Seq<char> {
    match e {
        RrlangError::Message(m) => m@,
        RrlangError::Io(_) => Seq::empty(),
    }
}

impl RrlangError {
    /// An error carrying `message`.
    pub fn message(message: String) -> (r: Self)
        ensures
            r matches RrlangError::Message(m) && m@ == message@,
    {
        RrlangError::Message(message)
    }
}

} // verus!
