//! Text preprocessing and the encodings of a cleaned text into label streams
//! and event maps.
use vstd::prelude::*;

use crate::text::{
    lemma_trim_end_prefix, lemma_trim_start_suffix, lemma_trimmed_unchanged, chars_of, decimal, is_alphabetic, is_alphanumeric, is_ascii_digit,
    is_ascii_digit_char, is_ascii_punct, is_ascii_punctuation, is_white_space, is_whitespace,
    lowercase_of, str_to_lowercase, string_from_chars, trim_chars, trimmed, unicode_alphabetic,
    unicode_alphanumeric,
};
use crate::nulls::count_of;
use crate::text::{char_string, concat3, owned, str_equal, usize_decimal};
use crate::types::{
    event_map_view, hyphen_policy_name, AnalyseOptions, CasePolicy, EncodedSequence, EncodedView,
    EncodingKind, EventMap, EventMapView, HyphenPolicy, PunctuationPolicy, WhitespacePolicy,
};

verus! {

// ---------------------------------------------------------------------------
// Character classes
// ---------------------------------------------------------------------------

/// Hyphen-like characters: `-`, U+2010 to U+2014.
pub open spec fn is_hyphen_char(c: char) -> bool {
    c == '-' || ('\u{2010}' <= c <= '\u{2014}')
}

/// Whether `c` is hyphen-like.
pub fn is_hyphen(c: char) -> (r: bool)
    ensures
        r == is_hyphen_char(c),
{
    c == '-' || ('\u{2010}' <= c && c <= '\u{2014}')
}

/// Punctuation: ASCII punctuation, typographic quotes, dashes, the ellipsis and
/// common CJK and Arabic marks.
pub open spec fn is_punct_char(c: char) -> bool {
    ||| is_ascii_punct(c)
    ||| c == '\u{201C}'
    ||| c == '\u{201D}'
    ||| c == '\u{2018}'
    ||| c == '\u{2019}'
    ||| c == '\u{2014}'
    ||| c == '\u{2013}'
    ||| c == '\u{2026}'
    ||| c == '\u{3002}'
    ||| c == '\u{3001}'
    ||| c == '\u{FF0C}'
    ||| c == '\u{FF01}'
    ||| c == '\u{FF1F}'
    ||| c == '\u{061B}'
    ||| c == '\u{060C}'
}

/// Whether `c` is punctuation.
pub fn is_punctuation(c: char) -> (r: bool)
    ensures
        r == is_punct_char(c),
{
    is_ascii_punctuation(c) || c == '\u{201C}' || c == '\u{201D}' || c == '\u{2018}' || c
        == '\u{2019}' || c == '\u{2014}' || c == '\u{2013}' || c == '\u{2026}' || c == '\u{3002}'
        || c == '\u{3001}' || c == '\u{FF0C}' || c == '\u{FF01}' || c == '\u{FF1F}' || c
        == '\u{061B}' || c == '\u{060C}'
}

/// Basic Latin vowels in both cases and common accented lowercase vowels.
pub open spec fn is_vowel_char(c: char) -> bool {
    ||| c == 'a' || c == 'e' || c == 'i' || c == 'o' || c == 'u'
    ||| c == 'A' || c == 'E' || c == 'I' || c == 'O' || c == 'U'
    ||| c == '\u{E1}' || c == '\u{E9}' || c == '\u{ED}' || c == '\u{F3}' || c == '\u{FA}'
    ||| c == '\u{E0}' || c == '\u{E8}' || c == '\u{EC}' || c == '\u{F2}' || c == '\u{F9}'
    ||| c == '\u{E2}' || c == '\u{EA}' || c == '\u{EE}' || c == '\u{F4}' || c == '\u{FB}'
    ||| c == '\u{E4}' || c == '\u{EB}' || c == '\u{EF}' || c == '\u{F6}' || c == '\u{FC}'
    ||| c == '\u{E3}' || c == '\u{F5}' || c == '\u{E5}' || c == '\u{E6}' || c == '\u{153}'
}

/// Whether `c` is one of the recognised vowels.
pub fn is_basic_vowel(c: char) -> (r: bool)
    ensures
        r == is_vowel_char(c),
{
    c == 'a' || c == 'e' || c == 'i' || c == 'o' || c == 'u' || c == 'A' || c == 'E' || c == 'I'
        || c == 'O' || c == 'U' || c == '\u{E1}' || c == '\u{E9}' || c == '\u{ED}' || c == '\u{F3}'
        || c == '\u{FA}' || c == '\u{E0}' || c == '\u{E8}' || c == '\u{EC}' || c == '\u{F2}' || c
        == '\u{F9}' || c == '\u{E2}' || c == '\u{EA}' || c == '\u{EE}' || c == '\u{F4}' || c
        == '\u{FB}' || c == '\u{E4}' || c == '\u{EB}' || c == '\u{EF}' || c == '\u{F6}' || c
        == '\u{FC}' || c == '\u{E3}' || c == '\u{F5}' || c == '\u{E5}' || c == '\u{E6}' || c
        == '\u{153}'
}

/// Punctuation as the hyphen policy reads it: a hyphen is punctuation only
/// under the punctuation policy.
pub open spec fn punct_under_policy(c: char, hp: HyphenPolicy) -> bool {
    if is_hyphen_char(c) {
        hp == HyphenPolicy::Punctuation
    } else {
        is_punct_char(c)
    }
}

/// Whether `c` counts as punctuation under the hyphen policy.
pub fn punctuation_under_policy(c: char, hyphen_policy: HyphenPolicy) -> (r: bool)
    ensures
        r == punct_under_policy(c, hyphen_policy),
{
    if is_hyphen(c) {
        return hyphen_policy == HyphenPolicy::Punctuation;
    }
    is_punctuation(c)
}

/// A hyphen read as a morpheme boundary.
pub open spec fn is_hyphen_boundary(c: char, hp: HyphenPolicy) -> bool {
    is_hyphen_char(c) && hp == HyphenPolicy::MorphemeBoundary
}

/// The broad class of a character, tested in this order: vowel, consonant
/// (other alphabetic), digit, whitespace, hyphen boundary, punctuation, other.
pub open spec fn char_class_name(c: char, hp: HyphenPolicy) -> Seq<char> {
    if is_vowel_char(c) {
        "vowel"@
    } else if unicode_alphabetic(c) {
        "consonant"@
    } else if is_ascii_digit_char(c) {
        "digit"@
    } else if is_white_space(c) {
        "whitespace"@
    } else if is_hyphen_boundary(c, hp) {
        "hyphen_boundary"@
    } else if punct_under_policy(c, hp) {
        "punctuation"@
    } else {
        "other"@
    }
}

/// The broad class of `ch` under the hyphen policy.
pub fn char_class(ch: char, hyphen_policy: HyphenPolicy) -> (r: &'static str)
    ensures
        r@ == char_class_name(ch, hyphen_policy),
{
    if is_basic_vowel(ch) {
        "vowel"
    } else if is_alphabetic(ch) {
        "consonant"
    } else if is_ascii_digit(ch) {
        "digit"
    } else if is_whitespace(ch) {
        "whitespace"
    } else if is_hyphen(ch) && hyphen_policy == HyphenPolicy::MorphemeBoundary {
        "hyphen_boundary"
    } else if punctuation_under_policy(ch, hyphen_policy) {
        "punctuation"
    } else {
        "other"
    }
}

// ---------------------------------------------------------------------------
// Preprocessing
// ---------------------------------------------------------------------------

/// The text after the case policy.
pub open spec fn cased(s: Seq<char>, p: CasePolicy) -> Seq<char> {
    match p {
        CasePolicy::Preserve => s,
        CasePolicy::Lowercase => lowercase_of(s),
    }
}

/// Every hyphen-like character becomes `-`, or is dropped under the removal policy.
pub open spec fn hyphens_normalised(s: Seq<char>, hp: HyphenPolicy) -> Seq<char>
    decreases s.len(),
{
    if s.len() == 0 {
        Seq::empty()
    } else {
        let r = hyphens_normalised(s.drop_last(), hp);
        if is_hyphen_char(s.last()) {
            if hp == HyphenPolicy::Remove {
                r
            } else {
                r.push('-')
            }
        } else {
            r.push(s.last())
        }
    }
}

/// Punctuation replaced by a space, keeping hyphens that the hyphen policy
/// treats as part of words or as morpheme boundaries.
pub open spec fn punctuation_spaced(c: char, hp: HyphenPolicy) -> char {
    if is_hyphen_char(c) && (hp == HyphenPolicy::MorphemeBoundary || hp
        == HyphenPolicy::WordInternal) {
        c
    } else if is_punct_char(c) {
        ' '
    } else {
        c
    }
}

/// Each run of white space replaced by one space.
pub open spec fn collapse_whitespace(s: Seq<char>) -> Seq<char>
    decreases s.len(),
{
    if s.len() == 0 {
        Seq::empty()
    } else {
        let r = collapse_whitespace(s.drop_last());
        if is_white_space(s.last()) {
            if s.len() >= 2 && is_white_space(s[s.len() - 2]) {
                r
            } else {
                r.push(' ')
            }
        } else {
            r.push(s.last())
        }
    }
}

/// The text after the hyphen and punctuation policies, applied to a text whose
/// case policy is already applied.
pub open spec fn policies_on(t: Seq<char>, o: AnalyseOptions) -> Seq<char> {
    let a = hyphens_normalised(t, o.hyphen_policy);
    if o.punctuation_policy == PunctuationPolicy::Remove {
        a.map_values(|c: char| punctuation_spaced(c, o.hyphen_policy))
    } else {
        a
    }
}

/// The text after the case, hyphen and punctuation policies.
pub open spec fn policy_applied(input: Seq<char>, o: AnalyseOptions) -> Seq<char> {
    policies_on(cased(input, o.case_policy), o)
}

/// A text whose case policy is already applied, cleaned by the remaining
/// policies: hyphens, punctuation, then white space collapsed and trimmed under
/// the normalising whitespace policy.
pub open spec fn cleaned_after_case(t: Seq<char>, o: AnalyseOptions) -> Seq<char> {
    let b = policies_on(t, o);
    if o.whitespace_policy == WhitespacePolicy::Normalise {
        trimmed(collapse_whitespace(b))
    } else {
        b
    }
}

/// The cleaned text: the case policy, then the others.
pub open spec fn preprocessed(input: Seq<char>, o: AnalyseOptions) -> Seq<char> {
    cleaned_after_case(cased(input, o.case_policy), o)
}

/// White space in `s` is single spaces between other characters: no white
/// space at either end, none next to other white space, and no other white
/// space character than ` `.
pub open spec fn spacing_normalised(s: Seq<char>) -> bool {
    forall|i: int|
        0 <= i < s.len() && is_white_space(#[trigger] s[i]) ==> s[i] == ' ' && 0 < i < s.len() - 1
            && !is_white_space(s[i + 1])
}

/// Every white space character is ` ` and is not followed by white space.
spec fn single_spaces(s: Seq<char>) -> bool {
    forall|i: int|
        0 <= i < s.len() && is_white_space(#[trigger] s[i]) ==> s[i] == ' ' && (i + 1 < s.len()
            ==> !is_white_space(s[i + 1]))
}

proof fn lemma_collapse_single_spaces(s: Seq<char>)
    ensures
        single_spaces(collapse_whitespace(s)),
        collapse_whitespace(s).len() > 0 && is_white_space(collapse_whitespace(s).last()) ==> s.len()
            > 0 && is_white_space(s.last()),
    decreases s.len(),
{
    if s.len() > 0 {
        lemma_collapse_single_spaces(s.drop_last());
        let r = collapse_whitespace(s.drop_last());
        let t = collapse_whitespace(s);
        if is_white_space(s.last()) {
            if s.len() >= 2 && is_white_space(s[s.len() - 2]) {
                assert(s.drop_last().last() == s[s.len() - 2]);
            } else {
                assert(t == r.push(' '));
                assert(r.len() > 0 ==> !is_white_space(r.last()));
                assert forall|i: int| 0 <= i < t.len() && is_white_space(#[trigger] t[i]) implies t[i]
                    == ' ' && (i + 1 < t.len() ==> !is_white_space(t[i + 1])) by {
                    if i < r.len() {
                        assert(t[i] == r[i]);
                        if i + 1 == r.len() {
                            assert(r.last() == r[i]);
                        }
                    }
                }
            }
        } else {
            assert(t == r.push(s.last()));
            assert forall|i: int| 0 <= i < t.len() && is_white_space(#[trigger] t[i]) implies t[i]
                == ' ' && (i + 1 < t.len() ==> !is_white_space(t[i + 1])) by {
                if i < r.len() {
                    assert(t[i] == r[i]);
                }
            }
        }
    }
}

/// Trimming a text whose white space is single spaces leaves its spacing normalised.
proof fn lemma_trimmed_single_spaces(s: Seq<char>)
    requires
        single_spaces(s),
    ensures
        spacing_normalised(trimmed(s)),
{
    lemma_trim_start_suffix(s);
    let a = crate::text::trim_start(s);
    let k = choose|k: int| 0 <= k <= s.len() && a == s.skip(k);
    assert(single_spaces(a)) by {
        assert forall|i: int| 0 <= i < a.len() && is_white_space(#[trigger] a[i]) implies a[i] == ' '
            && (i + 1 < a.len() ==> !is_white_space(a[i + 1])) by {
            assert(a[i] == s[i + k]);
            if i + 1 < a.len() {
                assert(a[i + 1] == s[i + 1 + k]);
            }
        }
    }
    lemma_trim_end_prefix(a);
    let b = crate::text::trim_end(a);
    let j = choose|j: int| 0 <= j <= a.len() && b == a.take(j);
    assert forall|i: int| 0 <= i < b.len() && is_white_space(#[trigger] b[i]) implies b[i] == ' ' && 0
        < i < b.len() - 1 && !is_white_space(b[i + 1]) by {
        assert(b[i] == a[i]);
        if i == 0 {
            assert(a.len() > 0 && a[0] == b[0]);
        }
        if i == b.len() - 1 {
            assert(b.last() == b[i]);
        }
        if i + 1 < b.len() {
            assert(b[i + 1] == a[i + 1]);
        }
    }
}

/// Under the normalising whitespace policy the cleaned text has normalised spacing.
pub proof fn lemma_normalised_spacing(input: Seq<char>, o: AnalyseOptions)
    requires
        o.whitespace_policy == WhitespacePolicy::Normalise,
    ensures
        spacing_normalised(preprocessed(input, o)),
{
    let b = policy_applied(input, o);
    lemma_collapse_single_spaces(b);
    lemma_trimmed_single_spaces(collapse_whitespace(b));
}

/// A character the policies of `o` leave as it is: a hyphen-like character
/// only as `-` and only when hyphens are kept, and, when punctuation is
/// removed, no punctuation the policies would replace.
pub open spec fn settled_char(c: char, o: AnalyseOptions) -> bool {
    &&& is_hyphen_char(c) ==> c == '-' && o.hyphen_policy != HyphenPolicy::Remove
    &&& o.punctuation_policy == PunctuationPolicy::Remove ==> punctuation_spaced(c, o.hyphen_policy)
        == c
}

/// Every character of `s` is settled under `o`.
pub open spec fn all_settled(s: Seq<char>, o: AnalyseOptions) -> bool {
    forall|i: int| 0 <= i < s.len() ==> settled_char(#[trigger] s[i], o)
}

proof fn lemma_hyphens_normalised_chars(t: Seq<char>, hp: HyphenPolicy)
    ensures
        forall|i: int|
            0 <= i < hyphens_normalised(t, hp).len() && is_hyphen_char(
                #[trigger] hyphens_normalised(t, hp)[i],
            ) ==> hyphens_normalised(t, hp)[i] == '-' && hp != HyphenPolicy::Remove,
    decreases t.len(),
{
    if t.len() > 0 {
        let r = hyphens_normalised(t.drop_last(), hp);
        lemma_hyphens_normalised_chars(t.drop_last(), hp);
        let h = hyphens_normalised(t, hp);
        assert forall|i: int| 0 <= i < h.len() && is_hyphen_char(#[trigger] h[i]) implies h[i]
            == '-' && hp != HyphenPolicy::Remove by {
            if i < r.len() {
                assert(h[i] == r[i]);
            }
        }
    }
}

proof fn lemma_policies_settle(t: Seq<char>, o: AnalyseOptions)
    ensures
        all_settled(policies_on(t, o), o),
{
    let hp = o.hyphen_policy;
    let h = hyphens_normalised(t, hp);
    lemma_hyphens_normalised_chars(t, hp);
    assert(is_punct_char('-'));
    let p = policies_on(t, o);
    assert forall|i: int| 0 <= i < p.len() implies settled_char(#[trigger] p[i], o) by {
        if o.punctuation_policy == PunctuationPolicy::Remove {
            assert(p[i] == punctuation_spaced(h[i], hp));
            if is_hyphen_char(h[i]) {
                assert(h[i] == '-');
            }
        } else {
            assert(p[i] == h[i]);
        }
    }
}

proof fn lemma_collapse_keeps_settled(s: Seq<char>, o: AnalyseOptions)
    requires
        all_settled(s, o),
    ensures
        all_settled(collapse_whitespace(s), o),
    decreases s.len(),
{
    if s.len() > 0 {
        let t = s.drop_last();
        assert forall|i: int| 0 <= i < t.len() implies settled_char(#[trigger] t[i], o) by {
            assert(t[i] == s[i]);
        }
        lemma_collapse_keeps_settled(t, o);
        let r = collapse_whitespace(t);
        let c = collapse_whitespace(s);
        assert(settled_char(' ', o));
        assert(settled_char(s.last(), o));
        assert forall|i: int| 0 <= i < c.len() implies settled_char(#[trigger] c[i], o) by {
            if i < r.len() {
                assert(c[i] == r[i]);
            }
        }
    }
}

proof fn lemma_trimmed_keeps_settled(s: Seq<char>, o: AnalyseOptions)
    requires
        all_settled(s, o),
    ensures
        all_settled(trimmed(s), o),
{
    lemma_trim_start_suffix(s);
    let a = crate::text::trim_start(s);
    let k = choose|k: int| 0 <= k <= s.len() && a == s.skip(k);
    lemma_trim_end_prefix(a);
    let b = crate::text::trim_end(a);
    let j = choose|j: int| 0 <= j <= a.len() && b == a.take(j);
    assert forall|i: int| 0 <= i < b.len() implies settled_char(#[trigger] b[i], o) by {
        assert(b[i] == s[i + k]);
    }
}

proof fn lemma_settled_policies_fixed(s: Seq<char>, o: AnalyseOptions)
    requires
        all_settled(s, o),
    ensures
        policies_on(s, o) == s,
{
    lemma_settled_hyphens_fixed(s, o);
    if o.punctuation_policy == PunctuationPolicy::Remove {
        assert(s.map_values(|c: char| punctuation_spaced(c, o.hyphen_policy)) =~= s);
    }
}

proof fn lemma_settled_hyphens_fixed(s: Seq<char>, o: AnalyseOptions)
    requires
        all_settled(s, o),
    ensures
        hyphens_normalised(s, o.hyphen_policy) == s,
    decreases s.len(),
{
    if s.len() > 0 {
        let t = s.drop_last();
        assert forall|i: int| 0 <= i < t.len() implies settled_char(#[trigger] t[i], o) by {
            assert(t[i] == s[i]);
        }
        lemma_settled_hyphens_fixed(t, o);
        assert(settled_char(s.last(), o));
        assert(t.push(s.last()) =~= s);
    }
}

proof fn lemma_single_spaces_collapse_fixed(s: Seq<char>)
    requires
        single_spaces(s),
    ensures
        collapse_whitespace(s) == s,
    decreases s.len(),
{
    if s.len() > 0 {
        let t = s.drop_last();
        assert forall|i: int| 0 <= i < t.len() && is_white_space(#[trigger] t[i]) implies t[i]
            == ' ' && (i + 1 < t.len() ==> !is_white_space(t[i + 1])) by {
            assert(t[i] == s[i]);
            if i + 1 < t.len() {
                assert(t[i + 1] == s[i + 1]);
            }
        }
        lemma_single_spaces_collapse_fixed(t);
        if s.len() >= 2 && is_white_space(s[s.len() - 2]) {
            assert(!is_white_space(s[s.len() - 1]));
        }
        assert(t.push(s.last()) =~= s);
    }
}

/// Cleaning a text whose case policy is already applied a second time
/// changes nothing.
pub proof fn lemma_cleaning_is_settled(t: Seq<char>, o: AnalyseOptions)
    ensures
        cleaned_after_case(cleaned_after_case(t, o), o) == cleaned_after_case(t, o),
{
    let b = policies_on(t, o);
    lemma_policies_settle(t, o);
    let p = cleaned_after_case(t, o);
    if o.whitespace_policy == WhitespacePolicy::Normalise {
        lemma_collapse_keeps_settled(b, o);
        lemma_trimmed_keeps_settled(collapse_whitespace(b), o);
        lemma_settled_policies_fixed(p, o);
        lemma_collapse_single_spaces(b);
        lemma_trimmed_single_spaces(collapse_whitespace(b));
        assert(single_spaces(p));
        lemma_single_spaces_collapse_fixed(p);
        if p.len() > 0 {
            assert(!is_white_space(p[0]));
            assert(!is_white_space(p[p.len() - 1]));
        }
        lemma_trimmed_unchanged(p);
    } else {
        lemma_settled_policies_fixed(p, o);
    }
}

/// Preprocessing the preprocessed text again changes nothing, where lowercasing
/// (when the case policy asks for it) leaves the preprocessed text as it is.
pub proof fn lemma_preprocessing_is_settled(input: Seq<char>, o: AnalyseOptions)
    requires
        o.case_policy == CasePolicy::Lowercase ==> lowercase_of(preprocessed(input, o))
            == preprocessed(input, o),
    ensures
        preprocessed(preprocessed(input, o), o) == preprocessed(input, o),
{
    lemma_cleaning_is_settled(cased(input, o.case_policy), o);
}

fn apply_hyphen_policy(input: &Vec<char>, policy: HyphenPolicy) -> (r: Vec<char>)
    ensures
        r@ == hyphens_normalised(input@, policy),
{
    let mut output: Vec<char> = Vec::new();
    let mut i: usize = 0;
    while i < input.len()
        invariant
            i <= input.len(),
            output@ == hyphens_normalised(input@.take(i as int), policy),
        decreases input.len() - i,
    {
        let ch = input[i];
        assert(input@.take(i + 1).drop_last() =~= input@.take(i as int));
        if is_hyphen(ch) {
            match policy {
                HyphenPolicy::Remove => {},
                _ => output.push('-'),
            }
        } else {
            output.push(ch);
        }
        i = i + 1;
    }
    assert(input@.take(input.len() as int) =~= input@);
    output
}

fn space_punctuation(input: &Vec<char>, hyphen_policy: HyphenPolicy) -> (r: Vec<char>)
    ensures
        r@ == input@.map_values(|c: char| punctuation_spaced(c, hyphen_policy)),
{
    let mut output: Vec<char> = Vec::new();
    let mut i: usize = 0;
    while i < input.len()
        invariant
            i <= input.len(),
            output@ == input@.take(i as int).map_values(
                |c: char| punctuation_spaced(c, hyphen_policy),
            ),
        decreases input.len() - i,
    {
        let ch = input[i];
        let mapped = if is_hyphen(ch) && (hyphen_policy == HyphenPolicy::MorphemeBoundary
            || hyphen_policy == HyphenPolicy::WordInternal) {
            ch
        } else if is_punctuation(ch) {
            ' '
        } else {
            ch
        };
        output.push(mapped);
        assert(input@.take(i + 1).map_values(|c: char| punctuation_spaced(c, hyphen_policy))
            =~= input@.take(i as int).map_values(
            |c: char| punctuation_spaced(c, hyphen_policy),
        ).push(mapped));
        i = i + 1;
    }
    assert(input@.take(input.len() as int) =~= input@);
    output
}

fn collapse_whitespace_chars(input: &Vec<char>) -> (r: Vec<char>)
    ensures
        r@ == collapse_whitespace(input@),
{
    let mut output: Vec<char> = Vec::new();
    let mut last_was_space = false;
    let mut i: usize = 0;
    while i < input.len()
        invariant
            i <= input.len(),
            output@ == collapse_whitespace(input@.take(i as int)),
            last_was_space == (i > 0 && is_white_space(input@[i - 1])),
        decreases input.len() - i,
    {
        let ch = input[i];
        let ghost t = input@.take(i + 1);
        assert(t.drop_last() =~= input@.take(i as int));
        assert(i >= 1 ==> t[t.len() - 2] == input@[i - 1]);
        if is_whitespace(ch) {
            if !last_was_space {
                output.push(' ');
                last_was_space = true;
            }
        } else {
            output.push(ch);
            last_was_space = false;
        }
        i = i + 1;
    }
    assert(input@.take(input.len() as int) =~= input@);
    output
}

/// A text whose case policy is already applied, cleaned by the hyphen,
/// punctuation and whitespace policies of `options`.
pub fn clean_cased_text(cased_text: &str, options: &AnalyseOptions) -> (r: String)
    ensures
        r@ == cleaned_after_case(cased_text@, *options),
{
    let chars = chars_of(cased_text);
    let mut output = apply_hyphen_policy(&chars, options.hyphen_policy);
    if options.punctuation_policy == PunctuationPolicy::Remove {
        output = space_punctuation(&output, options.hyphen_policy);
    }
    if options.whitespace_policy == WhitespacePolicy::Normalise {
        let collapsed = collapse_whitespace_chars(&output);
        output = trim_chars(&collapsed);
    }
    string_from_chars(&output)
}

/// The text as the case, hyphen, punctuation and whitespace policies of
/// `options` clean it.
pub fn preprocess_text(input: &str, options: &AnalyseOptions) -> (r: String)
    ensures
        r@ == preprocessed(input@, *options),
        options.whitespace_policy == WhitespacePolicy::Normalise ==> spacing_normalised(r@),
{
    proof {
        if options.whitespace_policy == WhitespacePolicy::Normalise {
            lemma_normalised_spacing(input@, *options);
        }
    }
    let cased_text = match options.case_policy {
        CasePolicy::Preserve => owned(input),
        CasePolicy::Lowercase => str_to_lowercase(input),
    };
    clean_cased_text(cased_text.as_str(), options)
}

// ---------------------------------------------------------------------------
// Word tokens
// ---------------------------------------------------------------------------

/// Characters that end a token: anything neither alphanumeric nor `_`, and
/// hyphens unless the hyphen policy keeps them inside words.
pub open spec fn is_token_separator(c: char, hp: HyphenPolicy) -> bool {
    if c == '_' {
        false
    } else if is_hyphen_char(c) {
        hp != HyphenPolicy::WordInternal
    } else {
        !unicode_alphanumeric(c)
    }
}

/// The pieces between separators (`str::split`), empty pieces included.
pub open spec fn split_pieces(s: Seq<char>, hp: HyphenPolicy) -> Seq<Seq<char>>
    decreases s.len(),
{
    if s.len() == 0 {
        seq![Seq::empty()]
    } else {
        let p = split_pieces(s.drop_last(), hp);
        if is_token_separator(s.last(), hp) {
            p.push(Seq::empty())
        } else {
            p.update(p.len() - 1, p.last().push(s.last()))
        }
    }
}

/// The trimmed, non-empty pieces, lowercased.
pub open spec fn tokens_of_pieces(p: Seq<Seq<char>>) -> Seq<Seq<char>>
    decreases p.len(),
{
    if p.len() == 0 {
        Seq::empty()
    } else {
        let t = tokens_of_pieces(p.drop_last());
        let w = trimmed(p.last());
        if w.len() > 0 {
            t.push(lowercase_of(w))
        } else {
            t
        }
    }
}

/// The word tokens of a text under the hyphen policy.
pub open spec fn word_tokens(s: Seq<char>, hp: HyphenPolicy) -> Seq<Seq<char>> {
    tokens_of_pieces(split_pieces(s, hp))
}

/// Whether a token separator under the hyphen policy.
fn token_separator(c: char, hyphen_policy: HyphenPolicy) -> (r: bool)
    ensures
        r == is_token_separator(c, hyphen_policy),
{
    if c == '_' {
        false
    } else if is_hyphen(c) {
        hyphen_policy != HyphenPolicy::WordInternal
    } else {
        !is_alphanumeric(c)
    }
}

/// Appends the token of one finished piece, if it has one.
fn push_piece_token(tokens: &mut Vec<String>, piece: &Vec<char>)
    ensures
        final(tokens).deep_view() == (if trimmed(piece@).len() > 0 {
            old(tokens).deep_view().push(lowercase_of(trimmed(piece@)))
        } else {
            old(tokens).deep_view()
        }),
{
    let word = trim_chars(piece);
    if word.len() > 0 {
        let s = string_from_chars(&word);
        let lowered = str_to_lowercase(s.as_str());
        let ghost before = tokens.deep_view();
        tokens.push(lowered);
        assert(tokens.deep_view() =~= before.push(lowercase_of(trimmed(piece@))));
    }
}

/// The lowercased word tokens of `text`: split at characters that are neither
/// alphanumeric nor `_` (and at hyphens unless kept inside words), trimmed,
/// empty pieces dropped.
pub fn tokenize_words(text: &str, hyphen_policy: HyphenPolicy) -> (r: Vec<String>)
    ensures
        r.deep_view() == word_tokens(text@, hyphen_policy),
{
    let chars = chars_of(text);
    let mut tokens: Vec<String> = Vec::new();
    let mut piece: Vec<char> = Vec::new();
    let ghost mut done: Seq<Seq<char>> = Seq::empty();
    let mut i: usize = 0;
    proof {
        assert(split_pieces(chars@.take(0), hyphen_policy) =~= done.push(piece@)) by {
            assert(chars@.take(0) =~= Seq::<char>::empty());
        }
    }
    while i < chars.len()
        invariant
            i <= chars.len(),
            chars@ == text@,
            split_pieces(chars@.take(i as int), hyphen_policy) == done.push(piece@),
            tokens.deep_view() == tokens_of_pieces(done),
        decreases chars.len() - i,
    {
        let ch = chars[i];
        assert(chars@.take(i + 1).drop_last() =~= chars@.take(i as int));
        if token_separator(ch, hyphen_policy) {
            push_piece_token(&mut tokens, &piece);
            proof {
                assert(done.push(piece@).drop_last() =~= done);
                done = done.push(piece@);
            }
            piece = Vec::new();
            assert(split_pieces(chars@.take(i + 1), hyphen_policy) =~= done.push(piece@));
        } else {
            piece.push(ch);
            assert(split_pieces(chars@.take(i + 1), hyphen_policy) =~= done.push(piece@));
        }
        i = i + 1;
    }
    push_piece_token(&mut tokens, &piece);
    proof {
        assert(done.push(piece@).drop_last() =~= done);
        assert(chars@.take(chars.len() as int) =~= chars@);
    }
    tokens
}

// ---------------------------------------------------------------------------
// Bit streams
// ---------------------------------------------------------------------------

/// The label of a bit.
pub open spec fn bit_label(b: bool) -> Seq<char> {
    if b {
        "1"@
    } else {
        "0"@
    }
}

/// Bit `j` of a byte counted from the most significant one (`j` in `0..8`).
pub open spec fn byte_bit(b: u8, j: int) -> bool {
    ((b >> ((7 - j) as u8)) & 1u8) == 1u8
}

/// The eight bit labels of a byte, most significant first.
pub open spec fn byte_bit_labels(b: u8) -> Seq<Seq<char>> {
    Seq::new(8, |j: int| bit_label(byte_bit(b, j)))
}

/// The bit labels of a byte string.
pub open spec fn bytes_bit_labels(bytes: Seq<u8>) -> Seq<Seq<char>>
    decreases bytes.len(),
{
    if bytes.len() == 0 {
        Seq::empty()
    } else {
        bytes_bit_labels(bytes.drop_last()) + byte_bit_labels(bytes.last())
    }
}

/// Positions whose label is `1`.
pub open spec fn bit_one_values(labels: Seq<Seq<char>>) -> Seq<bool> {
    labels.map_values(|l: Seq<char>| l == "1"@)
}

/// Positions whose label differs from the one before.
pub open spec fn transition_values(labels: Seq<Seq<char>>) -> Seq<bool> {
    Seq::new(labels.len(), |i: int| i > 0 && labels[i] != labels[i - 1])
}

/// The two event maps of a bit stream.
pub open spec fn bit_event_maps(labels: Seq<Seq<char>>) -> Seq<EventMapView> {
    seq![
        event_map_view("bit_one"@, "Positions where the bitstream contains 1."@, bit_one_values(labels)),
        event_map_view(
            "bit_transition"@,
            "Positions where the bitstream changes from the previous bit."@,
            transition_values(labels),
        ),
    ]
}

/// The note on raw UTF-8 bit analysis.
pub open spec fn utf8_bits_note() -> Seq<char> {
    "E0 raw UTF-8 bit analysis is diagnostic only. Raw-byte findings are not linguistic evidence without cross-encoding support."@
}

/// The encoding of a text as the bits of its UTF-8 bytes.
pub open spec fn utf8_bits_encoding(text: Seq<char>) -> EncodedView {
    let labels = bytes_bit_labels(vstd::utf8::encode_utf8(text));
    EncodedView {
        kind: EncodingKind::Utf8Bits,
        labels,
        event_maps: bit_event_maps(labels),
        notes: seq![utf8_bits_note()],
    }
}

/// `c` is a literal bit character.
pub open spec fn is_bit_char(c: char) -> bool {
    c == '0' || c == '1'
}

/// The bit labels of the literal `0` and `1` characters of a text.
pub open spec fn bit_text_labels(s: Seq<char>) -> Seq<Seq<char>>
    decreases s.len(),
{
    if s.len() == 0 {
        Seq::empty()
    } else {
        let r = bit_text_labels(s.drop_last());
        if is_bit_char(s.last()) {
            r.push(seq![s.last()])
        } else {
            r
        }
    }
}

/// The number of characters that are neither bits nor white space.
pub open spec fn ignored_non_bits(s: Seq<char>) -> nat
    decreases s.len(),
{
    if s.len() == 0 {
        0
    } else {
        ignored_non_bits(s.drop_last()) + (if !is_bit_char(s.last()) && !is_white_space(s.last()) {
            1nat
        } else {
            0nat
        })
    }
}

/// The note on bit-text analysis.
pub open spec fn bit_text_note() -> Seq<char> {
    "E0b bit-text analysis treats literal '0' and '1' characters as the bitstream itself. This is the correct control mode for random-bit text files."@
}

/// The note counting the characters skipped while reading bits.
pub open spec fn ignored_note(n: nat) -> Seq<char> {
    "Ignored "@ + decimal(n)
        + " non-bit, non-whitespace characters while building the bit_text stream."@
}

/// The note on an empty bit stream.
pub open spec fn no_bits_note() -> Seq<char> {
    "No literal 0/1 bits were found; bit_text metrics will be degenerate."@
}

/// The notes of a bit-text encoding.
pub open spec fn bit_text_notes(s: Seq<char>) -> Seq<Seq<char>> {
    let n1 = seq![bit_text_note()];
    let n2 = if ignored_non_bits(s) > 0 {
        n1.push(ignored_note(ignored_non_bits(s)))
    } else {
        n1
    };
    if bit_text_labels(s).len() == 0 {
        n2.push(no_bits_note())
    } else {
        n2
    }
}

/// The encoding of a text's literal `0` and `1` characters as a bit stream.
pub open spec fn bit_text_encoding(text: Seq<char>) -> EncodedView {
    let labels = bit_text_labels(text);
    EncodedView {
        kind: EncodingKind::BitText,
        labels,
        event_maps: bit_event_maps(labels),
        notes: bit_text_notes(text),
    }
}

fn build_bit_sequence(kind: EncodingKind, labels: Vec<String>, notes: Vec<String>) -> (r: EncodedSequence)
    ensures
        r@ == (EncodedView {
            kind,
            labels: labels.deep_view(),
            event_maps: bit_event_maps(labels.deep_view()),
            notes: notes.deep_view(),
        }),
{
    let mut bit_one: Vec<bool> = Vec::new();
    let mut transition: Vec<bool> = Vec::new();
    let ghost lv = labels.deep_view();
    let mut i: usize = 0;
    while i < labels.len()
        invariant
            i <= labels.len(),
            lv == labels.deep_view(),
            bit_one@ == bit_one_values(lv).take(i as int),
            transition@ == transition_values(lv).take(i as int),
        decreases labels.len() - i,
    {
        let one = str_equal(labels[i].as_str(), "1");
        bit_one.push(one);
        let changed = if i == 0 {
            false
        } else {
            !str_equal(labels[i].as_str(), labels[i - 1].as_str())
        };
        transition.push(changed);
        assert(bit_one@ =~= bit_one_values(lv).take(i + 1));
        assert(transition@ =~= transition_values(lv).take(i + 1));
        i = i + 1;
    }
    assert(bit_one_values(lv).take(labels.len() as int) =~= bit_one_values(lv));
    assert(transition_values(lv).take(labels.len() as int) =~= transition_values(lv));
    let mut event_maps: Vec<EventMap> = Vec::new();
    event_maps.push(EventMap::new("bit_one", owned("Positions where the bitstream contains 1."), bit_one));
    event_maps.push(
        EventMap::new(
            "bit_transition",
            owned("Positions where the bitstream changes from the previous bit."),
            transition,
        ),
    );
    let r = EncodedSequence { kind, labels, event_maps, notes };
    assert(r.event_maps.deep_view() =~= bit_event_maps(lv));
    r
}

fn bit_string(b: bool) -> (r: String)
    ensures
        r@ == bit_label(b),
{
    if b {
        owned("1")
    } else {
        owned("0")
    }
}

fn encode_utf8_bits(text: &str) -> (r: EncodedSequence)
    ensures
        r@ == utf8_bits_encoding(text@),
{
    let bytes = text.as_bytes();
    let mut labels: Vec<String> = Vec::new();
    let mut k: usize = 0;
    while k < bytes.len()
        invariant
            k <= bytes.len(),
            bytes@ == vstd::utf8::encode_utf8(text@),
            labels.deep_view() == bytes_bit_labels(bytes@.take(k as int)),
        decreases bytes.len() - k,
    {
        let byte = bytes[k];
        assert(bytes@.take(k + 1).drop_last() =~= bytes@.take(k as int));
        let ghost base = labels.deep_view();
        let mut j: u8 = 0;
        while j < 8
            invariant
                j <= 8,
                labels.deep_view() == base + byte_bit_labels(byte).take(j as int),
            decreases 8 - j,
        {
            let bit = (byte >> (7 - j)) & 1u8;
            let ghost before = labels.deep_view();
            labels.push(bit_string(bit == 1u8));
            assert(labels.deep_view() =~= before.push(bit_label(bit == 1u8)));
            assert(byte_bit_labels(byte).take(j + 1) =~= byte_bit_labels(byte).take(j as int).push(
                bit_label(byte_bit(byte, j as int)),
            ));
            j = j + 1;
        }
        assert(byte_bit_labels(byte).take(8) =~= byte_bit_labels(byte));
        k = k + 1;
    }
    assert(bytes@.take(bytes.len() as int) =~= bytes@);
    let mut notes: Vec<String> = Vec::new();
    notes.push(
        owned(
            "E0 raw UTF-8 bit analysis is diagnostic only. Raw-byte findings are not linguistic evidence without cross-encoding support.",
        ),
    );
    let r = build_bit_sequence(EncodingKind::Utf8Bits, labels, notes);
    assert(r@.notes =~= seq![utf8_bits_note()]);
    r
}

fn encode_bit_text(text: &str) -> (r: EncodedSequence)
    ensures
        r@ == bit_text_encoding(text@),
{
    let chars = chars_of(text);
    let mut labels: Vec<String> = Vec::new();
    let mut ignored_non_bit: usize = 0;
    let mut i: usize = 0;
    while i < chars.len()
        invariant
            i <= chars.len(),
            chars@ == text@,
            ignored_non_bit <= i,
            labels.deep_view() == bit_text_labels(chars@.take(i as int)),
            ignored_non_bit == ignored_non_bits(chars@.take(i as int)),
        decreases chars.len() - i,
    {
        let ch = chars[i];
        assert(chars@.take(i + 1).drop_last() =~= chars@.take(i as int));
        if ch == '0' || ch == '1' {
            let ghost before = labels.deep_view();
            labels.push(char_string(ch));
            assert(labels.deep_view() =~= before.push(seq![ch]));
        } else if !is_whitespace(ch) {
            ignored_non_bit = ignored_non_bit + 1;
        }
        i = i + 1;
    }
    assert(chars@.take(chars.len() as int) =~= chars@);
    let mut notes: Vec<String> = Vec::new();
    notes.push(
        owned(
            "E0b bit-text analysis treats literal '0' and '1' characters as the bitstream itself. This is the correct control mode for random-bit text files.",
        ),
    );
    if ignored_non_bit > 0 {
        let count = usize_decimal(ignored_non_bit);
        notes.push(
            concat3(
                "Ignored ",
                count.as_str(),
                " non-bit, non-whitespace characters while building the bit_text stream.",
            ),
        );
    }
    if labels.len() == 0 {
        notes.push(owned("No literal 0/1 bits were found; bit_text metrics will be degenerate."));
    }
    let ghost nv = notes.deep_view();
    assert(nv =~= bit_text_notes(text@));
    build_bit_sequence(EncodingKind::BitText, labels, notes)
}

// ---------------------------------------------------------------------------
// Character streams
// ---------------------------------------------------------------------------

/// The per-character tests behind the common event maps, by slot: vowel,
/// consonant, whitespace, punctuation, hyphen boundary, digit.
pub open spec fn char_flag(c: char, which: nat, hp: HyphenPolicy) -> bool {
    if which == 0 {
        is_vowel_char(c)
    } else if which == 1 {
        unicode_alphabetic(c) && !is_vowel_char(c)
    } else if which == 2 {
        is_white_space(c)
    } else if which == 3 {
        punct_under_policy(c, hp)
    } else if which == 4 {
        is_hyphen_boundary(c, hp)
    } else {
        is_ascii_digit_char(c)
    }
}

/// The test of slot `which` at every position.
pub open spec fn char_flags_of(chars: Seq<char>, which: nat, hp: HyphenPolicy) -> Seq<bool> {
    chars.map_values(|c: char| char_flag(c, which, hp))
}

/// The six character event maps shared by the character encodings.
pub open spec fn common_char_event_maps(chars: Seq<char>, hp: HyphenPolicy) -> Seq<EventMapView> {
    seq![
        event_map_view("vowel"@, "Basic Latin-vowel positions plus common accented vowels."@, char_flags_of(chars, 0, hp)),
        event_map_view("consonant"@, "Alphabetic non-vowel positions under the MVP classifier."@, char_flags_of(chars, 1, hp)),
        event_map_view("whitespace"@, "Whitespace positions."@, char_flags_of(chars, 2, hp)),
        event_map_view("punctuation"@, "Punctuation positions under the declared punctuation/hyphen policies."@, char_flags_of(chars, 3, hp)),
        event_map_view("hyphen_boundary"@, "Hyphen positions treated as morpheme boundaries by the declared hyphen policy."@, char_flags_of(chars, 4, hp)),
        event_map_view("digit"@, "ASCII digit positions."@, char_flags_of(chars, 5, hp)),
    ]
}

/// The note of the grapheme encoding that names the hyphen policy.
pub open spec fn grapheme_policy_note(hp: HyphenPolicy) -> Seq<char> {
    "Hyphen policy for this run: "@ + hyphen_policy_name(hp) + "."@
}

/// The encoding of a text as its characters.
pub open spec fn grapheme_encoding(text: Seq<char>, hp: HyphenPolicy) -> EncodedView {
    EncodedView {
        kind: EncodingKind::Grapheme,
        labels: text.map_values(|c: char| seq![c]),
        event_maps: common_char_event_maps(text, hp),
        notes: seq![
            "MVP E1 uses Unicode scalar values as a deterministic grapheme approximation. True extended grapheme-cluster segmentation is a planned later extension."@,
            grapheme_policy_note(hp),
        ],
    }
}

/// The classes of the grapheme-class encoding, in event-map order.
pub open spec fn class_names() -> Seq<Seq<char>> {
    seq![
        "vowel"@,
        "consonant"@,
        "digit"@,
        "whitespace"@,
        "punctuation"@,
        "hyphen_boundary"@,
        "other"@,
    ]
}

/// Positions whose label is `label`.
pub open spec fn label_flags(labels: Seq<Seq<char>>, label: Seq<char>) -> Seq<bool> {
    labels.map_values(|l: Seq<char>| l == label)
}

/// The event map of one class of the grapheme-class encoding.
pub open spec fn class_event_map(labels: Seq<Seq<char>>, class: Seq<char>) -> EventMapView {
    event_map_view(
        class,
        "Positions classified as "@ + class + " in the grapheme-class stream."@,
        label_flags(labels, class),
    )
}

/// The encoding of a text as the classes of its characters.
pub open spec fn grapheme_class_encoding(text: Seq<char>, hp: HyphenPolicy) -> EncodedView {
    let labels = text.map_values(|c: char| char_class_name(c, hp));
    EncodedView {
        kind: EncodingKind::GraphemeClass,
        labels,
        event_maps: class_names().map_values(|c: Seq<char>| class_event_map(labels, c)),
        notes: seq![
            "E2 maps Unicode scalar values into broad grapheme classes. Hyphen policy: "@
                + hyphen_policy_name(hp) + "."@,
        ],
    }
}

/// The label of a word-boundary position.
pub open spec fn boundary_label(b: bool) -> Seq<char> {
    if b {
        "boundary"@
    } else {
        "non_boundary"@
    }
}

/// The encoding of a text as white-space word boundaries.
pub open spec fn word_boundary_encoding(text: Seq<char>) -> EncodedView {
    EncodedView {
        kind: EncodingKind::WordBoundary,
        labels: text.map_values(|c: char| boundary_label(is_white_space(c))),
        event_maps: seq![
            event_map_view(
                "word_boundary"@,
                "Positions marked as word boundaries after declared whitespace preprocessing."@,
                text.map_values(|c: char| is_white_space(c)),
            ),
        ],
        notes: seq![
            "E6 MVP word boundaries are whitespace-derived and should be interpreted as orthographic/token boundaries."@,
        ],
    }
}

/// The frequency class of a token occurring `n` times.
pub open spec fn frequency_label(n: nat) -> Seq<char> {
    if n == 1 {
        "hapax"@
    } else if n >= 5 {
        "high_frequency"@
    } else if n >= 2 {
        "mid_frequency"@
    } else {
        "other"@
    }
}

/// The frequency class of every token, counted within the tokens themselves.
pub open spec fn frequency_labels(tokens: Seq<Seq<char>>) -> Seq<Seq<char>> {
    tokens.map_values(|t: Seq<char>| frequency_label(count_of(tokens, t)))
}

/// A token's frequency class follows how often it occurs among the tokens:
/// `hapax` exactly when once, `mid_frequency` exactly when two to four times,
/// `high_frequency` exactly when five times or more.
pub proof fn lemma_frequency_classes(tokens: Seq<Seq<char>>, i: int)
    requires
        0 <= i < tokens.len(),
    ensures
        frequency_labels(tokens).len() == tokens.len(),
        (frequency_labels(tokens)[i] == "hapax"@) <==> count_of(tokens, tokens[i]) == 1,
        (frequency_labels(tokens)[i] == "mid_frequency"@) <==> (2 <= count_of(tokens, tokens[i])
            && count_of(tokens, tokens[i]) <= 4),
        (frequency_labels(tokens)[i] == "high_frequency"@) <==> count_of(tokens, tokens[i]) >= 5,
{
    reveal_strlit("hapax");
    reveal_strlit("mid_frequency");
    reveal_strlit("high_frequency");
    reveal_strlit("other");
    lemma_count_of_present(tokens, i);
    assert("hapax"@[0] != "other"@[0]);
    assert("hapax"@ != "other"@);
    assert("hapax"@ != "mid_frequency"@);
    assert("hapax"@.len() != "high_frequency"@.len());
    assert("hapax"@ != "high_frequency"@);
    assert("mid_frequency"@[0] != "high_frequency"@[0]);
    assert("mid_frequency"@ != "high_frequency"@);
    assert("mid_frequency"@ != "other"@);
    assert("high_frequency"@ != "other"@);
    assert(frequency_labels(tokens)[i] == frequency_label(count_of(tokens, tokens[i])));
}

proof fn lemma_count_of_present(tokens: Seq<Seq<char>>, i: int)
    requires
        0 <= i < tokens.len(),
    ensures
        count_of(tokens, tokens[i]) >= 1,
    decreases tokens.len(),
{
    if i < tokens.len() - 1 {
        lemma_count_of_present(tokens.drop_last(), i);
    }
}

/// The classes of the frequency-class encoding, in event-map order.
pub open spec fn frequency_class_names() -> Seq<Seq<char>> {
    seq!["hapax"@, "mid_frequency"@, "high_frequency"@]
}

/// The event map of one frequency class.
pub open spec fn frequency_event_map(labels: Seq<Seq<char>>, class: Seq<char>) -> EventMapView {
    event_map_view(
        class,
        "Token positions in frequency class "@ + class + "."@,
        label_flags(labels, class),
    )
}

/// The encoding of a text as the frequency classes of its word tokens.
pub open spec fn frequency_class_encoding(text: Seq<char>, hp: HyphenPolicy) -> EncodedView {
    let labels = frequency_labels(word_tokens(text, hp));
    EncodedView {
        kind: EncodingKind::FrequencyClass,
        labels,
        event_maps: frequency_class_names().map_values(
            |c: Seq<char>| frequency_event_map(labels, c),
        ),
        notes: seq![
            "E7 MVP frequency classes are calculated inside the supplied sample only. Hyphen policy: "@
                + hyphen_policy_name(hp) + "."@,
        ],
    }
}

/// The encoding of `text` of kind `kind` under the hyphen policy.
pub open spec fn encoding_of(text: Seq<char>, kind: EncodingKind, hp: HyphenPolicy) -> EncodedView {
    match kind {
        EncodingKind::Utf8Bits => utf8_bits_encoding(text),
        EncodingKind::BitText => bit_text_encoding(text),
        EncodingKind::Grapheme => grapheme_encoding(text, hp),
        EncodingKind::GraphemeClass => grapheme_class_encoding(text, hp),
        EncodingKind::WordBoundary => word_boundary_encoding(text),
        EncodingKind::FrequencyClass => frequency_class_encoding(text, hp),
    }
}

/// The event maps of the label-based encodings mark exactly the positions
/// whose label is the map's name: each grapheme-class and frequency-class map
/// marks its own class, the word-boundary map marks the `boundary` labels, and
/// for the bit encodings `bit_one` marks the `1` labels and `bit_transition`
/// the labels that differ from the one before.
pub proof fn lemma_event_maps_follow_labels(text: Seq<char>, kind: EncodingKind, hp: HyphenPolicy)
    ensures
        ({
            let e = encoding_of(text, kind, hp);
            &&& (kind == EncodingKind::GraphemeClass || kind == EncodingKind::FrequencyClass)
                ==> forall|m: int, i: int|
                0 <= m < e.event_maps.len() && 0 <= i < e.labels.len() ==> (#[trigger] e.event_maps[m].values[i]
                    <==> e.labels[i] == e.event_maps[m].name)
            &&& kind == EncodingKind::WordBoundary ==> e.event_maps.len() == 1 && forall|i: int|
                0 <= i < e.labels.len() ==> (#[trigger] e.event_maps[0].values[i] <==> e.labels[i]
                    == "boundary"@)
            &&& (kind == EncodingKind::Utf8Bits || kind == EncodingKind::BitText)
                ==> e.event_maps.len() == 2 && forall|i: int|
                0 <= i < e.labels.len() ==> ((#[trigger] e.event_maps[0].values[i] <==> e.labels[i]
                    == "1"@) && (e.event_maps[1].values[i] <==> (i > 0 && e.labels[i] != e.labels[i
                    - 1])))
        }),
{
    lemma_event_maps_cover_labels(text, kind, hp);
    reveal_strlit("boundary");
    reveal_strlit("non_boundary");
    assert("boundary"@.len() != "non_boundary"@.len());
    let e = encoding_of(text, kind, hp);
    if kind == EncodingKind::WordBoundary {
        assert forall|i: int| 0 <= i < e.labels.len() implies (#[trigger] e.event_maps[0].values[i]
            <==> e.labels[i] == "boundary"@) by {
            assert(e.labels[i] == boundary_label(is_white_space(text[i])));
        }
    }
}

/// Every event map covers the positions of the label stream.
pub open spec fn maps_cover_labels(e: EncodedView) -> bool {
    forall|m: int| 0 <= m < e.event_maps.len() ==> #[trigger] e.event_maps[m].values.len() == e.labels.len()
}

fn char_flag_exec(c: char, which: u8, hyphen_policy: HyphenPolicy) -> (r: bool)
    ensures
        r == char_flag(c, which as nat, hyphen_policy),
{
    if which == 0 {
        is_basic_vowel(c)
    } else if which == 1 {
        is_alphabetic(c) && !is_basic_vowel(c)
    } else if which == 2 {
        is_whitespace(c)
    } else if which == 3 {
        punctuation_under_policy(c, hyphen_policy)
    } else if which == 4 {
        is_hyphen(c) && hyphen_policy == HyphenPolicy::MorphemeBoundary
    } else {
        is_ascii_digit(c)
    }
}

fn char_flags(chars: &Vec<char>, which: u8, hyphen_policy: HyphenPolicy) -> (r: Vec<bool>)
    ensures
        r@ == char_flags_of(chars@, which as nat, hyphen_policy),
{
    let mut r: Vec<bool> = Vec::new();
    let mut i: usize = 0;
    while i < chars.len()
        invariant
            i <= chars.len(),
            r@ == char_flags_of(chars@.take(i as int), which as nat, hyphen_policy),
        decreases chars.len() - i,
    {
        r.push(char_flag_exec(chars[i], which, hyphen_policy));
        assert(char_flags_of(chars@.take(i + 1), which as nat, hyphen_policy) =~= char_flags_of(
            chars@.take(i as int),
            which as nat,
            hyphen_policy,
        ).push(char_flag(chars@[i as int], which as nat, hyphen_policy)));
        i = i + 1;
    }
    assert(chars@.take(chars.len() as int) =~= chars@);
    r
}

fn build_common_char_event_maps(chars: &Vec<char>, hyphen_policy: HyphenPolicy) -> (r: Vec<EventMap>)
    ensures
        r.deep_view() == common_char_event_maps(chars@, hyphen_policy),
{
    let mut r: Vec<EventMap> = Vec::new();
    r.push(EventMap::new("vowel", owned("Basic Latin-vowel positions plus common accented vowels."), char_flags(chars, 0, hyphen_policy)));
    r.push(EventMap::new("consonant", owned("Alphabetic non-vowel positions under the MVP classifier."), char_flags(chars, 1, hyphen_policy)));
    r.push(EventMap::new("whitespace", owned("Whitespace positions."), char_flags(chars, 2, hyphen_policy)));
    r.push(EventMap::new("punctuation", owned("Punctuation positions under the declared punctuation/hyphen policies."), char_flags(chars, 3, hyphen_policy)));
    r.push(EventMap::new("hyphen_boundary", owned("Hyphen positions treated as morpheme boundaries by the declared hyphen policy."), char_flags(chars, 4, hyphen_policy)));
    r.push(EventMap::new("digit", owned("ASCII digit positions."), char_flags(chars, 5, hyphen_policy)));
    assert(r.deep_view() =~= common_char_event_maps(chars@, hyphen_policy));
    r
}

fn policy_note(prefix: &str, hyphen_policy: HyphenPolicy) -> (r: String)
    ensures
        r@ == prefix@ + hyphen_policy_name(hyphen_policy) + "."@,
{
    concat3(prefix, hyphen_policy.as_str(), ".")
}

fn encode_grapheme(text: &str, hyphen_policy: HyphenPolicy) -> (r: EncodedSequence)
    ensures
        r@ == grapheme_encoding(text@, hyphen_policy),
{
    let chars = chars_of(text);
    let mut labels: Vec<String> = Vec::new();
    let mut i: usize = 0;
    while i < chars.len()
        invariant
            i <= chars.len(),
            labels.deep_view() == chars@.take(i as int).map_values(|c: char| seq![c]),
        decreases chars.len() - i,
    {
        let ghost before = labels.deep_view();
        labels.push(char_string(chars[i]));
        assert(labels.deep_view() =~= before.push(seq![chars@[i as int]]));
        assert(labels.deep_view() =~= chars@.take(i + 1).map_values(|c: char| seq![c]));
        i = i + 1;
    }
    assert(chars@.take(chars.len() as int) =~= chars@);
    let mut notes: Vec<String> = Vec::new();
    notes.push(owned("MVP E1 uses Unicode scalar values as a deterministic grapheme approximation. True extended grapheme-cluster segmentation is a planned later extension."));
    notes.push(policy_note("Hyphen policy for this run: ", hyphen_policy));
    let event_maps = build_common_char_event_maps(&chars, hyphen_policy);
    let r = EncodedSequence { kind: EncodingKind::Grapheme, labels, event_maps, notes };
    assert(r@.notes =~= grapheme_encoding(text@, hyphen_policy).notes);
    r
}

fn label_matches(labels: &Vec<String>, label: &str) -> (r: Vec<bool>)
    ensures
        r@ == label_flags(labels.deep_view(), label@),
{
    let ghost lv = labels.deep_view();
    let mut r: Vec<bool> = Vec::new();
    let mut i: usize = 0;
    while i < labels.len()
        invariant
            i <= labels.len(),
            lv == labels.deep_view(),
            r@ == label_flags(lv.take(i as int), label@),
        decreases labels.len() - i,
    {
        let m = str_equal(labels[i].as_str(), label);
        r.push(m);
        assert(label_flags(lv.take(i + 1), label@) =~= label_flags(lv.take(i as int), label@).push(m));
        i = i + 1;
    }
    assert(lv.take(labels.len() as int) =~= lv);
    r
}

fn class_map(labels: &Vec<String>, class: &str) -> (r: EventMap)
    ensures
        r@ == class_event_map(labels.deep_view(), class@),
{
    let description = concat3("Positions classified as ", class, " in the grapheme-class stream.");
    EventMap::new(class, description, label_matches(labels, class))
}

fn encode_grapheme_class(text: &str, hyphen_policy: HyphenPolicy) -> (r: EncodedSequence)
    ensures
        r@ == grapheme_class_encoding(text@, hyphen_policy),
{
    let chars = chars_of(text);
    let mut labels: Vec<String> = Vec::new();
    let mut i: usize = 0;
    while i < chars.len()
        invariant
            i <= chars.len(),
            labels.deep_view() == chars@.take(i as int).map_values(
                |c: char| char_class_name(c, hyphen_policy),
            ),
        decreases chars.len() - i,
    {
        let ghost before = labels.deep_view();
        labels.push(owned(char_class(chars[i], hyphen_policy)));
        assert(labels.deep_view() =~= before.push(char_class_name(chars@[i as int], hyphen_policy)));
        assert(labels.deep_view() =~= chars@.take(i + 1).map_values(
            |c: char| char_class_name(c, hyphen_policy),
        ));
        i = i + 1;
    }
    assert(chars@.take(chars.len() as int) =~= chars@);
    let mut event_maps: Vec<EventMap> = Vec::new();
    event_maps.push(class_map(&labels, "vowel"));
    event_maps.push(class_map(&labels, "consonant"));
    event_maps.push(class_map(&labels, "digit"));
    event_maps.push(class_map(&labels, "whitespace"));
    event_maps.push(class_map(&labels, "punctuation"));
    event_maps.push(class_map(&labels, "hyphen_boundary"));
    event_maps.push(class_map(&labels, "other"));
    let mut notes: Vec<String> = Vec::new();
    notes.push(policy_note("E2 maps Unicode scalar values into broad grapheme classes. Hyphen policy: ", hyphen_policy));
    let r = EncodedSequence { kind: EncodingKind::GraphemeClass, labels, event_maps, notes };
    assert(r@.event_maps =~= grapheme_class_encoding(text@, hyphen_policy).event_maps);
    assert(r@.notes =~= grapheme_class_encoding(text@, hyphen_policy).notes);
    r
}

fn encode_word_boundary(text: &str) -> (r: EncodedSequence)
    ensures
        r@ == word_boundary_encoding(text@),
{
    let chars = chars_of(text);
    let mut labels: Vec<String> = Vec::new();
    let mut values: Vec<bool> = Vec::new();
    let mut i: usize = 0;
    while i < chars.len()
        invariant
            i <= chars.len(),
            labels.deep_view() == chars@.take(i as int).map_values(
                |c: char| boundary_label(is_white_space(c)),
            ),
            values@ == chars@.take(i as int).map_values(|c: char| is_white_space(c)),
        decreases chars.len() - i,
    {
        let boundary = is_whitespace(chars[i]);
        let ghost before = labels.deep_view();
        labels.push(
            if boundary {
                owned("boundary")
            } else {
                owned("non_boundary")
            },
        );
        values.push(boundary);
        assert(labels.deep_view() =~= before.push(boundary_label(boundary)));
        assert(labels.deep_view() =~= chars@.take(i + 1).map_values(
            |c: char| boundary_label(is_white_space(c)),
        ));
        assert(values@ =~= chars@.take(i + 1).map_values(|c: char| is_white_space(c)));
        i = i + 1;
    }
    assert(chars@.take(chars.len() as int) =~= chars@);
    let mut event_maps: Vec<EventMap> = Vec::new();
    event_maps.push(EventMap::new("word_boundary", owned("Positions marked as word boundaries after declared whitespace preprocessing."), values));
    let mut notes: Vec<String> = Vec::new();
    notes.push(owned("E6 MVP word boundaries are whitespace-derived and should be interpreted as orthographic/token boundaries."));
    let r = EncodedSequence { kind: EncodingKind::WordBoundary, labels, event_maps, notes };
    assert(r@.event_maps =~= word_boundary_encoding(text@).event_maps);
    assert(r@.notes =~= word_boundary_encoding(text@).notes);
    r
}

/// The index of the first string of `items` equal to `s`.
fn find_string(items: &Vec<String>, s: &str) -> (r: Option<usize>)
    ensures
        match r {
            Some(j) => j < items.len() && items.deep_view()[j as int] == s@,
            None => forall|j: int| 0 <= j < items.len() ==> items.deep_view()[j] != s@,
        },
{
    let mut j: usize = 0;
    while j < items.len()
        invariant
            j <= items.len(),
            forall|t: int| 0 <= t < j ==> items.deep_view()[t] != s@,
        decreases items.len() - j,
    {
        if str_equal(items[j].as_str(), s) {
            return Some(j);
        }
        j = j + 1;
    }
    None
}

fn frequency_class_label(count: usize) -> (r: &'static str)
    ensures
        r@ == frequency_label(count as nat),
{
    if count == 1 {
        "hapax"
    } else if count >= 5 {
        "high_frequency"
    } else if count >= 2 {
        "mid_frequency"
    } else {
        "other"
    }
}

/// The frequency class of every token, counted within the tokens themselves:
/// `hapax` once, `mid_frequency` two to four times, `high_frequency` five or more.
pub fn frequency_class_labels(tokens: &Vec<String>) -> (r: Vec<String>)
    ensures
        r.deep_view() == frequency_labels(tokens.deep_view()),
{
    let ghost tv = tokens.deep_view();
    let mut distinct: Vec<String> = Vec::new();
    let mut counts: Vec<usize> = Vec::new();
    let mut k: usize = 0;
    while k < tokens.len()
        invariant
            k <= tokens.len(),
            tv == tokens.deep_view(),
            distinct.len() == counts.len(),
            forall|j: int|
                0 <= j < counts.len() ==> #[trigger] counts@[j] == count_of(
                    tv.take(k as int),
                    distinct.deep_view()[j],
                ),
            forall|j: int| 0 <= j < counts.len() ==> #[trigger] counts@[j] <= k,
            forall|i: int, j: int|
                0 <= i < j < distinct.len() ==> distinct.deep_view()[i] != distinct.deep_view()[j],
            forall|x: Seq<char>|
                #[trigger] count_of(tv.take(k as int), x) > 0 ==> exists|j: int|
                    0 <= j < distinct.len() && distinct.deep_view()[j] == x,
        decreases tokens.len() - k,
    {
        let ghost pre = tv.take(k as int);
        let ghost post = tv.take(k + 1);
        assert(post.drop_last() =~= pre);
        let ghost tok = tv[k as int];
        assert(post.last() == tok);
        let ghost dv = distinct.deep_view();
        match find_string(&distinct, tokens[k].as_str()) {
            Some(j) => {
                let c = counts[j];
                counts.set(j, c + 1);
                assert forall|t: int| 0 <= t < counts.len() implies #[trigger] counts@[t]
                    == count_of(post, distinct.deep_view()[t]) by {
                    assert(count_of(post, dv[t]) == count_of(pre, dv[t]) + (if tok == dv[t] {
                        1nat
                    } else {
                        0nat
                    }));
                }
                assert forall|x: Seq<char>| #[trigger] count_of(post, x) > 0 implies exists|j: int|
                    0 <= j < distinct.len() && distinct.deep_view()[j] == x by {
                    assert(count_of(post, x) == count_of(pre, x) + (if tok == x {
                        1nat
                    } else {
                        0nat
                    }));
                }
            },
            None => {
                assert(count_of(pre, tok) == 0);
                distinct.push(owned(tokens[k].as_str()));
                counts.push(1);
                assert(distinct.deep_view() =~= dv.push(tok));
                assert forall|t: int| 0 <= t < counts.len() implies #[trigger] counts@[t]
                    == count_of(post, distinct.deep_view()[t]) by {
                    let x = distinct.deep_view()[t];
                    assert(count_of(post, x) == count_of(pre, x) + (if tok == x {
                        1nat
                    } else {
                        0nat
                    }));
                }
                assert forall|x: Seq<char>| #[trigger] count_of(post, x) > 0 implies exists|j: int|
                    0 <= j < distinct.len() && distinct.deep_view()[j] == x by {
                    assert(count_of(post, x) == count_of(pre, x) + (if tok == x {
                        1nat
                    } else {
                        0nat
                    }));
                    if tok == x {
                        assert(distinct.deep_view()[dv.len() as int] == x);
                    } else {
                        let j = choose|j: int| 0 <= j < dv.len() && dv[j] == x;
                        assert(distinct.deep_view()[j] == x);
                    }
                }
            },
        }
        k = k + 1;
    }
    assert(tv.take(tokens.len() as int) =~= tv);
    let mut labels: Vec<String> = Vec::new();
    let mut i: usize = 0;
    while i < tokens.len()
        invariant
            i <= tokens.len(),
            tv == tokens.deep_view(),
            distinct.len() == counts.len(),
            forall|j: int|
                0 <= j < counts.len() ==> #[trigger] counts@[j] == count_of(tv, distinct.deep_view()[j]),
            forall|x: Seq<char>|
                #[trigger] count_of(tv, x) > 0 ==> exists|j: int|
                    0 <= j < distinct.len() && distinct.deep_view()[j] == x,
            labels.deep_view() == frequency_labels(tv).take(i as int),
        decreases tokens.len() - i,
    {
        let ghost tok = tv[i as int];
        proof {
            lemma_count_of_nonzero(tv, i as int);
        }
        let count = match find_string(&distinct, tokens[i].as_str()) {
            Some(j) => counts[j],
            None => 0,
        };
        let ghost before = labels.deep_view();
        labels.push(owned(frequency_class_label(count)));
        assert(labels.deep_view() =~= before.push(frequency_label(count_of(tv, tok))));
        assert(frequency_labels(tv).take(i + 1) =~= frequency_labels(tv).take(i as int).push(
            frequency_label(count_of(tv, tok)),
        ));
        i = i + 1;
    }
    assert(frequency_labels(tv).take(tokens.len() as int) =~= frequency_labels(tv));
    labels
}

proof fn lemma_count_of_nonzero<T>(s: Seq<T>, i: int)
    requires
        0 <= i < s.len(),
    ensures
        count_of(s, s[i]) > 0,
    decreases s.len(),
{
    if i < s.len() - 1 {
        lemma_count_of_nonzero(s.drop_last(), i);
    }
}

/// The frequency-class map of `labels` for class `class`.
fn frequency_map(labels: &Vec<String>, class: &str) -> (r: EventMap)
    ensures
        r@ == frequency_event_map(labels.deep_view(), class@),
{
    let description = concat3("Token positions in frequency class ", class, ".");
    EventMap::new(class, description, label_matches(labels, class))
}

fn encode_frequency_class(text: &str, hyphen_policy: HyphenPolicy) -> (r: EncodedSequence)
    ensures
        r@ == frequency_class_encoding(text@, hyphen_policy),
{
    let tokens = tokenize_words(text, hyphen_policy);
    let labels = frequency_class_labels(&tokens);
    let mut event_maps: Vec<EventMap> = Vec::new();
    event_maps.push(frequency_map(&labels, "hapax"));
    event_maps.push(frequency_map(&labels, "mid_frequency"));
    event_maps.push(frequency_map(&labels, "high_frequency"));
    let mut notes: Vec<String> = Vec::new();
    notes.push(policy_note("E7 MVP frequency classes are calculated inside the supplied sample only. Hyphen policy: ", hyphen_policy));
    let r = EncodedSequence { kind: EncodingKind::FrequencyClass, labels, event_maps, notes };
    assert(r@.event_maps =~= frequency_class_encoding(text@, hyphen_policy).event_maps);
    assert(r@.notes =~= frequency_class_encoding(text@, hyphen_policy).notes);
    r
}

/// Every encoding's event maps cover exactly the positions of its label stream.
pub proof fn lemma_event_maps_cover_labels(text: Seq<char>, kind: EncodingKind, hp: HyphenPolicy)
    ensures
        maps_cover_labels(encoding_of(text, kind, hp)),
{
    let e = encoding_of(text, kind, hp);
    match kind {
        EncodingKind::GraphemeClass => {
            assert forall|m: int| 0 <= m < e.event_maps.len() implies #[trigger] e.event_maps[m].values.len()
                == e.labels.len() by {
                assert(e.event_maps[m] == class_event_map(e.labels, class_names()[m]));
            }
        },
        EncodingKind::FrequencyClass => {
            assert forall|m: int| 0 <= m < e.event_maps.len() implies #[trigger] e.event_maps[m].values.len()
                == e.labels.len() by {
                assert(e.event_maps[m] == frequency_event_map(e.labels, frequency_class_names()[m]));
            }
        },
        _ => {},
    }
}

/// `cleaned_text` encoded into the layer `kind`, with the hyphen policy of
/// `options` where the layer reads hyphens.
pub fn encode_text(cleaned_text: &str, kind: EncodingKind, options: &AnalyseOptions) -> (r: EncodedSequence)
    ensures
        r@ == encoding_of(cleaned_text@, kind, options.hyphen_policy),
        maps_cover_labels(r@),
{
    proof {
        lemma_event_maps_cover_labels(cleaned_text@, kind, options.hyphen_policy);
    }
    match kind {
        EncodingKind::Utf8Bits => encode_utf8_bits(cleaned_text),
        EncodingKind::BitText => encode_bit_text(cleaned_text),
        EncodingKind::Grapheme => encode_grapheme(cleaned_text, options.hyphen_policy),
        EncodingKind::GraphemeClass => encode_grapheme_class(cleaned_text, options.hyphen_policy),
        EncodingKind::WordBoundary => encode_word_boundary(cleaned_text),
        EncodingKind::FrequencyClass => encode_frequency_class(cleaned_text, options.hyphen_policy),
    }
}

} // verus!
