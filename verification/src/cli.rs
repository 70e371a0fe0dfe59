//! Command-line arguments: option lookup, run-option overrides and the
//! naming of batch outputs.
use vstd::prelude::*;

use crate::config::{
    find_char, first_index, lemma_first_index, strip_char, strip_char_chars, strip_leading, strip_trailing,
};
use crate::text::{
    ascii_lowercase, ascii_lowercase_chars, chars_of, concat3, decimal, is_ascii_alnum_char,
    is_ascii_alphanumeric, usize_decimal, concat2, eq_ignore_ascii_case, owned, parse_u64, parse_unsigned,
    lemma_trimmed_unchanged, parse_usize, str_equal, string_from_chars, string_push, sub_chars, trim_chars, trimmed,
};
use crate::types::{
    lemma_encoding_name_chars, lemma_encoding_name_roundtrip, case_policy_for_key, encoding_for_key, encoding_name, hyphen_policy_for_key, plain_key,
    punctuation_policy_for_key, underscore_key, whitespace_policy_for_key, AnalyseOptions, CasePolicy, message_text,
    EncodingKind, HyphenPolicy, OptionsView, PunctuationPolicy, RrlangError, WhitespacePolicy,
};

verus! {

// ---------------------------------------------------------------------------
// Looking up arguments
// ---------------------------------------------------------------------------

/// The views of a list of arguments.
pub open spec fn arg_views(args: Seq<String>) -> Seq<Seq<char>> {
    args.map_values(|a: String| a@)
}

/// `arg` is `key=` followed by a value.
pub open spec fn has_key_prefix(arg: Seq<char>, key: Seq<char>) -> bool {
    arg.len() > key.len() && arg.take(key.len() as int) == key && arg[key.len() as int] == '='
}

/// The value given for `key`, looking from argument `i` on: the argument after
/// the first one equal to `key` (nothing when there is none after it), or the
/// text after `key=` in the first argument of that form, whichever comes first.
pub open spec fn arg_value_from(args: Seq<Seq<char>>, key: Seq<char>, i: nat) -> Option<Seq<char>>
    decreases args.len() - i,
{
    if i >= args.len() {
        None
    } else if args[i as int] == key {
        if i + 1 < args.len() {
            Some(args[i + 1 as int])
        } else {
            None
        }
    } else if has_key_prefix(args[i as int], key) {
        Some(args[i as int].skip(key.len() + 1 as int))
    } else {
        arg_value_from(args, key, i + 1)
    }
}

/// The value given for `key` in `args`.
pub open spec fn arg_value(args: Seq<Seq<char>>, key: Seq<char>) -> Option<Seq<char>> {
    arg_value_from(args, key, 0)
}

/// The view of an optional string.
pub open spec fn opt_string(o: Option<String>) -> Option<Seq<char>> {
    match o {
        Some(s) => Some(s@),
        None => None,
    }
}

/// The text after `key=` when `arg` has that form.
fn strip_key_prefix(arg: &str, key: &str) -> (r: Option<Vec<char>>)
    ensures
        match r {
            Some(rest) => has_key_prefix(arg@, key@) && rest@ == arg@.skip(key@.len() + 1 as int),
            None => !has_key_prefix(arg@, key@),
        },
{
    let a = chars_of(arg);
    let k = chars_of(key);
    if a.len() <= k.len() {
        return None;
    }
    let mut i: usize = 0;
    while i < k.len()
        invariant
            i <= k.len() < a.len(),
            a@ == arg@,
            k@ == key@,
            forall|j: int| 0 <= j < i ==> a@[j] == k@[j],
        decreases k.len() - i,
    {
        if a[i] != k[i] {
            assert(a@.take(k.len() as int)[i as int] != k@[i as int]);
            return None;
        }
        i = i + 1;
    }
    assert(a@.take(k.len() as int) =~= k@);
    if a[k.len()] != '=' {
        assert(arg@[key@.len() as int] != '=');
        return None;
    }
    let rest = sub_chars(&a, k.len() + 1, a.len());
    assert(rest@ =~= a@.skip(k.len() + 1));
    Some(rest)
}

/// The value given for the option `key`: the argument after `key`, or the text
/// after `key=`, whichever form comes first.
pub fn get_arg_value(args: &[String], key: &str) -> (r: Option<String>)
    ensures
        opt_string(r) == arg_value(arg_views(args@), key@),
{
    let ghost views = arg_views(args@);
    let mut index: usize = 0;
    while index < args.len()
        invariant
            index <= args.len(),
            views == arg_views(args@),
            arg_value(views, key@) == arg_value_from(views, key@, index as nat),
        decreases args.len() - index,
    {
        assert(views[index as int] == args@[index as int]@);
        if str_equal(args[index].as_str(), key) {
            if index + 1 < args.len() {
                assert(views[index + 1] == args@[index + 1]@);
                return Some(owned(args[index + 1].as_str()));
            } else {
                return None;
            }
        }
        match strip_key_prefix(args[index].as_str(), key) {
            Some(rest) => {
                return Some(string_from_chars(&rest));
            },
            None => {},
        }
        index = index + 1;
    }
    None
}

/// Whether `flag` is one of the arguments.
pub fn has_flag(args: &[String], flag: &str) -> (r: bool)
    ensures
        r == arg_views(args@).contains(flag@),
{
    let ghost views = arg_views(args@);
    let mut index: usize = 0;
    while index < args.len()
        invariant
            index <= args.len(),
            views == arg_views(args@),
            forall|j: int| 0 <= j < index ==> views[j] != flag@,
        decreases args.len() - index,
    {
        if str_equal(args[index].as_str(), flag) {
            assert(views[index as int] == flag@);
            return true;
        }
        index = index + 1;
    }
    false
}

/// The value given for `first`, or else for `second`.
pub open spec fn either_value(args: Seq<Seq<char>>, first: Seq<char>, second: Seq<char>) -> Option<
    Seq<char>,
> {
    match arg_value(args, first) {
        Some(v) => Some(v),
        None => arg_value(args, second),
    }
}

/// The value given for `first`, or else for `second`.
fn get_either(args: &[String], first: &str, second: &str) -> (r: Option<String>)
    ensures
        opt_string(r) == either_value(arg_views(args@), first@, second@),
{
    match get_arg_value(args, first) {
        Some(v) => Some(v),
        None => get_arg_value(args, second),
    }
}

// ---------------------------------------------------------------------------
// Encoding lists
// ---------------------------------------------------------------------------

/// The encodings of a comma-separated list, in order: each item trimmed, blank
/// items skipped; the first item that names no encoding where there is one.
pub open spec fn encoding_list(s: Seq<char>) -> Result<Seq<EncodingKind>, Seq<char>>
    decreases s.len(),
{
    let i = first_index(s, ',');
    let name = trimmed(s.take(i as int));
    let rest = if i < s.len() {
        encoding_list(s.skip(i + 1 as int))
    } else {
        Ok(Seq::empty())
    };
    if name.len() == 0 {
        rest
    } else {
        match encoding_for_key(underscore_key(name)) {
            None => Err(name),
            Some(k) => match rest {
                Ok(ks) => Ok(seq![k] + ks),
                Err(e) => Err(e),
            },
        }
    }
}

/// `done` in front of the encodings of `rest`.
pub open spec fn prepend_kinds(done: Seq<EncodingKind>, rest: Result<Seq<EncodingKind>, Seq<char>>) -> Result<
    Seq<EncodingKind>,
    Seq<char>,
> {
    match rest {
        Ok(ks) => Ok(done + ks),
        Err(e) => Err(e),
    }
}

/// Parses a comma-separated list of encoding names.
pub fn parse_encoding_list(input: &str) -> (r: Result<Vec<EncodingKind>, RrlangError>)
    ensures
        match r {
            Ok(ks) => encoding_list(input@) == Ok::<Seq<EncodingKind>, Seq<char>>(ks@),
            Err(e) => e is Message && match encoding_list(input@) {
                Err(name) => message_text(e) == "Unknown encoding: "@ + name,
                Ok(_) => false,
            },
        },
{
    let s = chars_of(input);
    let mut kinds: Vec<EncodingKind> = Vec::new();
    let mut pos: usize = 0;
    assert(s@.skip(0) =~= s@);
    proof {
        match encoding_list(s@) {
            Ok(ks) => {
                assert(Seq::<EncodingKind>::empty() + ks =~= ks);
            },
            Err(_) => {},
        }
    }
    loop
        invariant
            pos <= s.len(),
            s@ == input@,
            encoding_list(input@) == prepend_kinds(kinds@, encoding_list(s@.skip(pos as int))),
        decreases s.len() - pos,
    {
        let end = find_char(&s, pos, ',');
        let piece = sub_chars(&s, pos, end);
        let name = trim_chars(&piece);
        let ghost tail = s@.skip(pos as int);
        let ghost done = kinds@;
        proof {
            assert(tail.take((end - pos) as int) =~= piece@);
            if end < s.len() {
                assert(tail.skip(end - pos + 1) =~= s@.skip(end + 1));
            }
        }
        if name.len() > 0 {
            let text = string_from_chars(&name);
            match EncodingKind::from_name(text.as_str()) {
                Some(k) => {
                    kinds.push(k);
                    proof {
                        let rest = if end < s.len() {
                            encoding_list(s@.skip(end + 1))
                        } else {
                            Ok(Seq::empty())
                        };
                        match rest {
                            Ok(ks) => {
                                assert(done + (seq![k] + ks) =~= kinds@ + ks);
                            },
                            Err(e) => {},
                        }
                    }
                },
                None => {
                    let message = concat2("Unknown encoding: ", text.as_str());
                    return Err(RrlangError::Message(message));
                },
            }
        }
        if end >= s.len() {
            assert(kinds@ + Seq::<EncodingKind>::empty() =~= kinds@);
            return Ok(kinds);
        }
        pos = end + 1;
    }
}

/// The encodings of the linguistic profile.
pub open spec fn linguistic_kinds() -> Seq<EncodingKind> {
    seq![
        EncodingKind::Grapheme,
        EncodingKind::GraphemeClass,
        EncodingKind::WordBoundary,
        EncodingKind::FrequencyClass,
    ]
}

/// The encodings of the linguistic profile: every encoding but the raw bit ones.
pub fn linguistic_encodings() -> (r: Vec<EncodingKind>)
    ensures
        r@ == linguistic_kinds(),
{
    let mut r: Vec<EncodingKind> = Vec::new();
    r.push(EncodingKind::Grapheme);
    r.push(EncodingKind::GraphemeClass);
    r.push(EncodingKind::WordBoundary);
    r.push(EncodingKind::FrequencyClass);
    assert(r@ =~= linguistic_kinds());
    r
}

/// The canonical names of `ks`, joined by commas.
pub open spec fn names_joined(ks: Seq<EncodingKind>) -> Seq<char>
    decreases ks.len(),
{
    if ks.len() == 0 {
        Seq::empty()
    } else if ks.len() == 1 {
        encoding_name(ks[0])
    } else {
        names_joined(ks.drop_last()) + seq![','] + encoding_name(ks.last())
    }
}

/// The canonical names of `encodings`, joined by commas.
pub fn encoding_list_label(encodings: &[EncodingKind]) -> (r: String)
    ensures
        r@ == names_joined(encodings@),
{
    let mut out = String::new();
    let mut i: usize = 0;
    while i < encodings.len()
        invariant
            i <= encodings.len(),
            out@ == names_joined(encodings@.take(i as int)),
        decreases encodings.len() - i,
    {
        let ghost before = out@;
        if i > 0 {
            string_push(&mut out, ',');
        }
        out.append(encodings[i].as_str());
        proof {
            let t = encodings@.take(i + 1);
            assert(t.drop_last() =~= encodings@.take(i as int));
            assert(t.last() == encodings@[i as int]);
            if i == 0 {
                assert(out@ =~= encoding_name(t[0]));
            } else {
                assert(out@ =~= before + seq![','] + encoding_name(t.last()));
            }
        }
        i = i + 1;
    }
    assert(encodings@.take(encodings.len() as int) =~= encodings@);
    out
}

proof fn lemma_names_joined_front(ks: Seq<EncodingKind>)
    requires
        ks.len() >= 2,
    ensures
        names_joined(ks) == encoding_name(ks[0]) + seq![','] + names_joined(ks.drop_first()),
    decreases ks.len(),
{
    if ks.len() == 2 {
        assert(ks.drop_last() =~= seq![ks[0]]);
        assert(ks.drop_first() =~= seq![ks[1]]);
        assert(names_joined(ks.drop_last()) == encoding_name(ks[0]));
        assert(names_joined(ks.drop_first()) == encoding_name(ks[1]));
        assert(ks.last() == ks[1]);
    } else {
        lemma_names_joined_front(ks.drop_last());
        assert(ks.drop_last().drop_first() =~= ks.drop_first().drop_last());
        assert(ks.drop_last()[0] == ks[0]);
        assert(ks.drop_first().last() == ks.last());
        assert(names_joined(ks) =~= encoding_name(ks[0]) + seq![','] + names_joined(
            ks.drop_first(),
        ));
    }
}

/// What an encoding name contributes when a list of names is read back.
proof fn lemma_name_read_back(k: EncodingKind)
    ensures
        forall|i: int| 0 <= i < encoding_name(k).len() ==> #[trigger] encoding_name(k)[i] != ',',
        trimmed(encoding_name(k)) == encoding_name(k),
        encoding_name(k).len() > 0,
        encoding_for_key(underscore_key(encoding_name(k))) == Some(k),
{
    let n = encoding_name(k);
    lemma_encoding_name_chars(k);
    lemma_encoding_name_roundtrip(k);
    assert(n[0] == n[0]);
    assert(n.last() == n[n.len() - 1]);
    lemma_trimmed_unchanged(n);
}

/// The label of a list of encodings reads back as the same list.
pub proof fn lemma_encoding_label_roundtrip(ks: Seq<EncodingKind>)
    ensures
        encoding_list(names_joined(ks)) == Ok::<Seq<EncodingKind>, Seq<char>>(ks),
    decreases ks.len(),
{
    let s = names_joined(ks);
    if ks.len() == 0 {
        lemma_first_index(s, ',', 0);
        assert(s.take(0) =~= Seq::<char>::empty());
        lemma_trimmed_unchanged(Seq::<char>::empty());
        assert(ks =~= Seq::<EncodingKind>::empty());
    } else {
        let n = encoding_name(ks[0]);
        lemma_name_read_back(ks[0]);
        if ks.len() == 1 {
            lemma_first_index(s, ',', n.len() as int);
            assert(s.take(n.len() as int) =~= n);
            assert(seq![ks[0]] + Seq::<EncodingKind>::empty() =~= ks);
        } else {
            let rest = ks.drop_first();
            lemma_names_joined_front(ks);
            lemma_encoding_label_roundtrip(rest);
            assert forall|j: int| 0 <= j < n.len() implies #[trigger] s[j] != ',' by {
                assert(s[j] == n[j]);
            }
            assert(s[n.len() as int] == ',');
            lemma_first_index(s, ',', n.len() as int);
            assert(s.take(n.len() as int) =~= n);
            assert(s.skip(n.len() + 1 as int) =~= names_joined(rest));
            assert(seq![ks[0]] + rest =~= ks);
        }
    }
}

/// Whether an encoding works on the raw bits of the text.
pub open spec fn is_raw_kind(k: EncodingKind) -> bool {
    k == EncodingKind::Utf8Bits || k == EncodingKind::BitText
}

/// `ks` without the raw bit encodings, in order.
pub open spec fn without_raw(ks: Seq<EncodingKind>) -> Seq<EncodingKind>
    decreases ks.len(),
{
    if ks.len() == 0 {
        ks
    } else if is_raw_kind(ks.last()) {
        without_raw(ks.drop_last())
    } else {
        without_raw(ks.drop_last()).push(ks.last())
    }
}

/// `encodings` without the raw bit encodings.
fn remove_raw(encodings: &Vec<EncodingKind>) -> (r: Vec<EncodingKind>)
    ensures
        r@ == without_raw(encodings@),
{
    let mut r: Vec<EncodingKind> = Vec::new();
    let mut i: usize = 0;
    assert(encodings@.take(0) =~= Seq::<EncodingKind>::empty());
    while i < encodings.len()
        invariant
            i <= encodings.len(),
            r@ == without_raw(encodings@.take(i as int)),
        decreases encodings.len() - i,
    {
        let k = encodings[i];
        let raw = match k {
            EncodingKind::Utf8Bits | EncodingKind::BitText => true,
            _ => false,
        };
        if !raw {
            r.push(k);
        }
        assert(encodings@.take(i + 1).drop_last() =~= encodings@.take(i as int));
        i = i + 1;
    }
    assert(encodings@.take(encodings.len() as int) =~= encodings@);
    r
}

// ---------------------------------------------------------------------------
// Overriding run options
// ---------------------------------------------------------------------------

/// An optional output path: absent when it is, ignoring ASCII case, `none`.
pub open spec fn none_or(value: Seq<char>) -> Option<Seq<char>> {
    if ascii_lowercase(value) == ascii_lowercase("none"@) {
        None
    } else {
        Some(value)
    }
}

/// The profiles: `--fast-profile` (linguistic encodings, 25 null samples,
/// at most 25000 characters), then `--linguistic-profile`.
pub open spec fn profile_overrides(args: Seq<Seq<char>>, o: OptionsView) -> OptionsView {
    let fast = if args.contains("--fast-profile"@) {
        OptionsView {
            null_samples: 25,
            encodings: linguistic_kinds(),
            max_chars: Some(25000),
            ..o
        }
    } else {
        o
    };
    if args.contains("--linguistic-profile"@) {
        OptionsView { encodings: linguistic_kinds(), ..fast }
    } else {
        fast
    }
}

/// The options given as plain text: input, language, name and output paths.
pub open spec fn text_overrides(args: Seq<Seq<char>>, o: OptionsView) -> OptionsView {
    let o1 = match either_value(args, "--input"@, "-i"@) {
        Some(v) => OptionsView { input_path: v, ..o },
        None => o,
    };
    let o2 = match arg_value(args, "--language"@) {
        Some(v) => OptionsView { language: v, ..o1 },
        None => o1,
    };
    let o3 = match arg_value(args, "--name"@) {
        Some(v) => OptionsView { experiment_name: v, ..o2 },
        None => o2,
    };
    let o4 = match either_value(args, "--out"@, "--json"@) {
        Some(v) => OptionsView { output_json: none_or(v), ..o3 },
        None => o3,
    };
    match either_value(args, "--text-out"@, "--txt"@) {
        Some(v) => OptionsView { output_text: none_or(v), ..o4 },
        None => o4,
    }
}

/// The plain-text options each set their own field and nothing else:
/// `--input` (or `-i`) the input path, `--language` the language, `--name` the
/// experiment name, `--out` (or `--json`) the JSON report path and `--text-out`
/// (or `--txt`) the text report path, a path being dropped when it is `none`
/// in any ASCII case; what is not given stays as it was.
pub proof fn lemma_text_options_set_their_fields(args: Seq<Seq<char>>, o: OptionsView)
    ensures
        ({
            let r = text_overrides(args, o);
            let none = |v: Seq<char>| ascii_lowercase(v) == ascii_lowercase("none"@);
            &&& r.input_path == (match either_value(args, "--input"@, "-i"@) {
                Some(v) => v,
                None => o.input_path,
            })
            &&& r.language == (match arg_value(args, "--language"@) {
                Some(v) => v,
                None => o.language,
            })
            &&& r.experiment_name == (match arg_value(args, "--name"@) {
                Some(v) => v,
                None => o.experiment_name,
            })
            &&& r.output_json == (match either_value(args, "--out"@, "--json"@) {
                Some(v) => if none(v) {
                    None
                } else {
                    Some(v)
                },
                None => o.output_json,
            })
            &&& r.output_text == (match either_value(args, "--text-out"@, "--txt"@) {
                Some(v) => if none(v) {
                    None
                } else {
                    Some(v)
                },
                None => o.output_text,
            })
            &&& r.encodings == o.encodings
            &&& r.null_samples == o.null_samples
            &&& r.seed == o.seed
            &&& r.max_chars == o.max_chars
            &&& r.case_policy == o.case_policy
            &&& r.punctuation_policy == o.punctuation_policy
            &&& r.hyphen_policy == o.hyphen_policy
            &&& r.whitespace_policy == o.whitespace_policy
        }),
{
}

/// `--nulls`: the number of null samples.
pub open spec fn nulls_override(args: Seq<Seq<char>>, o: OptionsView) -> Result<OptionsView, Seq<char>> {
    match arg_value(args, "--nulls"@) {
        None => Ok(o),
        Some(v) => match parse_unsigned(v, usize::MAX as nat) {
            Some(n) => Ok(OptionsView { null_samples: n as usize, ..o }),
            None => Err("Invalid --nulls value: "@ + v),
        },
    }
}

/// `--seed`: the seed of the null models.
pub open spec fn seed_override(args: Seq<Seq<char>>, o: OptionsView) -> Result<OptionsView, Seq<char>> {
    match arg_value(args, "--seed"@) {
        None => Ok(o),
        Some(v) => match parse_unsigned(v, u64::MAX as nat) {
            Some(n) => Ok(OptionsView { seed: n as u64, ..o }),
            None => Err("Invalid --seed value: "@ + v),
        },
    }
}

/// `--max-chars`: a cap on the cleaned text; `none` or `0` lifts it.
pub open spec fn max_chars_override(args: Seq<Seq<char>>, o: OptionsView) -> Result<
    OptionsView,
    Seq<char>,
> {
    match either_value(args, "--max-chars"@, "--max-characters"@) {
        None => Ok(o),
        Some(v) => if ascii_lowercase(v) == ascii_lowercase("none"@) || v == "0"@ {
            Ok(OptionsView { max_chars: None, ..o })
        } else {
            match parse_unsigned(v, usize::MAX as nat) {
                Some(n) => Ok(OptionsView { max_chars: Some(n as usize), ..o }),
                None => Err("Invalid --max-chars value: "@ + v),
            }
        },
    }
}

/// `--encodings`: the list of encodings, when it names at least one.
pub open spec fn encodings_override(args: Seq<Seq<char>>, o: OptionsView) -> Result<
    OptionsView,
    Seq<char>,
> {
    match either_value(args, "--encodings"@, "--encoding"@) {
        None => Ok(o),
        Some(v) => match encoding_list(v) {
            Err(name) => Err("Unknown encoding: "@ + name),
            Ok(ks) => if ks.len() > 0 {
                Ok(OptionsView { encodings: ks, ..o })
            } else {
                Ok(o)
            },
        },
    }
}

/// `--skip-raw`: the raw bit encodings are dropped.
pub open spec fn raw_override(args: Seq<Seq<char>>, o: OptionsView) -> OptionsView {
    if args.contains("--skip-raw"@) || args.contains("--no-raw"@) {
        OptionsView { encodings: without_raw(o.encodings), ..o }
    } else {
        o
    }
}

/// `--case-policy`.
pub open spec fn case_override(args: Seq<Seq<char>>, o: OptionsView) -> Result<OptionsView, Seq<char>> {
    match arg_value(args, "--case-policy"@) {
        None => Ok(o),
        Some(v) => match case_policy_for_key(plain_key(v)) {
            Some(p) => Ok(OptionsView { case_policy: p, ..o }),
            None => Err("Unknown --case-policy value: "@ + v),
        },
    }
}

/// `--punctuation-policy`.
pub open spec fn punctuation_override(args: Seq<Seq<char>>, o: OptionsView) -> Result<
    OptionsView,
    Seq<char>,
> {
    match arg_value(args, "--punctuation-policy"@) {
        None => Ok(o),
        Some(v) => match punctuation_policy_for_key(plain_key(v)) {
            Some(p) => Ok(OptionsView { punctuation_policy: p, ..o }),
            None => Err("Unknown --punctuation-policy value: "@ + v),
        },
    }
}

/// `--hyphen-policy`.
pub open spec fn hyphen_override(args: Seq<Seq<char>>, o: OptionsView) -> Result<
    OptionsView,
    Seq<char>,
> {
    match arg_value(args, "--hyphen-policy"@) {
        None => Ok(o),
        Some(v) => match hyphen_policy_for_key(underscore_key(v)) {
            Some(p) => Ok(OptionsView { hyphen_policy: p, ..o }),
            None => Err("Unknown --hyphen-policy value: "@ + v),
        },
    }
}

/// `--whitespace-policy`.
pub open spec fn whitespace_override(args: Seq<Seq<char>>, o: OptionsView) -> Result<
    OptionsView,
    Seq<char>,
> {
    match arg_value(args, "--whitespace-policy"@) {
        None => Ok(o),
        Some(v) => match whitespace_policy_for_key(plain_key(v)) {
            Some(p) => Ok(OptionsView { whitespace_policy: p, ..o }),
            None => Err("Unknown --whitespace-policy value: "@ + v),
        },
    }
}

/// What the command-line arguments make of the options `o`, in the order the
/// options are read: the options reached, and the message of the error that
/// stopped the reading, if one did. A failing option leaves the options as
/// they were before it; an empty list of encodings at the end is an error.
pub open spec fn cli_overrides(args: Seq<Seq<char>>, o: OptionsView) -> (OptionsView, Option<Seq<char>>) {
    let a = text_overrides(args, profile_overrides(args, o));
    match nulls_override(args, a) {
        Err(m) => (a, Some(m)),
        Ok(b) => match seed_override(args, b) {
            Err(m) => (b, Some(m)),
            Ok(c) => match max_chars_override(args, c) {
                Err(m) => (c, Some(m)),
                Ok(d) => match encodings_override(args, d) {
                    Err(m) => (d, Some(m)),
                    Ok(e) => {
                        let f = raw_override(args, e);
                        match case_override(args, f) {
                            Err(m) => (f, Some(m)),
                            Ok(g) => match punctuation_override(args, g) {
                                Err(m) => (g, Some(m)),
                                Ok(h) => match hyphen_override(args, h) {
                                    Err(m) => (h, Some(m)),
                                    Ok(i) => match whitespace_override(args, i) {
                                        Err(m) => (i, Some(m)),
                                        Ok(j) => if j.encodings.len() == 0 {
                                            (
                                                j,
                                                Some(
                                                    "No encodings enabled. Remove --skip-raw or provide --encodings."@,
                                                ),
                                            )
                                        } else {
                                            (j, None)
                                        },
                                    },
                                },
                            },
                        }
                    },
                },
            },
        },
    }
}

/// A step that may fail: on success the options are those of `outcome`; on
/// failure they are unchanged and the error carries its message.
pub open spec fn step_done(
    before: OptionsView,
    after: OptionsView,
    r: Result<(), RrlangError>,
    outcome: Result<OptionsView, Seq<char>>,
) -> bool {
    match r {
        Ok(_) => outcome == Ok::<OptionsView, Seq<char>>(after),
        Err(e) => after == before && e is Message && outcome == Err::<OptionsView, Seq<char>>(
            message_text(e),
        ),
    }
}

/// An optional output path: absent when it is, ignoring ASCII case, `none`.
fn none_or_path(value: String) -> (r: Option<String>)
    ensures
        opt_string(r) == none_or(value@),
{
    let v = chars_of(value.as_str());
    if eq_ignore_ascii_case(&v, "none") {
        None
    } else {
        Some(value)
    }
}

fn apply_profiles(args: &[String], options: &mut AnalyseOptions)
    ensures
        final(options)@ == profile_overrides(arg_views(args@), old(options)@),
{
    if has_flag(args, "--fast-profile") {
        options.null_samples = 25;
        options.encodings = linguistic_encodings();
        options.max_chars = Some(25000);
    }
    if has_flag(args, "--linguistic-profile") {
        options.encodings = linguistic_encodings();
    }
}

fn apply_text_options(args: &[String], options: &mut AnalyseOptions)
    ensures
        final(options)@ == text_overrides(arg_views(args@), old(options)@),
{
    if let Some(input) = get_either(args, "--input", "-i") {
        options.input_path = input;
    }
    if let Some(language) = get_arg_value(args, "--language") {
        options.language = language;
    }
    if let Some(name) = get_arg_value(args, "--name") {
        options.experiment_name = name;
    }
    if let Some(output_json) = get_either(args, "--out", "--json") {
        options.output_json = none_or_path(output_json);
    }
    if let Some(output_text) = get_either(args, "--text-out", "--txt") {
        options.output_text = none_or_path(output_text);
    }
}

fn invalid_value(prefix: &str, value: &String) -> (e: RrlangError)
    ensures
        e is Message,
        message_text(e) == prefix@ + value@,
{
    RrlangError::Message(concat2(prefix, value.as_str()))
}

fn apply_nulls(args: &[String], options: &mut AnalyseOptions) -> (r: Result<(), RrlangError>)
    ensures
        step_done(old(options)@, final(options)@, r, nulls_override(arg_views(args@), old(options)@)),
{
    if let Some(nulls) = get_arg_value(args, "--nulls") {
        match parse_usize(&chars_of(nulls.as_str())) {
            Some(n) => options.null_samples = n,
            None => return Err(invalid_value("Invalid --nulls value: ", &nulls)),
        }
    }
    Ok(())
}

fn apply_seed(args: &[String], options: &mut AnalyseOptions) -> (r: Result<(), RrlangError>)
    ensures
        step_done(old(options)@, final(options)@, r, seed_override(arg_views(args@), old(options)@)),
{
    if let Some(seed) = get_arg_value(args, "--seed") {
        match parse_u64(&chars_of(seed.as_str())) {
            Some(n) => options.seed = n,
            None => return Err(invalid_value("Invalid --seed value: ", &seed)),
        }
    }
    Ok(())
}

fn apply_max_chars(args: &[String], options: &mut AnalyseOptions) -> (r: Result<(), RrlangError>)
    ensures
        step_done(
            old(options)@,
            final(options)@,
            r,
            max_chars_override(arg_views(args@), old(options)@),
        ),
{
    if let Some(max_chars) = get_either(args, "--max-chars", "--max-characters") {
        let v = chars_of(max_chars.as_str());
        if eq_ignore_ascii_case(&v, "none") || str_equal(max_chars.as_str(), "0") {
            options.max_chars = None;
        } else {
            match parse_usize(&v) {
                Some(n) => options.max_chars = Some(n),
                None => return Err(invalid_value("Invalid --max-chars value: ", &max_chars)),
            }
        }
    }
    Ok(())
}

fn apply_encodings(args: &[String], options: &mut AnalyseOptions) -> (r: Result<(), RrlangError>)
    ensures
        step_done(
            old(options)@,
            final(options)@,
            r,
            encodings_override(arg_views(args@), old(options)@),
        ),
{
    if let Some(encodings) = get_either(args, "--encodings", "--encoding") {
        let parsed = parse_encoding_list(encodings.as_str())?;
        if parsed.len() > 0 {
            options.encodings = parsed;
        }
    }
    Ok(())
}

fn apply_raw(args: &[String], options: &mut AnalyseOptions)
    ensures
        final(options)@ == raw_override(arg_views(args@), old(options)@),
{
    if has_flag(args, "--skip-raw") || has_flag(args, "--no-raw") {
        options.encodings = remove_raw(&options.encodings);
    }
}

fn apply_case(args: &[String], options: &mut AnalyseOptions) -> (r: Result<(), RrlangError>)
    ensures
        step_done(old(options)@, final(options)@, r, case_override(arg_views(args@), old(options)@)),
{
    if let Some(value) = get_arg_value(args, "--case-policy") {
        match CasePolicy::from_name(value.as_str()) {
            Some(p) => options.case_policy = p,
            None => return Err(invalid_value("Unknown --case-policy value: ", &value)),
        }
    }
    Ok(())
}

fn apply_punctuation(args: &[String], options: &mut AnalyseOptions) -> (r: Result<(), RrlangError>)
    ensures
        step_done(
            old(options)@,
            final(options)@,
            r,
            punctuation_override(arg_views(args@), old(options)@),
        ),
{
    if let Some(value) = get_arg_value(args, "--punctuation-policy") {
        match PunctuationPolicy::from_name(value.as_str()) {
            Some(p) => options.punctuation_policy = p,
            None => return Err(invalid_value("Unknown --punctuation-policy value: ", &value)),
        }
    }
    Ok(())
}

fn apply_hyphen(args: &[String], options: &mut AnalyseOptions) -> (r: Result<(), RrlangError>)
    ensures
        step_done(old(options)@, final(options)@, r, hyphen_override(arg_views(args@), old(options)@)),
{
    if let Some(value) = get_arg_value(args, "--hyphen-policy") {
        match HyphenPolicy::from_name(value.as_str()) {
            Some(p) => options.hyphen_policy = p,
            None => return Err(invalid_value("Unknown --hyphen-policy value: ", &value)),
        }
    }
    Ok(())
}

fn apply_whitespace(args: &[String], options: &mut AnalyseOptions) -> (r: Result<(), RrlangError>)
    ensures
        step_done(
            old(options)@,
            final(options)@,
            r,
            whitespace_override(arg_views(args@), old(options)@),
        ),
{
    if let Some(value) = get_arg_value(args, "--whitespace-policy") {
        match WhitespacePolicy::from_name(value.as_str()) {
            Some(p) => options.whitespace_policy = p,
            None => return Err(invalid_value("Unknown --whitespace-policy value: ", &value)),
        }
    }
    Ok(())
}

/// Applies the command-line options to `options`, in the order of
/// [`cli_overrides`]: the options end as it says, and an error is returned
/// exactly when it gives one, with its message.
pub fn apply_cli_overrides(args: &[String], options: &mut AnalyseOptions) -> (r: Result<(), RrlangError>)
    ensures
        final(options)@ == cli_overrides(arg_views(args@), old(options)@).0,
        match r {
            Ok(_) => cli_overrides(arg_views(args@), old(options)@).1 is None,
            Err(e) => e is Message && cli_overrides(arg_views(args@), old(options)@).1 == Some(
                message_text(e),
            ),
        },
{
    apply_profiles(args, options);
    apply_text_options(args, options);
    apply_nulls(args, options)?;
    apply_seed(args, options)?;
    apply_max_chars(args, options)?;
    apply_encodings(args, options)?;
    apply_raw(args, options);
    apply_case(args, options)?;
    apply_punctuation(args, options)?;
    apply_hyphen(args, options)?;
    apply_whitespace(args, options)?;
    if options.encodings.len() == 0 {
        return Err(
            RrlangError::Message(
                owned("No encodings enabled. Remove --skip-raw or provide --encodings."),
            ),
        );
    }
    Ok(())
}

/// `--fast-profile` sets 25 null samples, a cap of 25000 characters and the
/// linguistic encodings, unless the options that set these are given as well;
/// a `--nulls` given with it wins.
pub proof fn lemma_fast_profile_defaults(args: Seq<Seq<char>>, o: OptionsView)
    requires
        args.contains("--fast-profile"@),
        cli_overrides(args, o).1 is None,
    ensures
        arg_value(args, "--nulls"@) is None ==> cli_overrides(args, o).0.null_samples == 25,
        arg_value(args, "--nulls"@) matches Some(v) ==> parse_unsigned(v, usize::MAX as nat) == Some(
            cli_overrides(args, o).0.null_samples as nat,
        ),
        either_value(args, "--max-chars"@, "--max-characters"@) is None ==> cli_overrides(
            args,
            o,
        ).0.max_chars == Some(25000usize),
        either_value(args, "--encodings"@, "--encoding"@) is None && !args.contains("--skip-raw"@)
            && !args.contains("--no-raw"@) ==> cli_overrides(args, o).0.encodings
            == linguistic_kinds(),
{
}

proof fn lemma_without_raw_has_no_raw(ks: Seq<EncodingKind>)
    ensures
        forall|i: int| 0 <= i < without_raw(ks).len() ==> !is_raw_kind(#[trigger] without_raw(ks)[i]),
    decreases ks.len(),
{
    if ks.len() > 0 {
        let prev = without_raw(ks.drop_last());
        lemma_without_raw_has_no_raw(ks.drop_last());
        if !is_raw_kind(ks.last()) {
            let r = prev.push(ks.last());
            assert forall|i: int| 0 <= i < r.len() implies !is_raw_kind(#[trigger] r[i]) by {
                if i < prev.len() {
                    assert(r[i] == prev[i]);
                }
            }
        }
    }
}

/// With `--skip-raw` (or `--no-raw`), an accepted set of options holds no raw
/// bit encoding.
pub proof fn lemma_skip_raw_leaves_no_raw(args: Seq<Seq<char>>, o: OptionsView)
    requires
        args.contains("--skip-raw"@) || args.contains("--no-raw"@),
        cli_overrides(args, o).1 is None,
    ensures
        forall|i: int|
            0 <= i < cli_overrides(args, o).0.encodings.len() ==> !is_raw_kind(
                #[trigger] cli_overrides(args, o).0.encodings[i],
            ),
{
    let a = text_overrides(args, profile_overrides(args, o));
    let b = nulls_override(args, a)->Ok_0;
    let c = seed_override(args, b)->Ok_0;
    let d = max_chars_override(args, c)->Ok_0;
    let e = encodings_override(args, d)->Ok_0;
    lemma_without_raw_has_no_raw(e.encodings);
}

// ---------------------------------------------------------------------------
// Batch inputs and outputs
// ---------------------------------------------------------------------------

/// Whether a character is kept in an output name.
pub open spec fn kept_in_name(c: char) -> bool {
    is_ascii_alnum_char(c) || c == '-' || c == '_'
}

/// The characters of an output name before its ends are stripped, with
/// whether the last thing written was a replacement `_`: ASCII letters,
/// digits, `-` and `_` are kept, and each run of other characters becomes one `_`.
pub open spec fn name_scan(s: Seq<char>) -> (Seq<char>, bool)
    decreases s.len(),
{
    if s.len() == 0 {
        (Seq::empty(), false)
    } else {
        let prev = name_scan(s.drop_last());
        let c = s.last();
        if kept_in_name(c) {
            (prev.0.push(c), false)
        } else if !prev.1 {
            (prev.0.push('_'), true)
        } else {
            prev
        }
    }
}

/// The output name made of `s`: [`name_scan`] without `_` at either end, or
/// `rrlang_report` where nothing is left.
pub open spec fn sanitized_name(s: Seq<char>) -> Seq<char> {
    let t = strip_char(name_scan(s).0, '_');
    if t.len() == 0 {
        "rrlang_report"@
    } else {
        t
    }
}

/// A file-name-safe form of `input`.
pub fn sanitize_output_name(input: &str) -> (r: String)
    ensures
        r@ == sanitized_name(input@),
{
    let s = chars_of(input);
    let mut out: Vec<char> = Vec::new();
    let mut last_was_underscore = false;
    let mut i: usize = 0;
    assert(s@.take(0) =~= Seq::<char>::empty());
    while i < s.len()
        invariant
            i <= s.len(),
            s@ == input@,
            (out@, last_was_underscore) == name_scan(s@.take(i as int)),
        decreases s.len() - i,
    {
        let ch = s[i];
        assert(s@.take(i + 1).drop_last() =~= s@.take(i as int));
        assert(s@.take(i + 1).last() == ch);
        let keep = is_ascii_alphanumeric(ch) || ch == '-' || ch == '_';
        if keep {
            out.push(ch);
            last_was_underscore = false;
        } else if !last_was_underscore {
            out.push('_');
            last_was_underscore = true;
        }
        i = i + 1;
    }
    assert(s@.take(s.len() as int) =~= s@);
    let trimmed_name = strip_char_chars(&out, '_');
    if trimmed_name.len() == 0 {
        owned("rrlang_report")
    } else {
        string_from_chars(&trimmed_name)
    }
}

/// `\` read as `/`.
pub open spec fn forward_slashes(s: Seq<char>) -> Seq<char> {
    s.map_values(|c: char| if c == '\\' { '/' } else { c })
}

/// `p` occurs in `s`.
pub open spec fn contains_text(s: Seq<char>, p: Seq<char>) -> bool {
    exists|i: int| 0 <= i <= s.len() - p.len() && #[trigger] s.subrange(i, i + p.len()) == p
}

/// `s` ends with `p`.
pub open spec fn ends_with_text(s: Seq<char>, p: Seq<char>) -> bool {
    s.len() >= p.len() && s.skip(s.len() - p.len()) == p
}

/// Whether a dataset path is left out of a batch unless raw inputs are asked
/// for: a `source_raw` or `_cache` directory, or a name ending in `_raw.txt`,
/// compared with `/` for `\` and ignoring ASCII case.
pub open spec fn skipped_input(path: Seq<char>) -> bool {
    let l = ascii_lowercase(forward_slashes(path));
    contains_text(l, "/source_raw/"@) || contains_text(l, "/_cache/"@) || ends_with_text(
        l,
        "_raw.txt"@,
    )
}

/// Whether `p` stands in `s` at `i`.
fn matches_at(s: &Vec<char>, i: usize, p: &Vec<char>) -> (r: bool)
    requires
        i + p.len() <= s.len(),
    ensures
        r == (s@.subrange(i as int, i + p.len()) == p@),
{
    let mut k: usize = 0;
    while k < p.len()
        invariant
            k <= p.len(),
            i + p.len() <= s.len(),
            forall|j: int| 0 <= j < k ==> s@[i + j] == p@[j],
        decreases p.len() - k,
    {
        if s[i + k] != p[k] {
            assert(s@.subrange(i as int, i + p.len())[k as int] != p@[k as int]);
            return false;
        }
        k = k + 1;
    }
    assert(s@.subrange(i as int, i + p.len()) =~= p@);
    true
}

/// Whether `p` occurs in `s`.
fn contains_chars(s: &Vec<char>, p: &str) -> (r: bool)
    ensures
        r == contains_text(s@, p@),
{
    let pv = chars_of(p);
    if pv.len() > s.len() {
        return false;
    }
    let last = s.len() - pv.len();
    let mut i: usize = 0;
    loop
        invariant
            pv@ == p@,
            pv.len() <= s.len(),
            last == s.len() - pv.len(),
            i <= last,
            forall|j: int| 0 <= j < i ==> #[trigger] s@.subrange(j, j + pv.len()) != pv@,
        decreases last - i,
    {
        if matches_at(s, i, &pv) {
            return true;
        }
        if i == last {
            return false;
        }
        i = i + 1;
    }
}

/// Whether a dataset path is left out of a batch unless raw inputs are asked for.
pub fn is_skipped_input_path(path: &str) -> (r: bool)
    ensures
        r == skipped_input(path@),
{
    let v = chars_of(path);
    let mut slashed: Vec<char> = Vec::new();
    let mut i: usize = 0;
    while i < v.len()
        invariant
            i <= v.len(),
            slashed@ == forward_slashes(v@.take(i as int)),
        decreases v.len() - i,
    {
        let c = v[i];
        slashed.push(
            if c == '\\' {
                '/'
            } else {
                c
            },
        );
        assert(forward_slashes(v@.take(i + 1)) =~= forward_slashes(v@.take(i as int)).push(
            if c == '\\' {
                '/'
            } else {
                c
            },
        ));
        i = i + 1;
    }
    assert(v@.take(v.len() as int) =~= v@);
    let lowered = ascii_lowercase_chars(&slashed);
    if contains_chars(&lowered, "/source_raw/") || contains_chars(&lowered, "/_cache/") {
        return true;
    }
    let tail = chars_of("_raw.txt");
    if tail.len() > lowered.len() {
        return false;
    }
    let at = lowered.len() - tail.len();
    let r = matches_at(&lowered, at, &tail);
    assert(lowered@.subrange(at as int, at + tail.len()) =~= lowered@.skip(at as int));
    r
}

proof fn lemma_name_scan_kept(s: Seq<char>)
    ensures
        forall|i: int| 0 <= i < name_scan(s).0.len() ==> kept_in_name(#[trigger] name_scan(s).0[i]),
    decreases s.len(),
{
    if s.len() > 0 {
        let prev = name_scan(s.drop_last()).0;
        lemma_name_scan_kept(s.drop_last());
        let r = name_scan(s).0;
        assert forall|i: int| 0 <= i < r.len() implies kept_in_name(#[trigger] r[i]) by {
            if i < prev.len() {
                assert(r[i] == prev[i]);
            }
        }
    }
}

proof fn lemma_strip_leading_keeps(s: Seq<char>, c: char)
    requires
        forall|i: int| 0 <= i < s.len() ==> kept_in_name(#[trigger] s[i]),
    ensures
        forall|i: int|
            0 <= i < strip_leading(s, c).len() ==> kept_in_name(#[trigger] strip_leading(s, c)[i]),
        strip_leading(s, c).len() > 0 ==> strip_leading(s, c)[0] != c,
    decreases s.len(),
{
    if s.len() > 0 && s[0] == c {
        let t = s.drop_first();
        assert forall|i: int| 0 <= i < t.len() implies kept_in_name(#[trigger] t[i]) by {
            assert(t[i] == s[i + 1]);
        }
        lemma_strip_leading_keeps(t, c);
    }
}

proof fn lemma_strip_trailing_keeps(s: Seq<char>, c: char)
    requires
        forall|i: int| 0 <= i < s.len() ==> kept_in_name(#[trigger] s[i]),
        s.len() > 0 ==> s[0] != c,
    ensures
        forall|i: int|
            0 <= i < strip_trailing(s, c).len() ==> kept_in_name(#[trigger] strip_trailing(s, c)[i]),
        strip_trailing(s, c).len() > 0 ==> strip_trailing(s, c)[0] != c && strip_trailing(s, c).last()
            != c,
        s.len() > 0 ==> strip_trailing(s, c).len() > 0,
    decreases s.len(),
{
    if s.len() > 0 && s.last() == c {
        let t = s.drop_last();
        assert forall|i: int| 0 <= i < t.len() implies kept_in_name(#[trigger] t[i]) by {
            assert(t[i] == s[i]);
        }
        if t.len() > 0 {
            assert(t[0] == s[0]);
        }
        lemma_strip_trailing_keeps(t, c);
    }
}

/// An output name is never empty, holds only ASCII letters, digits, `-` and
/// `_`, and neither starts nor ends with `_`.
pub proof fn lemma_sanitized_name_is_safe(s: Seq<char>)
    ensures
        sanitized_name(s).len() > 0,
        forall|i: int| 0 <= i < sanitized_name(s).len() ==> kept_in_name(#[trigger] sanitized_name(s)[i]),
        sanitized_name(s)[0] != '_',
        sanitized_name(s).last() != '_',
{
    let scanned = name_scan(s).0;
    lemma_name_scan_kept(s);
    lemma_strip_leading_keeps(scanned, '_');
    lemma_strip_trailing_keeps(strip_leading(scanned, '_'), '_');
    let t = strip_char(scanned, '_');
    if t.len() == 0 {
        reveal_strlit("rrlang_report");
        let r = "rrlang_report"@;
        assert forall|i: int| 0 <= i < r.len() implies kept_in_name(#[trigger] r[i]) by {
            assert(r[i] == seq!['r', 'r', 'l', 'a', 'n', 'g', '_', 'r', 'e', 'p', 'o', 'r', 't'][i]);
        }
    }
}

// ---------------------------------------------------------------------------
// Batch runs
// ---------------------------------------------------------------------------

/// How many inputs of a batch were analysed, skipped and failed so far.
#[derive(Debug, Clone, Copy, PartialEq, Eq, Structural)]
pub struct BatchTally {
    pub completed: usize,
    pub skipped: usize,
    pub failed: usize,
}

impl BatchTally {
    /// A batch that has not looked at any input yet.
    pub fn new() -> (r: Self)
        ensures
            r == (BatchTally { completed: 0, skipped: 0, failed: 0 }),
    {
        BatchTally { completed: 0, skipped: 0, failed: 0 }
    }
}

/// Whether an input is skipped: only when resuming and both of its reports
/// already exist.
pub fn batch_should_skip(skip_existing: bool, json_exists: bool, text_exists: bool) -> (r: bool)
    ensures
        r == (skip_existing && json_exists && text_exists),
{
    skip_existing && json_exists && text_exists
}

/// The tally after a skipped input.
pub fn batch_after_skip(t: BatchTally) -> (r: BatchTally)
    requires
        t.skipped < usize::MAX,
    ensures
        r == (BatchTally { skipped: (t.skipped + 1) as usize, ..t }),
{
    BatchTally { skipped: t.skipped + 1, ..t }
}

/// The tally after an input was run, and whether the batch stops now: a
/// success is counted as completed; a failure is counted as failed and stops
/// the batch unless it is to continue on errors.
pub fn batch_after_run(t: BatchTally, ok: bool, continue_on_error: bool) -> (r: (BatchTally, bool))
    requires
        t.completed < usize::MAX,
        t.failed < usize::MAX,
    ensures
        ok ==> r.0 == (BatchTally { completed: (t.completed + 1) as usize, ..t }) && !r.1,
        !ok ==> r.0 == (BatchTally { failed: (t.failed + 1) as usize, ..t }) && r.1
            == !continue_on_error,
{
    if ok {
        (BatchTally { completed: t.completed + 1, ..t }, false)
    } else {
        (BatchTally { failed: t.failed + 1, ..t }, !continue_on_error)
    }
}

/// How a batch ends: success when no input failed, otherwise an error that
/// gives the number of failures.
pub fn batch_outcome(t: BatchTally) -> (r: Result<(), RrlangError>)
    ensures
        (t.failed == 0) == (r is Ok),
        t.failed > 0 ==> (r matches Err(RrlangError::Message(m)) && m@ == "Batch completed with "@
            + decimal(t.failed as nat) + " failed input(s)."@),
{
    if t.failed == 0 {
        Ok(())
    } else {
        let n = usize_decimal(t.failed);
        Err(RrlangError::Message(concat3("Batch completed with ", n.as_str(), " failed input(s).")))
    }
}

} // verus!
