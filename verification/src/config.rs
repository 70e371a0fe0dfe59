//! Run options read from the text of a `key = value` configuration file.
use vstd::prelude::*;

use crate::text::{
    ascii_lowercase, chars_equal, chars_of, concat2, eq_ignore_ascii_case, parse_u64, parse_unsigned,
    parse_usize, string_from_chars, sub_chars, trim_chars, trimmed,
};
use crate::types::{
    case_policy_for_key, default_options, encoding_for_key, hyphen_policy_for_key, plain_key,
    punctuation_policy_for_key, underscore_key, whitespace_policy_for_key, AnalyseOptions, CasePolicy,
    EncodingKind, HyphenPolicy, OptionsView, PunctuationPolicy, RrlangError, WhitespacePolicy,
};

verus! {

// ---------------------------------------------------------------------------
// Character scanning
// ---------------------------------------------------------------------------

/// Index of the first `c` in `s`, or the length of `s` where there is none.
pub open spec fn first_index(s: Seq<char>, c: char) -> nat
    decreases s.len(),
{
    if s.len() == 0 {
        0
    } else if s[0] == c {
        0
    } else {
        1 + first_index(s.drop_first(), c)
    }
}

pub(crate) proof fn lemma_first_index(s: Seq<char>, c: char, i: int)
    requires
        0 <= i <= s.len(),
        forall|k: int| 0 <= k < i ==> #[trigger] s[k] != c,
        i < s.len() ==> s[i] == c,
    ensures
        first_index(s, c) == i,
    decreases i,
{
    if i > 0 {
        let t = s.drop_first();
        assert forall|k: int| 0 <= k < i - 1 implies #[trigger] t[k] != c by {
            assert(t[k] == s[k + 1]);
        }
        lemma_first_index(t, c, i - 1);
    }
}

/// The first `c` at or after `from`, or the length of `v`.
pub(crate) fn find_char(v: &Vec<char>, from: usize, c: char) -> (i: usize)
    requires
        from <= v.len(),
    ensures
        from <= i <= v.len(),
        i - from == first_index(v@.skip(from as int), c),
{
    let mut i = from;
    while i < v.len() && v[i] != c
        invariant
            from <= i <= v.len(),
            forall|k: int| from <= k < i ==> #[trigger] v@[k] != c,
        decreases v.len() - i,
    {
        i = i + 1;
    }
    proof {
        let t = v@.skip(from as int);
        assert forall|k: int| 0 <= k < i - from implies #[trigger] t[k] != c by {
            assert(t[k] == v@[k + from]);
        }
        if i < v.len() {
            assert(t[i - from] == v@[i as int]);
        }
        lemma_first_index(t, c, i - from);
    }
    i
}

// ---------------------------------------------------------------------------
// Stripping a repeated character (`str::trim_matches`)
// ---------------------------------------------------------------------------

/// `s` without the `c`s it starts with.
pub open spec fn strip_leading(s: Seq<char>, c: char) -> Seq<char>
    decreases s.len(),
{
    if s.len() > 0 && s[0] == c {
        strip_leading(s.drop_first(), c)
    } else {
        s
    }
}

/// `s` without the `c`s it ends with.
pub open spec fn strip_trailing(s: Seq<char>, c: char) -> Seq<char>
    decreases s.len(),
{
    if s.len() > 0 && s.last() == c {
        strip_trailing(s.drop_last(), c)
    } else {
        s
    }
}

/// `s` without the `c`s at either end.
pub open spec fn strip_char(s: Seq<char>, c: char) -> Seq<char> {
    strip_trailing(strip_leading(s, c), c)
}

proof fn lemma_strip_leading_skip(s: Seq<char>, c: char, i: int)
    requires
        0 <= i <= s.len(),
        forall|k: int| 0 <= k < i ==> #[trigger] s[k] == c,
    ensures
        strip_leading(s, c) == strip_leading(s.skip(i), c),
    decreases i,
{
    if i > 0 {
        let t = s.drop_first();
        assert forall|k: int| 0 <= k < i - 1 implies #[trigger] t[k] == c by {
            assert(t[k] == s[k + 1]);
        }
        lemma_strip_leading_skip(t, c, i - 1);
        assert(t.skip(i - 1) =~= s.skip(i));
    } else {
        assert(s.skip(0) =~= s);
    }
}

proof fn lemma_strip_trailing_take(s: Seq<char>, c: char, j: int)
    requires
        0 <= j <= s.len(),
        forall|k: int| j <= k < s.len() ==> #[trigger] s[k] == c,
    ensures
        strip_trailing(s, c) == strip_trailing(s.take(j), c),
    decreases s.len() - j,
{
    if j < s.len() {
        let t = s.drop_last();
        assert forall|k: int| j <= k < t.len() implies #[trigger] t[k] == c by {
            assert(t[k] == s[k]);
        }
        lemma_strip_trailing_take(t, c, j);
        assert(t.take(j) =~= s.take(j));
    } else {
        assert(s.take(j) =~= s);
    }
}

/// `v` without the `c`s it starts with.
fn strip_leading_chars(v: &Vec<char>, c: char) -> (r: Vec<char>)
    ensures
        r@ == strip_leading(v@, c),
{
    let mut i: usize = 0;
    while i < v.len() && v[i] == c
        invariant
            i <= v.len(),
            forall|k: int| 0 <= k < i ==> #[trigger] v@[k] == c,
        decreases v.len() - i,
    {
        i = i + 1;
    }
    proof {
        lemma_strip_leading_skip(v@, c, i as int);
        let rest = v@.skip(i as int);
        if i < v.len() {
            assert(rest[0] == v@[i as int]);
        }
        assert(strip_leading(rest, c) == rest);
        assert(rest =~= v@.subrange(i as int, v.len() as int));
    }
    sub_chars(v, i, v.len())
}

/// `v` without the `c`s it ends with.
fn strip_trailing_chars(v: &Vec<char>, c: char) -> (r: Vec<char>)
    ensures
        r@ == strip_trailing(v@, c),
{
    let mut j: usize = v.len();
    while j > 0 && v[j - 1] == c
        invariant
            j <= v.len(),
            forall|k: int| j <= k < v.len() ==> #[trigger] v@[k] == c,
        decreases j,
    {
        j = j - 1;
    }
    proof {
        lemma_strip_trailing_take(v@, c, j as int);
        let rest = v@.take(j as int);
        if j > 0 {
            assert(rest.last() == v@[j - 1]);
        }
        assert(strip_trailing(rest, c) == rest);
        assert(rest =~= v@.subrange(0, j as int));
    }
    sub_chars(v, 0, j)
}

/// `v` without the `c`s at either end.
pub(crate) fn strip_char_chars(v: &Vec<char>, c: char) -> (r: Vec<char>)
    ensures
        r@ == strip_char(v@, c),
{
    let lead = strip_leading_chars(v, c);
    strip_trailing_chars(&lead, c)
}

// ---------------------------------------------------------------------------
// Values
// ---------------------------------------------------------------------------

/// A configuration value as a plain string: trimmed, then stripped of the
/// commas, double quotes and single quotes around it, in that order.
pub open spec fn config_string(value: Seq<char>) -> Seq<char> {
    strip_char(strip_char(strip_char(trimmed(value), ','), '"'), '\'')
}

/// A value as a plain string.
fn parse_string(value: &Vec<char>) -> (r: Vec<char>)
    ensures
        r@ == config_string(value@),
{
    let t = trim_chars(value);
    let a = strip_char_chars(&t, ',');
    let b = strip_char_chars(&a, '"');
    strip_char_chars(&b, '\'')
}

/// The items of an array value such as `["a", "b"]`, from the text that is
/// left once the brackets are stripped: split at commas, each item read as a
/// plain string, blank items left out.
pub open spec fn array_items(s: Seq<char>) -> Seq<Seq<char>>
    decreases s.len(),
{
    let i = first_index(s, ',');
    let item = config_string(s.take(i as int));
    let rest = if i < s.len() {
        array_items(s.skip(i + 1 as int))
    } else {
        Seq::empty()
    };
    if trimmed(item).len() > 0 {
        seq![item] + rest
    } else {
        rest
    }
}

/// The items of an array value.
pub open spec fn config_array(value: Seq<char>) -> Seq<Seq<char>> {
    array_items(strip_trailing(strip_leading(trimmed(value), '['), ']'))
}

/// The views of a sequence of character vectors.
pub open spec fn views(v: Seq<Vec<char>>) -> Seq<Seq<char>> {
    v.map_values(|w: Vec<char>| w@)
}

/// The items of an array value.
fn parse_string_array(value: &Vec<char>) -> (r: Vec<Vec<char>>)
    ensures
        views(r@) == config_array(value@),
{
    let t = trim_chars(value);
    let a = strip_leading_chars(&t, '[');
    let s = strip_trailing_chars(&a, ']');
    let mut items: Vec<Vec<char>> = Vec::new();
    let mut pos: usize = 0;
    assert(s@.skip(0) =~= s@);
    loop
        invariant
            pos <= s.len(),
            s@ == strip_trailing(strip_leading(trimmed(value@), '['), ']'),
            views(items@) + array_items(s@.skip(pos as int)) == array_items(s@),
        decreases s.len() - pos,
    {
        let end = find_char(&s, pos, ',');
        let piece = sub_chars(&s, pos, end);
        let item = parse_string(&piece);
        let blank = trim_chars(&item).len() == 0;
        let ghost tail = s@.skip(pos as int);
        let ghost before = views(items@);
        proof {
            assert(tail.take((end - pos) as int) =~= piece@);
            if end < s.len() {
                assert(tail.skip(end - pos + 1) =~= s@.skip(end + 1));
            }
        }
        if !blank {
            items.push(item);
            proof {
                assert(views(items@) =~= before.push(item@));
            }
        }
        if end >= s.len() {
            proof {
                assert(array_items(tail) == (if blank {
                    Seq::<Seq<char>>::empty()
                } else {
                    seq![item@]
                }));
                assert(views(items@) =~= before + array_items(tail));
            }
            return items;
        }
        proof {
            let rest = array_items(s@.skip(end + 1));
            if blank {
                assert(array_items(tail) == rest);
            } else {
                assert(array_items(tail) == seq![item@] + rest);
                assert(before + (seq![item@] + rest) =~= before.push(item@) + rest);
            }
        }
        pos = end + 1;
    }
}

/// An optional value: absent when blank or, ignoring ASCII case, `none`.
pub open spec fn nonempty(value: Seq<char>) -> Option<Seq<char>> {
    if trimmed(value).len() == 0 || ascii_lowercase(trimmed(value)) == ascii_lowercase("none"@) {
        None
    } else {
        Some(value)
    }
}

/// An optional value: absent when blank or, ignoring ASCII case, `none`.
fn nonempty_opt(value: &Vec<char>) -> (r: Option<String>)
    ensures
        opt_chars(r) == nonempty(value@),
{
    let t = trim_chars(value);
    if t.len() == 0 || eq_ignore_ascii_case(&t, "none") {
        None
    } else {
        Some(string_from_chars(value))
    }
}

/// The view of an optional string.
pub open spec fn opt_chars(o: Option<String>) -> Option<Seq<char>> {
    match o {
        Some(s) => Some(s@),
        None => None,
    }
}

/// The encodings named by `names`, in order; the first name that names no
/// encoding where there is one.
pub open spec fn encodings_named(names: Seq<Seq<char>>) -> Result<Seq<EncodingKind>, Seq<char>>
    decreases names.len(),
{
    if names.len() == 0 {
        Ok(Seq::empty())
    } else {
        match encodings_named(names.drop_last()) {
            Err(n) => Err(n),
            Ok(ks) => match encoding_for_key(underscore_key(names.last())) {
                Some(k) => Ok(ks.push(k)),
                None => Err(names.last()),
            },
        }
    }
}

proof fn lemma_encodings_named_err(names: Seq<Seq<char>>, i: int)
    requires
        0 <= i <= names.len(),
        encodings_named(names.take(i)) is Err,
    ensures
        encodings_named(names) == encodings_named(names.take(i)),
    decreases names.len() - i,
{
    if i < names.len() {
        assert(names.drop_last().take(i) =~= names.take(i));
        lemma_encodings_named_err(names.drop_last(), i);
    } else {
        assert(names.take(i) =~= names);
    }
}

/// The encodings named by `names`.
fn encodings_from_names(names: &Vec<Vec<char>>) -> (r: Result<Vec<EncodingKind>, Vec<char>>)
    ensures
        match r {
            Ok(ks) => encodings_named(views(names@)) == Ok::<Seq<EncodingKind>, Seq<char>>(ks@),
            Err(n) => encodings_named(views(names@)) == Err::<Seq<EncodingKind>, Seq<char>>(n@),
        },
{
    let ghost all = views(names@);
    let mut kinds: Vec<EncodingKind> = Vec::new();
    let mut i: usize = 0;
    assert(all.take(0) =~= Seq::<Seq<char>>::empty());
    while i < names.len()
        invariant
            i <= names.len(),
            all == views(names@),
            encodings_named(all.take(i as int)) == Ok::<Seq<EncodingKind>, Seq<char>>(kinds@),
        decreases names.len() - i,
    {
        let name = string_from_chars(&names[i]);
        assert(all.take(i + 1).drop_last() =~= all.take(i as int));
        assert(all.take(i + 1).last() == names@[i as int]@);
        match EncodingKind::from_name(name.as_str()) {
            Some(k) => {
                kinds.push(k);
            },
            None => {
                proof {
                    lemma_encodings_named_err(all, i + 1);
                }
                let n = names[i].clone();
                return Err(n);
            },
        }
        i = i + 1;
    }
    assert(all.take(names.len() as int) =~= all);
    Ok(kinds)
}

/// An error carrying `prefix` followed by `detail`.
fn message_error(prefix: &str, detail: &Vec<char>) -> (e: RrlangError)
    ensures
        e matches RrlangError::Message(m) && m@ == prefix@ + detail@,
{
    let d = string_from_chars(detail);
    RrlangError::Message(concat2(prefix, d.as_str()))
}

// ---------------------------------------------------------------------------
// Entries and lines
// ---------------------------------------------------------------------------

/// What the entry `key = value` makes of the options `o`: the new options, or
/// the message of the error it raises. Unknown keys change nothing.
pub open spec fn config_entry(o: OptionsView, key: Seq<char>, value: Seq<char>) -> Result<
    OptionsView,
    Seq<char>,
> {
    let parsed = config_string(value);
    if key == "input_path"@ || key == "input"@ {
        Ok(OptionsView { input_path: parsed, ..o })
    } else if key == "output_json"@ || key == "json"@ {
        Ok(OptionsView { output_json: nonempty(parsed), ..o })
    } else if key == "output_text"@ || key == "text"@ {
        Ok(OptionsView { output_text: nonempty(parsed), ..o })
    } else if key == "language"@ {
        Ok(OptionsView { language: parsed, ..o })
    } else if key == "experiment_name"@ || key == "name"@ {
        Ok(OptionsView { experiment_name: parsed, ..o })
    } else if key == "null_samples"@ || key == "samples"@ {
        match parse_unsigned(parsed, usize::MAX as nat) {
            Some(n) => Ok(OptionsView { null_samples: n as usize, ..o }),
            None => Err("Invalid null sample count in config: "@ + value),
        }
    } else if key == "seed"@ {
        match parse_unsigned(parsed, u64::MAX as nat) {
            Some(n) => Ok(OptionsView { seed: n as u64, ..o }),
            None => Err("Invalid seed in config: "@ + value),
        }
    } else if key == "max_chars"@ || key == "max_characters"@ {
        if trimmed(parsed).len() == 0 || ascii_lowercase(parsed) == ascii_lowercase("none"@) {
            Ok(OptionsView { max_chars: None, ..o })
        } else {
            match parse_unsigned(parsed, usize::MAX as nat) {
                Some(n) => Ok(OptionsView { max_chars: Some(n as usize), ..o }),
                None => Err("Invalid max_chars in config: "@ + value),
            }
        }
    } else if key == "case_policy"@ {
        match case_policy_for_key(plain_key(parsed)) {
            Some(p) => Ok(OptionsView { case_policy: p, ..o }),
            None => Err("Unknown case_policy: "@ + parsed),
        }
    } else if key == "punctuation_policy"@ {
        match punctuation_policy_for_key(plain_key(parsed)) {
            Some(p) => Ok(OptionsView { punctuation_policy: p, ..o }),
            None => Err("Unknown punctuation_policy: "@ + parsed),
        }
    } else if key == "hyphen_policy"@ {
        match hyphen_policy_for_key(underscore_key(parsed)) {
            Some(p) => Ok(OptionsView { hyphen_policy: p, ..o }),
            None => Err("Unknown hyphen_policy: "@ + parsed),
        }
    } else if key == "whitespace_policy"@ {
        match whitespace_policy_for_key(plain_key(parsed)) {
            Some(p) => Ok(OptionsView { whitespace_policy: p, ..o }),
            None => Err("Unknown whitespace_policy: "@ + parsed),
        }
    } else if key == "encodings"@ {
        match encodings_named(config_array(value)) {
            Ok(ks) => if ks.len() > 0 {
                Ok(OptionsView { encodings: ks, ..o })
            } else {
                Ok(o)
            },
            Err(name) => Err("Unknown encoding in config: "@ + name),
        }
    } else {
        Ok(o)
    }
}

/// The output paths: `output_text = v` (or `text = v`) sets the text report
/// path and `output_json = v` (or `json = v`) the JSON report path, each to the
/// plain value when it is not blank or `none` and to nothing otherwise, and
/// leaves every other option, the other path included, as it was.
pub proof fn lemma_output_path_entries(o: OptionsView, key: Seq<char>, value: Seq<char>)
    ensures
        key == "output_text"@ || key == "text"@ ==> {
            let v = config_string(value);
            let blank = trimmed(v).len() == 0 || ascii_lowercase(trimmed(v)) == ascii_lowercase(
                "none"@,
            );
            &&& config_entry(o, key, value) is Ok
            &&& config_entry(o, key, value)->Ok_0.output_text == (if blank {
                None
            } else {
                Some(v)
            })
            &&& config_entry(o, key, value)->Ok_0 == OptionsView {
                output_text: config_entry(o, key, value)->Ok_0.output_text,
                ..o
            }
        },
        key == "output_json"@ || key == "json"@ ==> {
            let v = config_string(value);
            let blank = trimmed(v).len() == 0 || ascii_lowercase(trimmed(v)) == ascii_lowercase(
                "none"@,
            );
            &&& config_entry(o, key, value) is Ok
            &&& config_entry(o, key, value)->Ok_0.output_json == (if blank {
                None
            } else {
                Some(v)
            })
            &&& config_entry(o, key, value)->Ok_0 == OptionsView {
                output_json: config_entry(o, key, value)->Ok_0.output_json,
                ..o
            }
        },
{
    reveal_strlit("input_path");
    reveal_strlit("input");
    reveal_strlit("output_json");
    reveal_strlit("json");
    reveal_strlit("output_text");
    reveal_strlit("text");
    let (ip, i, oj, j, ot, t) = (
        "input_path"@,
        "input"@,
        "output_json"@,
        "json"@,
        "output_text"@,
        "text"@,
    );
    assert(ip.len() == 10 && i.len() == 5 && oj.len() == 11 && j.len() == 4 && ot.len() == 11
        && t.len() == 4);
    assert(oj[7] != ot[7]);
    assert(j[0] != t[0]);
    assert(ip != ot && i != ot && oj != ot && j != ot);
    assert(ip != t && i != t && oj != t && j != t);
    assert(ip != oj && i != oj && ip != j && i != j);
}

/// The plain-text entries set their own option to the plain value and leave
/// every other option as it was: `input_path` (or `input`) the input path,
/// `language` the language, `experiment_name` (or `name`) the experiment name.
pub proof fn lemma_text_entries(o: OptionsView, key: Seq<char>, value: Seq<char>)
    ensures
        key == "input_path"@ || key == "input"@ ==> config_entry(o, key, value) == Ok::<
            OptionsView,
            Seq<char>,
        >(OptionsView { input_path: config_string(value), ..o }),
        key == "language"@ ==> config_entry(o, key, value) == Ok::<OptionsView, Seq<char>>(
            OptionsView { language: config_string(value), ..o },
        ),
        key == "experiment_name"@ || key == "name"@ ==> config_entry(o, key, value) == Ok::<
            OptionsView,
            Seq<char>,
        >(OptionsView { experiment_name: config_string(value), ..o }),
{
    let (ip, i, oj, j, ot, t, lg, en, n) = (
        "input_path"@,
        "input"@,
        "output_json"@,
        "json"@,
        "output_text"@,
        "text"@,
        "language"@,
        "experiment_name"@,
        "name"@,
    );
    reveal_strlit("input_path");
    reveal_strlit("input");
    reveal_strlit("output_json");
    reveal_strlit("json");
    reveal_strlit("output_text");
    reveal_strlit("text");
    reveal_strlit("language");
    reveal_strlit("experiment_name");
    reveal_strlit("name");
    assert(ip.len() == 10 && i.len() == 5 && oj.len() == 11 && j.len() == 4 && ot.len() == 11
        && t.len() == 4 && lg.len() == 8 && en.len() == 15 && n.len() == 4);
    assert(n[0] != j[0] && n[0] != t[0]);
    assert(lg != ip && lg != i && lg != oj && lg != j && lg != ot && lg != t);
    assert(en != ip && en != i && en != oj && en != j && en != ot && en != t && en != lg);
    assert(n != ip && n != i && n != oj && n != j && n != ot && n != t && n != lg);
}

/// The outcome of a step on the options, as the spec functions state it.
pub open spec fn step_matches(
    before: AnalyseOptions,
    after: AnalyseOptions,
    r: Result<(), RrlangError>,
    outcome: Result<OptionsView, Seq<char>>,
) -> bool {
    match r {
        Ok(_) => outcome == Ok::<OptionsView, Seq<char>>(after@),
        Err(e) => e matches RrlangError::Message(m) && outcome == Err::<OptionsView, Seq<char>>(
            m@,
        ),
    }
}

/// Applies the entry `key = value` to `options`.
fn apply_entry(options: &mut AnalyseOptions, key: &Vec<char>, value: &Vec<char>) -> (r: Result<
    (),
    RrlangError,
>)
    ensures
        step_matches(*old(options), *final(options), r, config_entry(old(options)@, key@, value@)),
{
    let parsed = parse_string(value);
    if chars_equal(key, "input_path") || chars_equal(key, "input") {
        options.input_path = string_from_chars(&parsed);
    } else if chars_equal(key, "output_json") || chars_equal(key, "json") {
        options.output_json = nonempty_opt(&parsed);
    } else if chars_equal(key, "output_text") || chars_equal(key, "text") {
        options.output_text = nonempty_opt(&parsed);
    } else if chars_equal(key, "language") {
        options.language = string_from_chars(&parsed);
    } else if chars_equal(key, "experiment_name") || chars_equal(key, "name") {
        options.experiment_name = string_from_chars(&parsed);
    } else if chars_equal(key, "null_samples") || chars_equal(key, "samples") {
        match parse_usize(&parsed) {
            Some(n) => options.null_samples = n,
            None => return Err(message_error("Invalid null sample count in config: ", value)),
        }
    } else if chars_equal(key, "seed") {
        match parse_u64(&parsed) {
            Some(n) => options.seed = n,
            None => return Err(message_error("Invalid seed in config: ", value)),
        }
    } else if chars_equal(key, "max_chars") || chars_equal(key, "max_characters") {
        if trim_chars(&parsed).len() == 0 || eq_ignore_ascii_case(&parsed, "none") {
            options.max_chars = None;
        } else {
            match parse_usize(&parsed) {
                Some(n) => options.max_chars = Some(n),
                None => return Err(message_error("Invalid max_chars in config: ", value)),
            }
        }
    } else if chars_equal(key, "case_policy") {
        let name = string_from_chars(&parsed);
        match CasePolicy::from_name(name.as_str()) {
            Some(p) => options.case_policy = p,
            None => return Err(message_error("Unknown case_policy: ", &parsed)),
        }
    } else if chars_equal(key, "punctuation_policy") {
        let name = string_from_chars(&parsed);
        match PunctuationPolicy::from_name(name.as_str()) {
            Some(p) => options.punctuation_policy = p,
            None => return Err(message_error("Unknown punctuation_policy: ", &parsed)),
        }
    } else if chars_equal(key, "hyphen_policy") {
        let name = string_from_chars(&parsed);
        match HyphenPolicy::from_name(name.as_str()) {
            Some(p) => options.hyphen_policy = p,
            None => return Err(message_error("Unknown hyphen_policy: ", &parsed)),
        }
    } else if chars_equal(key, "whitespace_policy") {
        let name = string_from_chars(&parsed);
        match WhitespacePolicy::from_name(name.as_str()) {
            Some(p) => options.whitespace_policy = p,
            None => return Err(message_error("Unknown whitespace_policy: ", &parsed)),
        }
    } else if chars_equal(key, "encodings") {
        let names = parse_string_array(value);
        match encodings_from_names(&names) {
            Ok(kinds) => {
                if kinds.len() > 0 {
                    options.encodings = kinds;
                }
            },
            Err(name) => return Err(message_error("Unknown encoding in config: ", &name)),
        }
    }
    Ok(())
}

/// The content of a line: what stands before any `#`, trimmed.
pub open spec fn line_content(raw: Seq<char>) -> Seq<char> {
    trimmed(raw.take(first_index(raw, '#') as int))
}

/// What one line makes of the options `o`. Blank lines, `[section]` headers
/// and lines without `=` change nothing; otherwise the text before the first
/// `=` is the key and the text after it the value, both trimmed.
pub open spec fn config_line(o: OptionsView, raw: Seq<char>) -> Result<OptionsView, Seq<char>> {
    let line = line_content(raw);
    if line.len() == 0 || line[0] == '[' {
        Ok(o)
    } else {
        let eq = first_index(line, '=');
        if eq < line.len() {
            config_entry(o, trimmed(line.take(eq as int)), trimmed(line.skip(eq + 1 as int)))
        } else {
            Ok(o)
        }
    }
}

/// What the lines of `s`, in order, make of the options `o`; the first error
/// ends the reading.
pub open spec fn config_from(o: OptionsView, s: Seq<char>) -> Result<OptionsView, Seq<char>>
    decreases s.len(),
{
    let i = first_index(s, '\n');
    match config_line(o, s.take(i as int)) {
        Err(m) => Err(m),
        Ok(next) => if i < s.len() {
            config_from(next, s.skip(i + 1 as int))
        } else {
            Ok(next)
        },
    }
}

/// The options a configuration text gives, starting from the defaults.
pub open spec fn config_text(s: Seq<char>) -> Result<OptionsView, Seq<char>> {
    config_from(default_options(), s)
}

/// Applies one line to `options`.
fn apply_line(options: &mut AnalyseOptions, raw: &Vec<char>) -> (r: Result<(), RrlangError>)
    ensures
        step_matches(*old(options), *final(options), r, config_line(old(options)@, raw@)),
{
    let hash = find_char(raw, 0, '#');
    assert(raw@.skip(0) =~= raw@);
    let before = sub_chars(raw, 0, hash);
    assert(before@ =~= raw@.take(hash as int));
    let line = trim_chars(&before);
    if line.len() == 0 || line[0] == '[' {
        return Ok(());
    }
    let eq = find_char(&line, 0, '=');
    assert(line@.skip(0) =~= line@);
    if eq >= line.len() {
        return Ok(());
    }
    let key_part = sub_chars(&line, 0, eq);
    let value_part = sub_chars(&line, eq + 1, line.len());
    assert(key_part@ =~= line@.take(eq as int));
    assert(value_part@ =~= line@.skip(eq + 1));
    let key = trim_chars(&key_part);
    let value = trim_chars(&value_part);
    apply_entry(options, &key, &value)
}

/// Reads run options from the text of a configuration file, starting from the
/// defaults: each line `key = value` sets one option (see [`config_entry`]),
/// `#` starts a comment, blank lines and `[section]` headers are skipped.
/// An unreadable number, an unknown policy or an unknown encoding is an error.
pub fn parse_config_text(text: &str) -> (r: Result<AnalyseOptions, RrlangError>)
    ensures
        match r {
            Ok(options) => config_text(text@) == Ok::<OptionsView, Seq<char>>(options@),
            Err(e) => e matches RrlangError::Message(m) && config_text(text@) == Err::<
                OptionsView,
                Seq<char>,
            >(m@),
        },
{
    let chars = chars_of(text);
    let mut options = AnalyseOptions::default();
    let mut pos: usize = 0;
    assert(chars@.skip(0) =~= chars@);
    loop
        invariant
            pos <= chars.len(),
            chars@ == text@,
            config_text(text@) == config_from(options@, chars@.skip(pos as int)),
        decreases chars.len() - pos,
    {
        let end = find_char(&chars, pos, '\n');
        let raw = sub_chars(&chars, pos, end);
        let ghost tail = chars@.skip(pos as int);
        proof {
            assert(tail.take((end - pos) as int) =~= raw@);
            if end < chars.len() {
                assert(tail.skip(end - pos + 1) =~= chars@.skip(end + 1));
            }
        }
        match apply_line(&mut options, &raw) {
            Err(e) => return Err(e),
            Ok(()) => {},
        }
        if end >= chars.len() {
            return Ok(options);
        }
        pos = end + 1;
    }
}

} // verus!
