//! Size and token counts of a corpus text.
use vstd::prelude::*;

use crate::metrics::distinct_in_order;
use crate::text::{
    ascii_lowercase, ascii_lowercase_chars, chars_of, is_alphanumeric, owned, trim_chars, trimmed,
    unicode_alphanumeric,
};

verus! {

/// Basic size and token counts of a corpus file.
#[derive(Debug, Clone)]
pub struct CorpusInspection {
    pub path: String,
    pub byte_len: usize,
    pub char_len: usize,
    pub line_count: usize,
    pub word_like_count: usize,
    pub unique_word_like_count: usize,
}

/// Characters that separate word-like tokens: anything other than an
/// alphanumeric character, `_` or `-`.
pub open spec fn is_word_separator(c: char) -> bool {
    !unicode_alphanumeric(c) && c != '_' && c != '-'
}

/// The trimmed, non-empty pieces between separators, in order, as they are.
pub open spec fn word_like_tokens(s: Seq<char>) -> Seq<Seq<char>> {
    word_like_from(s, Seq::empty())
}

/// The tokens of `s`, where `cur` is the unfinished piece before `s`.
pub open spec fn word_like_from(s: Seq<char>, cur: Seq<char>) -> Seq<Seq<char>>
    decreases s.len(),
{
    if s.len() == 0 {
        keep_token(cur)
    } else if is_word_separator(s[0]) {
        keep_token(cur) + word_like_from(s.drop_first(), Seq::empty())
    } else {
        word_like_from(s.drop_first(), cur.push(s[0]))
    }
}

/// The token of a finished piece: the trimmed piece, if it is not empty.
pub open spec fn keep_token(piece: Seq<char>) -> Seq<Seq<char>> {
    if trimmed(piece).len() > 0 {
        seq![trimmed(piece)]
    } else {
        Seq::empty()
    }
}

/// The number of lines as `str::lines` yields them: one per line feed, plus a
/// final line without one when the text does not end in a line feed.
pub open spec fn line_count_of(s: Seq<char>) -> nat {
    s.filter(|c: char| c == '\n').len() + (if s.len() > 0 && s.last() != '\n' {
        1nat
    } else {
        0nat
    })
}

/// The counts reported for a text read from `path`.
pub open spec fn inspection_of(inspection: CorpusInspection, path: Seq<char>, text: Seq<char>) -> bool {
    let tokens = word_like_tokens(text);
    &&& inspection.path@ == path
    &&& inspection.byte_len == vstd::utf8::encode_utf8(text).len() as usize
    &&& inspection.char_len == text.len()
    &&& inspection.line_count == line_count_of(text)
    &&& inspection.word_like_count == tokens.len()
    &&& inspection.unique_word_like_count == tokens.map_values(|t: Seq<char>| ascii_lowercase(t)).to_set().len()
}

/// Size, line and token counts of `text`, the content of the file at `path`.
pub fn inspect_text(path: &str, text: &str) -> (r: CorpusInspection)
    ensures
        inspection_of(r, path@, text@),
{
    let chars = chars_of(text);
    let mut tokens: Vec<Vec<char>> = Vec::new();
    let mut lowered: Vec<Vec<char>> = Vec::new();
    let mut piece: Vec<char> = Vec::new();
    let mut lines: usize = 0;
    let mut i: usize = 0;
    assert(chars@.skip(0) =~= chars@);
    while i < chars.len()
        invariant
            i <= chars.len(),
            chars@ == text@,
            lines <= i,
            lines == chars@.take(i as int).filter(|c: char| c == '\n').len(),
            tokens.len() == lowered.len(),
            forall|t: int| 0 <= t < tokens.len() ==> #[trigger] lowered@[t]@ == ascii_lowercase(tokens@[t]@),
            tokens@.map_values(|v: Vec<char>| v@) + word_like_from(chars@.skip(i as int), piece@)
                == word_like_tokens(chars@),
        decreases chars.len() - i,
    {
        let ch = chars[i];
        let ghost rest = chars@.skip(i as int);
        assert(rest[0] == ch);
        assert(rest.drop_first() =~= chars@.skip(i + 1));
        proof {
            reveal_with_fuel(Seq::filter, 1);
            assert(chars@.take(i + 1).drop_last() =~= chars@.take(i as int));
        }
        if ch == '\n' {
            lines = lines + 1;
        }
        if !is_alphanumeric(ch) && ch != '_' && ch != '-' {
            let word = trim_chars(&piece);
            let ghost before = tokens@.map_values(|v: Vec<char>| v@);
            if word.len() > 0 {
                let low = ascii_lowercase_chars(&word);
                tokens.push(word);
                lowered.push(low);
                assert(tokens@.map_values(|v: Vec<char>| v@) =~= before + keep_token(piece@));
            } else {
                assert(tokens@.map_values(|v: Vec<char>| v@) =~= before + keep_token(piece@));
            }
            piece = Vec::new();
        } else {
            piece.push(ch);
        }
        i = i + 1;
    }
    let word = trim_chars(&piece);
    let ghost before = tokens@.map_values(|v: Vec<char>| v@);
    if word.len() > 0 {
        let low = ascii_lowercase_chars(&word);
        tokens.push(word);
        lowered.push(low);
    }
    assert(tokens@.map_values(|v: Vec<char>| v@) =~= before + keep_token(piece@));
    assert(chars@.take(chars.len() as int) =~= chars@);
    let ends_open = chars.len() > 0 && chars[chars.len() - 1] != '\n';
    proof {
        if ends_open {
            reveal_with_fuel(Seq::filter, 1);
            chars@.drop_last().lemma_filter_len(|c: char| c == '\n');
        }
    }
    let line_count = if ends_open {
        lines + 1
    } else {
        lines
    };
    let unique = count_distinct(&lowered);
    let ghost tv = tokens@.map_values(|v: Vec<char>| v@);
    assert(lowered@.map_values(|v: Vec<char>| v@) =~= tv.map_values(|t: Seq<char>| ascii_lowercase(t)));
    let r = CorpusInspection {
        path: owned(path),
        byte_len: text.len(),
        char_len: chars.len(),
        line_count,
        word_like_count: tokens.len(),
        unique_word_like_count: unique,
    };
    assert(r.path@ == path@);
    assert(r.byte_len == vstd::utf8::encode_utf8(text@).len() as usize);
    assert(r.char_len == text@.len());
    assert(r.line_count == line_count_of(text@));
    assert(r.word_like_count == word_like_tokens(text@).len());
    assert(r.unique_word_like_count == word_like_tokens(text@).map_values(|t: Seq<char>| ascii_lowercase(t)).to_set().len());
    r
}

fn chars_vec_equal(a: &Vec<char>, b: &Vec<char>) -> (r: bool)
    ensures
        r == (a@ == b@),
{
    if a.len() != b.len() {
        return false;
    }
    let mut i: usize = 0;
    while i < a.len()
        invariant
            i <= a.len(),
            a.len() == b.len(),
            forall|k: int| 0 <= k < i ==> a@[k] == b@[k],
        decreases a.len() - i,
    {
        if a[i] != b[i] {
            assert(a@[i as int] != b@[i as int]);
            return false;
        }
        i = i + 1;
    }
    assert(a@ =~= b@);
    true
}

/// The number of distinct character sequences among `items`.
fn count_distinct(items: &Vec<Vec<char>>) -> (r: usize)
    ensures
        r == items@.map_values(|v: Vec<char>| v@).to_set().len(),
{
    let ghost iv = items@.map_values(|v: Vec<char>| v@);
    let mut seen: Vec<Vec<char>> = Vec::new();
    let mut k: usize = 0;
    while k < items.len()
        invariant
            k <= items.len(),
            iv == items@.map_values(|v: Vec<char>| v@),
            seen@.map_values(|v: Vec<char>| v@) == distinct_in_order(iv.take(k as int)),
        decreases items.len() - k,
    {
        let ghost pre = iv.take(k as int);
        assert(iv.take(k + 1).drop_last() =~= pre);
        assert(iv.take(k + 1).last() == items@[k as int]@);
        let ghost sv = seen@.map_values(|v: Vec<char>| v@);
        let mut j: usize = 0;
        let mut found = false;
        while j < seen.len() && !found
            invariant
                j <= seen.len(),
                sv == seen@.map_values(|v: Vec<char>| v@),
                found ==> sv.contains(items@[k as int]@),
                !found ==> forall|t: int| 0 <= t < j ==> sv[t] != items@[k as int]@,
                k < items.len(),
            decreases seen.len() - j + (if found { 0int } else { 1int }),
        {
            if chars_vec_equal(&seen[j], &items[k]) {
                assert(sv[j as int] == items@[k as int]@);
                found = true;
            } else {
                j = j + 1;
            }
        }
        if !found {
            assert(!sv.contains(items@[k as int]@));
            let copy = crate::text::sub_chars(&items[k], 0, items[k].len());
            assert(copy@ =~= items@[k as int]@);
            seen.push(copy);
            assert(seen@.map_values(|v: Vec<char>| v@) =~= sv.push(items@[k as int]@));
        }
        k = k + 1;
    }
    assert(iv.take(items.len() as int) =~= iv);
    proof {
        crate::metrics::lemma_distinct_in_order_facts(iv);
        let d = distinct_in_order(iv);
        d.unique_seq_to_set();
        assert(d.to_set() =~= iv.to_set());
    }
    seen.len()
}

} // verus!
