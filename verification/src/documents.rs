use vstd::prelude::*;
use vstd::string::StrSliceExecFns;

use crate::extract::{clean_chars, clean_spec, clean_text, extract_text_from_html, html_text_spec};
use crate::order::{lemma_text_lt_irreflexive, lemma_text_lt_total, lemma_text_lt_transitive, str_eq, str_less, text_lt};
use crate::text::{
    trim_str, views_of,
    find_first, slice_chars, split_once_spec, trim_chars, trim_spec, is_ws, trim_bounds, trim_start_spec,
    ascii_lower, has_char, lemma_trim_matches_range, chars_of, is_ascii_alnum, push_str, string_of, to_ascii_lower, trim_matches_char,
    trim_matches_spec, trim_end_char, trim_start_char,
};

verus! {

/// The record key of a graph node: `{kind}--{node_id}`.
pub open spec fn record_key_spec(kind: Seq<char>, node_id: Seq<char>) -> Seq<char> {
    kind + "--"@ + node_id
}

/// The record key under which a node of `kind` with `node_id` is stored.
pub fn graph_node_record_key(kind: &str, node_id: &str) -> (r: String)
    ensures
        r@ == record_key_spec(kind@, node_id@),
{
    let mut v: Vec<char> = Vec::new();
    push_str(&mut v, kind);
    push_str(&mut v, "--");
    push_str(&mut v, node_id);
    string_of(v.as_slice())
}

/// Nodes of different kinds or with different identifiers are stored under
/// different record keys: a key whose kind is a slug (as every node kind is)
/// determines the kind and the identifier.
pub proof fn lemma_record_key_injective(k1: Seq<char>, n1: Seq<char>, k2: Seq<char>, n2: Seq<char>)
    requires
        is_slug(k1),
        is_slug(k2),
    ensures
        record_key_spec(k1, n1) == record_key_spec(k2, n2) ==> k1 == k2 && n1 == n2,
{
    reveal_strlit("--");
    let key1 = record_key_spec(k1, n1);
    let key2 = record_key_spec(k2, n2);
    let a = k1.len() as int;
    let b = k2.len() as int;
    if key1 == key2 {
        assert(key1[a] == '-' && key1[a + 1] == '-');
        if a < b {
            assert(key2[a] == k2[a]);
            if a + 1 < b {
                assert(key2[a + 1] == k2[a + 1]);
                assert(k2[a] == '-' && k2[a + 1] == '-');
            }
        } else if b < a {
            assert(key2[b] == '-' && key2[b + 1] == '-');
            assert(key1[b] == k1[b]);
            if b + 1 < a {
                assert(key1[b + 1] == k1[b + 1]);
                assert(k1[b] == '-' && k1[b + 1] == '-');
            }
        }
        assert(a == b);
        assert(k1 =~= key1.take(a));
        assert(k2 =~= key2.take(b));
        assert(n1 =~= key1.skip(a + 2));
        assert(n2 =~= key2.skip(b + 2));
    }
}

/// Whether `--` starts at position `i` of `key` and nowhere before it.
pub open spec fn is_first_double_dash(key: Seq<char>, i: int) -> bool {
    &&& 0 <= i && i + 1 < key.len()
    &&& key[i] == '-' && key[i + 1] == '-'
    &&& forall|j: int| 0 <= j < i ==> !(#[trigger] key[j] == '-' && key[j + 1] == '-')
}

/// `str::split_once("--")`: the parts before and after the first `--`.
pub open spec fn split_at_double_dash(key: Seq<char>) -> Option<(Seq<char>, Seq<char>)> {
    if exists|i: int| is_first_double_dash(key, i) {
        let i = choose|i: int| is_first_double_dash(key, i);
        Some((key.take(i), key.skip(i + 2)))
    } else {
        None
    }
}

/// A record key splits at its first `--` into the node's kind and
/// identifier, whenever the kind is a slug (as every node kind is).
pub proof fn lemma_record_key_splits(kind: Seq<char>, node_id: Seq<char>)
    requires
        is_slug(kind),
    ensures
        split_at_double_dash(record_key_spec(kind, node_id)) == Some((kind, node_id)),
{
    reveal_strlit("--");
    let key = record_key_spec(kind, node_id);
    let a = kind.len() as int;
    assert forall|j: int| 0 <= j < a implies !(#[trigger] key[j] == '-' && key[j + 1] == '-') by {
        assert(key[j] == kind[j]);
        if j + 1 < a {
            assert(key[j + 1] == kind[j + 1]);
        }
    }
    assert(is_first_double_dash(key, a));
    let i = choose|i: int| is_first_double_dash(key, i);
    if i < a {
        assert(key[i] == '-' && key[i + 1] == '-');
    }
    if i > a {
        assert(!(key[a] == '-' && key[a + 1] == '-'));
    }
    assert(i == a);
    assert(key.take(a) =~= kind);
    assert(key.skip(a + 2) =~= node_id);
}

/// Characters that separate words of a node identifier.
pub open spec fn is_slug_separator(c: char) -> bool {
    c == '-' || c == '_' || c == '/' || c == ':' || c == '.' || c == ' '
}

/// One step of slug building: letters and digits are kept in lower case,
/// separators become a dash unless the slug is empty or already ends in one,
/// anything else is dropped.
pub open spec fn slug_step(acc: Seq<char>, c: char) -> Seq<char> {
    if is_ascii_alnum(c) {
        acc.push(ascii_lower(c))
    } else if is_slug_separator(c) {
        if acc.len() == 0 || acc.last() == '-' {
            acc
        } else {
            acc.push('-')
        }
    } else {
        acc
    }
}

/// The slug built from all characters of `s`, before trimming dashes.
pub open spec fn slug_fold(s: Seq<char>) -> Seq<char>
    decreases s.len(),
{
    if s.len() == 0 {
        Seq::empty()
    } else {
        slug_step(slug_fold(s.drop_last()), s.last())
    }
}

/// The normalised node identifier of `s`, if it has any letter or digit.
pub open spec fn normalize_spec(s: Seq<char>) -> Option<Seq<char>> {
    let t = trim_matches_spec(slug_fold(s), '-');
    if t.len() == 0 {
        None
    } else {
        Some(t)
    }
}

/// A well-formed node identifier: lower-case ASCII letters, digits and single
/// dashes, neither starting nor ending with a dash.
pub open spec fn is_slug(t: Seq<char>) -> bool {
    &&& t.len() > 0
    &&& forall|i: int|
        0 <= i < t.len() ==> (('0' <= #[trigger] t[i] && t[i] <= '9') || ('a' <= t[i] && t[i]
            <= 'z') || t[i] == '-')
    &&& forall|i: int| 0 <= i < t.len() - 1 ==> !(#[trigger] t[i] == '-' && t[i + 1] == '-')
    &&& t[0] != '-'
    &&& t.last() != '-'
}

proof fn lemma_slug_fold_shape(s: Seq<char>)
    ensures
        forall|i: int|
            0 <= i < slug_fold(s).len() ==> (('0' <= #[trigger] slug_fold(s)[i] && slug_fold(s)[i]
                <= '9') || ('a' <= slug_fold(s)[i] && slug_fold(s)[i] <= 'z') || slug_fold(s)[i]
                == '-'),
        forall|i: int|
            0 <= i < slug_fold(s).len() - 1 ==> !(#[trigger] slug_fold(s)[i] == '-' && slug_fold(
                s,
            )[i + 1] == '-'),
        slug_fold(s).len() > 0 ==> slug_fold(s)[0] != '-',
    decreases s.len(),
{
    if s.len() > 0 {
        lemma_slug_fold_shape(s.drop_last());
        let a = slug_fold(s.drop_last());
        let r = slug_fold(s);
        if r.len() > a.len() {
            assert forall|i: int| 0 <= i < a.len() implies r[i] == a[i] by {}
        }
        let c = s.last();
        if 'A' <= c && c <= 'Z' {
            assert(('a' <= ascii_lower(c) && ascii_lower(c) <= 'z'));
        }
    }
}

/// A normalised identifier is always a well-formed slug.
pub proof fn lemma_normalize_is_slug(s: Seq<char>)
    ensures
        normalize_spec(s) matches Some(t) ==> is_slug(t),
{
    lemma_slug_fold_shape(s);
    let f = slug_fold(s);
    lemma_trim_matches_range(f, '-');
    let t = trim_matches_spec(f, '-');
    let (lo, hi) = choose|lo: int, hi: int|
        0 <= lo <= hi <= f.len() && t == #[trigger] f.subrange(lo, hi);
    assert forall|i: int| 0 <= i < t.len() implies #[trigger] t[i] == f[i + lo] by {}
    if t.len() > 0 {
        assert forall|i: int| 0 <= i < t.len() - 1 implies !(#[trigger] t[i] == '-' && t[i + 1]
            == '-') by {
            assert(t[i] == f[i + lo] && t[i + 1] == f[i + lo + 1]);
        }
        assert forall|i: int|
            0 <= i < t.len() implies (('0' <= #[trigger] t[i] && t[i] <= '9') || ('a' <= t[i]
            && t[i] <= 'z') || t[i] == '-') by {
            assert(t[i] == f[i + lo]);
        }
    }
}

proof fn lemma_slug_fold_fixes_prefix(t: Seq<char>, k: int)
    requires
        is_slug(t),
        0 <= k <= t.len(),
    ensures
        slug_fold(t.take(k)) == t.take(k),
    decreases k,
{
    if k > 0 {
        lemma_slug_fold_fixes_prefix(t, k - 1);
        assert(t.take(k).drop_last() =~= t.take(k - 1));
        assert(t.take(k).last() == t[k - 1]);
        if t[k - 1] == '-' {
            assert(k - 1 > 0);
            assert(!(t[k - 2] == '-' && t[k - 1] == '-'));
        }
        assert(t.take(k - 1).push(t[k - 1]) =~= t.take(k));
    }
}

/// Normalising a well-formed slug gives it back unchanged, so normalising is
/// idempotent.
pub proof fn lemma_normalize_fixes_slug(t: Seq<char>)
    requires
        is_slug(t),
    ensures
        normalize_spec(t) == Some(t),
{
    lemma_slug_fold_fixes_prefix(t, t.len() as int);
    assert(t.take(t.len() as int) =~= t);
    assert(trim_start_char(t, '-') == t);
    assert(trim_end_char(t, '-') == t);
}

/// Normalising the result of a normalisation changes nothing.
pub proof fn lemma_normalize_idempotent(s: Seq<char>)
    ensures
        normalize_spec(s) matches Some(t) ==> normalize_spec(t) == Some(t),
{
    lemma_normalize_is_slug(s);
    if let Some(t) = normalize_spec(s) {
        lemma_normalize_fixes_slug(t);
    }
}

/// Turns `candidate` into a node identifier: ASCII letters and digits in lower
/// case, runs of separators (`-`, `_`, `/`, `:`, `.`, space) as one dash, other
/// characters dropped, and no dash at either end. `None` when nothing is left.
pub fn normalize_node_id(candidate: &str) -> (r: Option<String>)
    ensures
        r matches Some(t) ==> Some(t@) == normalize_spec(candidate@),
        r is None <==> normalize_spec(candidate@) is None,
{
    let v = chars_of(candidate);
    let mut slug: Vec<char> = Vec::new();
    let mut i: usize = 0;
    while i < v.len()
        invariant
            i <= v@.len(),
            slug@ == slug_fold(v@.take(i as int)),
        decreases v@.len() - i,
    {
        let ch = v[i];
        assert(v@.take(i + 1).drop_last() =~= v@.take(i as int));
        if ('0' <= ch && ch <= '9') || ('a' <= ch && ch <= 'z') || ('A' <= ch && ch <= 'Z') {
            slug.push(to_ascii_lower(ch));
        } else if ch == '-' || ch == '_' || ch == '/' || ch == ':' || ch == '.' || ch == ' ' {
            if slug.len() > 0 && slug[slug.len() - 1] != '-' {
                slug.push('-');
            }
        }
        i = i + 1;
    }
    assert(v@.take(v@.len() as int) =~= v@);
    let t = trim_matches_char(slug.as_slice(), '-');
    if t.len() == 0 {
        None
    } else {
        Some(string_of(t.as_slice()))
    }
}


/// The identifier used for a label: its normalisation, or `node` when the label
/// has no letter or digit.
pub open spec fn slugify_spec(label: Seq<char>) -> Seq<char> {
    match normalize_spec(label) {
        Some(t) => t,
        None => "node"@,
    }
}

/// The node identifier derived from a label, falling back to `node`.
pub fn slugify_node_id(label: &str) -> (r: String)
    ensures
        r@ == slugify_spec(label@),
{
    match normalize_node_id(label) {
        Some(t) => t,
        None => "node".to_string(),
    }
}

/// A reference `kind:node_id`: the text around the first colon of the trimmed
/// value, each part normalised.
pub open spec fn parse_reference_spec(value: Seq<char>) -> Option<(Seq<char>, Seq<char>)> {
    match split_once_spec(trim_spec(value), ':') {
        Some((k, n)) => match (normalize_spec(k), normalize_spec(n)) {
            (Some(kind), Some(node_id)) => Some((kind, node_id)),
            _ => None,
        },
        None => None,
    }
}

/// The identifier derived from any label is a well-formed slug.
pub proof fn lemma_slugify_is_slug(label: Seq<char>)
    ensures
        is_slug(slugify_spec(label)),
{
    lemma_normalize_is_slug(label);
    reveal_strlit("node");
}

/// Parses a node reference written as `kind:node_id`.
pub fn parse_node_reference(value: &str) -> (r: Option<(String, String)>)
    ensures
        r is None <==> parse_reference_spec(value@) is None,
        r matches Some((k, n)) ==> parse_reference_spec(value@) == Some((k@, n@)),
{
    let v = chars_of(value);
    let t = trim_chars(v.as_slice());
    match find_first(t.as_slice(), ':') {
        None => None,
        Some(i) => {
            let k = string_of(slice_chars(t.as_slice(), 0, i).as_slice());
            let n = string_of(slice_chars(t.as_slice(), i + 1, t.len()).as_slice());
            proof {
                assert(t@.subrange(0, i as int) =~= t@.take(i as int));
                assert(t@.subrange(i + 1, t@.len() as int) =~= t@.skip(i + 1));
            }
            let kind = normalize_node_id(k.as_str());
            let node_id = normalize_node_id(n.as_str());
            match (kind, node_id) {
                (Some(kind), Some(node_id)) => Some((kind, node_id)),
                _ => None,
            }
        },
    }
}

/// The HTML escape of one character.
pub open spec fn escape_char_spec(c: char) -> Seq<char> {
    if c == '&' {
        "&amp;"@
    } else if c == '<' {
        "&lt;"@
    } else if c == '>' {
        "&gt;"@
    } else if c == '"' {
        "&quot;"@
    } else if c == '\'' {
        "&#39;"@
    } else {
        seq![c]
    }
}

/// `s` with `&`, `<`, `>`, `"` and `'` replaced by their HTML entities.
pub open spec fn escape_spec(s: Seq<char>) -> Seq<char>
    decreases s.len(),
{
    if s.len() == 0 {
        Seq::empty()
    } else {
        escape_spec(s.drop_last()) + escape_char_spec(s.last())
    }
}

/// Appends the escape of `v` to `out`.
pub fn push_escaped(out: &mut Vec<char>, v: &[char])
    ensures
        final(out)@ == old(out)@ + escape_spec(v@),
{
    let ghost o0 = out@;
    let mut i: usize = 0;
    while i < v.len()
        invariant
            i <= v@.len(),
            out@ == o0 + escape_spec(v@.take(i as int)),
        decreases v@.len() - i,
    {
        let c = v[i];
        assert(v@.take(i + 1).drop_last() =~= v@.take(i as int));
        if c == '&' {
            push_str(out, "&amp;");
        } else if c == '<' {
            push_str(out, "&lt;");
        } else if c == '>' {
            push_str(out, "&gt;");
        } else if c == '"' {
            push_str(out, "&quot;");
        } else if c == '\'' {
            push_str(out, "&#39;");
        } else {
            out.push(c);
            assert(seq![c] =~= escape_char_spec(c));
        }
        assert(o0 + escape_spec(v@.take(i + 1)) =~= o0 + escape_spec(v@.take(i as int))
            + escape_char_spec(c));
        i = i + 1;
    }
    assert(v@.take(v@.len() as int) =~= v@);
}

/// Escapes `&`, `<`, `>`, `"` and `'` for use in HTML text and attributes.
pub fn escape_html(value: &str) -> (r: String)
    ensures
        r@ == escape_spec(value@),
{
    let v = chars_of(value);
    let mut out: Vec<char> = Vec::new();
    push_escaped(&mut out, v.as_slice());
    string_of(out.as_slice())
}

/// Escaped text holds no `<`, `>`, `"` or `'`.
pub proof fn lemma_escape_has_no_markup(s: Seq<char>)
    ensures
        forall|i: int|
            0 <= i < escape_spec(s).len() ==> #[trigger] escape_spec(s)[i] != '<'
                && escape_spec(s)[i] != '>' && escape_spec(s)[i] != '"' && escape_spec(s)[i]
                != '\'',
    decreases s.len(),
{
    if s.len() > 0 {
        lemma_escape_has_no_markup(s.drop_last());
        reveal_strlit("&amp;");
        reveal_strlit("&lt;");
        reveal_strlit("&gt;");
        reveal_strlit("&quot;");
        reveal_strlit("&#39;");
        let a = escape_spec(s.drop_last());
        let e = escape_char_spec(s.last());
        assert forall|i: int| 0 <= i < (a + e).len() implies #[trigger] (a + e)[i] != '<' && (a
            + e)[i] != '>' && (a + e)[i] != '"' && (a + e)[i] != '\'' by {
            if i >= a.len() {
                assert((a + e)[i] == e[i - a.len()]);
            }
        }
    }
}

/// The characters that `escape_html` replaces.
pub open spec fn is_escape_special(c: char) -> bool {
    c == '&' || c == '<' || c == '>' || c == '"' || c == '\''
}

/// Decodes the five HTML entities that `escape_html` writes, read from the
/// front; any other character stands for itself.
pub open spec fn unescape_spec(t: Seq<char>) -> Seq<char>
    decreases t.len(),
{
    if t.len() == 0 {
        Seq::empty()
    } else if t.len() >= 5 && t.take(5) == "&amp;"@ {
        seq!['&'] + unescape_spec(t.skip(5))
    } else if t.len() >= 4 && t.take(4) == "&lt;"@ {
        seq!['<'] + unescape_spec(t.skip(4))
    } else if t.len() >= 4 && t.take(4) == "&gt;"@ {
        seq!['>'] + unescape_spec(t.skip(4))
    } else if t.len() >= 6 && t.take(6) == "&quot;"@ {
        seq!['"'] + unescape_spec(t.skip(6))
    } else if t.len() >= 5 && t.take(5) == "&#39;"@ {
        seq!['\''] + unescape_spec(t.skip(5))
    } else {
        seq![t[0]] + unescape_spec(t.skip(1))
    }
}

proof fn lemma_escape_concat(a: Seq<char>, b: Seq<char>)
    ensures
        escape_spec(a + b) == escape_spec(a) + escape_spec(b),
    decreases b.len(),
{
    if b.len() == 0 {
        assert(a + b =~= a);
        assert(escape_spec(a) + escape_spec(b) =~= escape_spec(a));
    } else {
        lemma_escape_concat(a, b.drop_last());
        assert((a + b).drop_last() =~= a + b.drop_last());
        assert((a + b).last() == b.last());
        assert(escape_spec(a + b) =~= escape_spec(a) + escape_spec(b.drop_last()) + escape_char_spec(b.last()));
    }
}

/// Decoding the entities of an escaped text gives the text back.
pub proof fn lemma_unescape_escape(s: Seq<char>)
    ensures
        unescape_spec(escape_spec(s)) == s,
    decreases s.len(),
{
    reveal_strlit("&amp;");
    reveal_strlit("&lt;");
    reveal_strlit("&gt;");
    reveal_strlit("&quot;");
    reveal_strlit("&#39;");
    if s.len() > 0 {
        let c = s[0];
        let rest = s.skip(1);
        assert(s =~= seq![c] + rest);
        lemma_escape_concat(seq![c], rest);
        assert(seq![c].drop_last() =~= Seq::<char>::empty());
        assert(escape_spec(Seq::<char>::empty()) =~= Seq::<char>::empty());
        assert(seq![c].last() == c);
        assert(escape_spec(seq![c]) =~= escape_char_spec(c));
        let e = escape_char_spec(c);
        let t = escape_spec(s);
        assert(t =~= e + escape_spec(rest));
        lemma_unescape_escape(rest);
        assert(t.take(e.len() as int) =~= e);
        assert(t.skip(e.len() as int) =~= escape_spec(rest));
        assert(t[0] == e[0]);
        if e.len() > 1 {
            assert(t[1] == e[1]);
        }
        if t.len() >= 5 {
            assert(t.take(5)[0] == t[0] && t.take(5)[1] == t[1]);
        }
        if t.len() >= 4 {
            assert(t.take(4)[0] == t[0] && t.take(4)[1] == t[1]);
        }
        if t.len() >= 6 {
            assert(t.take(6)[0] == t[0] && t.take(6)[1] == t[1]);
        }
        if !is_escape_special(c) {
            assert(t.skip(1) =~= escape_spec(rest));
        }
        assert(unescape_spec(t) =~= s);
    }
}

proof fn lemma_escape_len(s: Seq<char>)
    ensures
        escape_spec(s).len() >= s.len(),
        escape_spec(s).len() == s.len() <==> forall|i: int| 0 <= i < s.len() ==> !is_escape_special(#[trigger] s[i]),
        (forall|i: int| 0 <= i < s.len() ==> !is_escape_special(#[trigger] s[i])) ==> escape_spec(s) == s,
    decreases s.len(),
{
    reveal_strlit("&amp;");
    reveal_strlit("&lt;");
    reveal_strlit("&gt;");
    reveal_strlit("&quot;");
    reveal_strlit("&#39;");
    if s.len() > 0 {
        let p = s.drop_last();
        lemma_escape_len(p);
        if forall|i: int| 0 <= i < s.len() ==> !is_escape_special(#[trigger] s[i]) {
            assert forall|i: int| 0 <= i < p.len() implies !is_escape_special(#[trigger] p[i]) by {
                assert(p[i] == s[i]);
            }
            assert(!is_escape_special(s[s.len() - 1]));
            assert(escape_spec(s) =~= p.push(s.last()));
            assert(s =~= p.push(s.last()));
        } else {
            let k = choose|k: int| 0 <= k < s.len() && is_escape_special(#[trigger] s[k]);
            if k == s.len() - 1 {
                assert(escape_char_spec(s.last()).len() >= 4);
            } else {
                assert(p[k] == s[k]);
                assert(!(forall|i: int| 0 <= i < p.len() ==> !is_escape_special(#[trigger] p[i])));
            }
        }
    }
}

/// Escaping leaves a text unchanged exactly when it holds none of the five
/// characters it replaces.
pub proof fn lemma_escape_unchanged(s: Seq<char>)
    ensures
        escape_spec(s) == s <==> forall|i: int| 0 <= i < s.len() ==> !is_escape_special(#[trigger] s[i]),
{
    lemma_escape_len(s);
}

/// Whether `value` looks like markup: after leading whitespace it starts with
/// `<` and it contains a `>`.
pub open spec fn looks_like_markup_spec(value: Seq<char>) -> bool {
    let t = trim_start_spec(value);
    t.len() > 0 && t[0] == '<' && has_char(t, '>')
}

pub fn looks_like_markup(value: &str) -> (r: bool)
    ensures
        r == looks_like_markup_spec(value@),
{
    let v = chars_of(value);
    let (lo, _hi) = trim_bounds(v.as_slice());
    let t = slice_chars(v.as_slice(), lo, v.len());
    proof {
        assert(t@ =~= v@.skip(lo as int));
    }
    t.len() > 0 && t[0] == '<' && find_first(t.as_slice(), '>').is_some()
}


/// `s` with every `\r\n` replaced by `\n`, scanning left to right.
pub open spec fn crlf_to_lf(s: Seq<char>) -> Seq<char>
    decreases s.len(),
{
    if s.len() == 0 {
        Seq::empty()
    } else if s.len() >= 2 && s[0] == '\r' && s[1] == '\n' {
        seq!['\n'] + crlf_to_lf(s.skip(2))
    } else {
        seq![s[0]] + crlf_to_lf(s.skip(1))
    }
}

/// Puts `prefix` in front of the first piece.
pub open spec fn prefix_first(prefix: Seq<char>, pieces: Seq<Seq<char>>) -> Seq<Seq<char>> {
    seq![prefix + pieces[0]] + pieces.skip(1)
}

/// The pieces of `s` between occurrences of a blank line `\n\n`, scanning left
/// to right (`str::split("\n\n")`).
pub open spec fn split_blank_lines(s: Seq<char>) -> Seq<Seq<char>>
    decreases s.len(),
{
    if s.len() == 0 {
        seq![Seq::empty()]
    } else if s.len() >= 2 && s[0] == '\n' && s[1] == '\n' {
        seq![Seq::empty()] + split_blank_lines(s.skip(2))
    } else {
        prefix_first(seq![s[0]], split_blank_lines(s.skip(1)))
    }
}

/// The paragraphs of the pieces: each piece trimmed, blank ones dropped, the
/// rest cleaned, empty results dropped.
pub open spec fn paragraphs_of(pieces: Seq<Seq<char>>) -> Seq<Seq<char>>
    decreases pieces.len(),
{
    if pieces.len() == 0 {
        Seq::empty()
    } else {
        let rest = paragraphs_of(pieces.drop_last());
        let t = trim_spec(pieces.last());
        if t.len() == 0 {
            rest
        } else if clean_spec(t).len() == 0 {
            rest
        } else {
            rest.push(clean_spec(t))
        }
    }
}

/// Each paragraph escaped and wrapped in `<p>…</p>`, concatenated.
pub open spec fn paragraph_markup(paras: Seq<Seq<char>>) -> Seq<char>
    decreases paras.len(),
{
    if paras.len() == 0 {
        Seq::empty()
    } else {
        paragraph_markup(paras.drop_last()) + "<p>"@ + escape_spec(paras.last()) + "</p>"@
    }
}

/// The paragraphs of a plain text.
pub open spec fn text_paragraphs(text: Seq<char>) -> Seq<Seq<char>> {
    paragraphs_of(split_blank_lines(crlf_to_lf(text)))
}

/// A plain text as paragraph markup.
pub open spec fn paragraphize_spec(text: Seq<char>) -> Seq<char> {
    paragraph_markup(text_paragraphs(text))
}

fn crlf_chars(v: &[char]) -> (r: Vec<char>)
    ensures
        r@ == crlf_to_lf(v@),
{
    let mut out: Vec<char> = Vec::new();
    let mut i: usize = 0;
    assert(v@.skip(0) =~= v@);
    assert(out@ + crlf_to_lf(v@) =~= crlf_to_lf(v@));
    while i < v.len()
        invariant
            i <= v@.len(),
            out@ + crlf_to_lf(v@.skip(i as int)) == crlf_to_lf(v@),
        decreases v@.len() - i,
    {
        let ghost rest = v@.skip(i as int);
        if i + 1 < v.len() && v[i] == '\r' && v[i + 1] == '\n' {
            assert(rest.skip(2) =~= v@.skip(i + 2));
            out.push('\n');
            assert(out@ + crlf_to_lf(v@.skip(i + 2)) =~= out@.drop_last() + (seq!['\n']
                + crlf_to_lf(rest.skip(2))));
            i = i + 2;
        } else {
            assert(rest.skip(1) =~= v@.skip(i + 1));
            out.push(v[i]);
            assert(out@ + crlf_to_lf(v@.skip(i + 1)) =~= out@.drop_last() + (seq![rest[0]]
                + crlf_to_lf(rest.skip(1))));
            i = i + 1;
        }
    }
    assert(v@.skip(i as int) =~= Seq::<char>::empty());
    assert(out@ + Seq::<char>::empty() =~= out@);
    out
}

proof fn lemma_split_blank_nonempty(s: Seq<char>)
    ensures
        split_blank_lines(s).len() >= 1,
    decreases s.len(),
{
    if s.len() > 0 {
        if s.len() >= 2 && s[0] == '\n' && s[1] == '\n' {
            lemma_split_blank_nonempty(s.skip(2));
        } else {
            lemma_split_blank_nonempty(s.skip(1));
        }
    }
}

fn split_blank_chars(v: &[char]) -> (r: Vec<Vec<char>>)
    ensures
        views_of(r@) == split_blank_lines(v@),
{
    let mut done: Vec<Vec<char>> = Vec::new();
    let mut cur: Vec<char> = Vec::new();
    let mut i: usize = 0;
    assert(v@.skip(0) =~= v@);
    proof {
        lemma_split_blank_nonempty(v@);
        assert(views_of(done@) =~= Seq::<Seq<char>>::empty());
        assert(prefix_first(cur@, split_blank_lines(v@)) =~= split_blank_lines(v@));
    }
    while i < v.len()
        invariant
            i <= v@.len(),
            split_blank_lines(v@) == views_of(done@) + prefix_first(
                cur@,
                split_blank_lines(v@.skip(i as int)),
            ),
        decreases v@.len() - i,
    {
        let ghost rest = v@.skip(i as int);
        if i + 1 < v.len() && v[i] == '\n' && v[i + 1] == '\n' {
            assert(rest.skip(2) =~= v@.skip(i + 2));
            let ghost tail = split_blank_lines(rest.skip(2));
            let ghost d0 = views_of(done@);
            let piece = cur;
            done.push(piece);
            cur = Vec::new();
            assert(views_of(done@) =~= d0.push(piece@));
            assert(prefix_first(piece@, split_blank_lines(rest)) =~= seq![piece@] + prefix_first(
                Seq::<char>::empty(),
                tail,
            ));
            assert(d0 + prefix_first(piece@, split_blank_lines(rest)) =~= views_of(done@)
                + prefix_first(cur@, tail));
            i = i + 2;
        } else {
            assert(rest.skip(1) =~= v@.skip(i + 1));
            let ghost tail = split_blank_lines(rest.skip(1));
            let ghost c0 = cur@;
            proof {
                lemma_split_blank_nonempty(rest.skip(1));
            }
            cur.push(v[i]);
            assert(prefix_first(seq![rest[0]], tail).skip(1) =~= tail.skip(1));
            assert(prefix_first(seq![rest[0]], tail)[0] == seq![rest[0]] + tail[0]);
            assert(c0 + (seq![rest[0]] + tail[0]) =~= cur@ + tail[0]);
            assert(prefix_first(c0, prefix_first(seq![rest[0]], tail)) =~= prefix_first(
                cur@,
                tail,
            ));
            i = i + 1;
        }
    }
    assert(v@.skip(i as int) =~= Seq::<char>::empty());
    let ghost d0 = views_of(done@);
    let last = cur;
    done.push(last);
    assert(views_of(done@) =~= d0.push(last@));
    assert(prefix_first(last@, seq![Seq::<char>::empty()]) =~= seq![last@]);
    done
}

/// Wraps each non-blank paragraph of `text` in `<p>…</p>` with its content
/// cleaned and escaped; paragraphs are separated by blank lines.
pub fn paragraphize(text: &str) -> (r: String)
    ensures
        r@ == paragraphize_spec(text@),
{
    let v = chars_of(text);
    let lf = crlf_chars(v.as_slice());
    let pieces = split_blank_chars(lf.as_slice());
    let mut paras: Vec<Vec<char>> = Vec::new();
    let mut out: Vec<char> = Vec::new();
    let mut i: usize = 0;
    while i < pieces.len()
        invariant
            i <= pieces@.len(),
            views_of(pieces@) == split_blank_lines(crlf_to_lf(v@)),
            views_of(paras@) == paragraphs_of(views_of(pieces@).take(i as int)),
            out@ == paragraph_markup(views_of(paras@)),
        decreases pieces@.len() - i,
    {
        let ghost pv = views_of(pieces@);
        assert(pv.take(i + 1).drop_last() =~= pv.take(i as int));
        assert(pv.take(i + 1).last() == pieces@[i as int]@);
        let t = trim_chars(pieces[i].as_slice());
        if t.len() > 0 {
            let c = clean_chars(t.as_slice());
            if c.len() > 0 {
                let ghost before = views_of(paras@);
                push_str(&mut out, "<p>");
                push_escaped(&mut out, c.as_slice());
                push_str(&mut out, "</p>");
                paras.push(c);
                assert(views_of(paras@) =~= before.push(paras@.last()@));
                assert(views_of(paras@).drop_last() =~= before);
            }
        }
        i = i + 1;
    }
    assert(views_of(pieces@).take(pieces@.len() as int) =~= views_of(pieces@));
    string_of(out.as_slice())
}

proof fn lemma_paragraph_markup_shape(paras: Seq<Seq<char>>)
    ensures
        paras.len() == 0 ==> paragraph_markup(paras).len() == 0,
        paras.len() > 0 ==> paragraph_markup(paras).len() > 0 && paragraph_markup(paras)[0] == '<'
            && paragraph_markup(paras).last() == '>',
    decreases paras.len(),
{
    if paras.len() > 0 {
        lemma_paragraph_markup_shape(paras.drop_last());
        reveal_strlit("<p>");
        reveal_strlit("</p>");
        let a = paragraph_markup(paras.drop_last());
        let m = paragraph_markup(paras);
        assert(m == a + "<p>"@ + escape_spec(paras.last()) + "</p>"@);
        if a.len() == 0 {
            assert(m[0] == "<p>"@[0]);
        } else {
            assert(m[0] == a[0]);
        }
    }
}

/// Storing content as document markup twice changes nothing more than
/// storing it once.
pub proof fn lemma_document_markup_idempotent(content: Seq<char>)
    ensures
        document_markup_spec(document_markup_spec(content)) == document_markup_spec(content),
{
    let t = trim_spec(content);
    crate::text::lemma_trim_idempotent(content);
    crate::text::lemma_trim_shape(content);
    crate::text::lemma_trim_fixes(t);
    if t.len() == 0 {
        assert(document_markup_spec(content) == Seq::<char>::empty());
        assert(trim_spec(Seq::<char>::empty()) =~= Seq::<char>::empty());
    } else if looks_like_markup_spec(t) {
    } else {
        let p = paragraphize_spec(t);
        lemma_paragraph_markup_shape(text_paragraphs(t));
        if p.len() == 0 {
            assert(trim_spec(p) =~= Seq::<char>::empty());
        } else {
            assert(!is_ws(p[0]) && !is_ws(p.last()));
            crate::text::lemma_trim_fixes(p);
            assert(has_char(p, '>')) by {
                assert(p[p.len() - 1] == '>');
            }
            assert(looks_like_markup_spec(p));
        }
    }
}

/// Plain text as paragraph markup (the markup used for content that is not
/// already markup).
fn plain_text_to_markup(text: &str) -> (r: String)
    ensures
        r@ == paragraphize_spec(text@),
{
    paragraphize(text)
}

/// Document content as markup: trimmed content that already looks like markup
/// is kept, other text is turned into paragraphs; blank content stays empty.
pub open spec fn document_markup_spec(content: Seq<char>) -> Seq<char> {
    let t = trim_spec(content);
    if t.len() == 0 {
        Seq::empty()
    } else if looks_like_markup_spec(t) {
        t
    } else {
        paragraphize_spec(t)
    }
}

pub fn ensure_document_markup(content: &str) -> (r: String)
    ensures
        r@ == document_markup_spec(content@),
{
    let trimmed = trim_str(content);
    if trimmed.unicode_len() == 0 {
        return String::new();
    }
    if looks_like_markup(trimmed.as_str()) {
        trimmed
    } else {
        plain_text_to_markup(trimmed.as_str())
    }
}

/// Content is kept verbatim only when, trimmed, it starts with `<` and holds
/// a `>`; other non-blank content, such as text that merely mentions `<` and
/// `>`, becomes escaped paragraph markup of its trimmed text.
pub proof fn lemma_markup_kept_only_when_tagged(c: Seq<char>)
    ensures
        trim_spec(c).len() > 0 && trim_spec(c)[0] != '<' ==> document_markup_spec(c) == paragraphize_spec(
            trim_spec(c),
        ),
        trim_spec(c).len() > 0 && trim_spec(c)[0] == '<' && (exists|i: int|
            0 <= i < trim_spec(c).len() && trim_spec(c)[i] == '>') ==> document_markup_spec(c) == trim_spec(c),
        trim_spec(c).len() > 0 && !(exists|i: int| 0 <= i < trim_spec(c).len() && trim_spec(c)[i] == '>')
            ==> document_markup_spec(c) == paragraphize_spec(trim_spec(c)),
{
    crate::text::lemma_trim_shape(c);
    crate::text::lemma_trim_fixes(trim_spec(c));
}


/// The search text of node content: the text of markup, or the cleaned plain text.
pub open spec fn search_text_spec(content: Seq<char>) -> Seq<char> {
    if looks_like_markup_spec(content) {
        html_text_spec(content)
    } else {
        clean_spec(content)
    }
}

pub fn content_search_text(content: &str) -> (r: String)
    ensures
        r@ == search_text_spec(content@),
{
    if looks_like_markup(content) {
        extract_text_from_html(content)
    } else {
        clean_text(content)
    }
}

/// The card for an imported document: the escaped label as heading and the
/// text as paragraphs; `None` when the text has no paragraph.
pub open spec fn imported_document_spec(label: Seq<char>, text: Seq<char>) -> Option<Seq<char>> {
    let body = paragraphize_spec(text);
    if body.len() == 0 {
        None
    } else {
        Some(
            "<hirsel-card eyebrow=\"Imported document\" heading=\""@ + escape_spec(label) + "\">"@
                + body + "</hirsel-card>"@,
        )
    }
}

pub fn imported_document_markup(label: &str, text: &str) -> (r: Option<String>)
    ensures
        r is None <==> imported_document_spec(label@, text@) is None,
        r matches Some(m) ==> imported_document_spec(label@, text@) == Some(m@),
{
    let body = paragraphize(text);
    if body.unicode_len() == 0 {
        return None;
    }
    let mut out: Vec<char> = Vec::new();
    push_str(&mut out, "<hirsel-card eyebrow=\"Imported document\" heading=\"");
    push_escaped(&mut out, chars_of(label).as_slice());
    push_str(&mut out, "\">");
    push_str(&mut out, body.as_str());
    push_str(&mut out, "</hirsel-card>");
    Some(string_of(out.as_slice()))
}

/// The card for an imported URL: the escaped label as heading, a link to the
/// escaped URL, then the text as paragraphs when there are any.
pub open spec fn imported_url_spec(label: Seq<char>, url: Seq<char>, text: Seq<char>) -> Seq<char> {
    "<hirsel-card eyebrow=\"Source URL\" heading=\""@ + escape_spec(label) + "\"><p><a href=\""@
        + escape_spec(url) + "\">"@ + escape_spec(url) + "</a></p>"@ + paragraphize_spec(text)
        + "</hirsel-card>"@
}

pub fn imported_url_markup(label: &str, url: &str, text: &str) -> (r: Option<String>)
    ensures
        r matches Some(m) && m@ == imported_url_spec(label@, url@, text@),
{
    let body = paragraphize(text);
    let u = chars_of(url);
    let mut out: Vec<char> = Vec::new();
    push_str(&mut out, "<hirsel-card eyebrow=\"Source URL\" heading=\"");
    push_escaped(&mut out, chars_of(label).as_slice());
    push_str(&mut out, "\"><p><a href=\"");
    push_escaped(&mut out, u.as_slice());
    push_str(&mut out, "\">");
    push_escaped(&mut out, u.as_slice());
    push_str(&mut out, "</a></p>");
    push_str(&mut out, body.as_str());
    push_str(&mut out, "</hirsel-card>");
    Some(string_of(out.as_slice()))
}


/// The relation of a `hirsel-doc-target` reference.
pub const RELATION_DOCUMENTS: &'static str = "documents";

/// The relation of every other reference tag.
pub const RELATION_REFERENCES: &'static str = "references";

/// A reference from document content to a node.
#[derive(Debug, Clone, PartialEq, Eq, PartialOrd, Ord)]
pub struct DocumentReference {
    pub kind: String,
    pub node_id: String,
    pub relation: String,
}

impl View for DocumentReference {
    type V = (Seq<char>, Seq<char>, Seq<char>);

    open spec fn view(&self) -> (Seq<char>, Seq<char>, Seq<char>) {
        (self.kind@, self.node_id@, self.relation@)
    }
}

/// The order of references: by kind, then node identifier, then relation
/// (the order `derive(Ord)` gives `DocumentReference`).
pub open spec fn reference_lt(a: (Seq<char>, Seq<char>, Seq<char>), b: (Seq<char>, Seq<char>, Seq<char>)) -> bool {
    ||| text_lt(a.0, b.0)
    ||| (a.0 == b.0 && text_lt(a.1, b.1))
    ||| (a.0 == b.0 && a.1 == b.1 && text_lt(a.2, b.2))
}

proof fn lemma_reference_lt_transitive(
    a: (Seq<char>, Seq<char>, Seq<char>),
    b: (Seq<char>, Seq<char>, Seq<char>),
    c: (Seq<char>, Seq<char>, Seq<char>),
)
    requires
        reference_lt(a, b),
        reference_lt(b, c),
    ensures
        reference_lt(a, c),
{
    if text_lt(a.0, b.0) && text_lt(b.0, c.0) {
        lemma_text_lt_transitive(a.0, b.0, c.0);
    }
    if a.0 == b.0 && b.0 == c.0 {
        if text_lt(a.1, b.1) && text_lt(b.1, c.1) {
            lemma_text_lt_transitive(a.1, b.1, c.1);
        }
        if a.1 == b.1 && b.1 == c.1 && text_lt(a.2, b.2) && text_lt(b.2, c.2) {
            lemma_text_lt_transitive(a.2, b.2, c.2);
        }
    }
}

proof fn lemma_reference_lt_total(a: (Seq<char>, Seq<char>, Seq<char>), b: (Seq<char>, Seq<char>, Seq<char>))
    ensures
        reference_lt(a, b) || a == b || reference_lt(b, a),
        !(reference_lt(a, b) && reference_lt(b, a)),
{
    lemma_text_lt_total(a.0, b.0);
    lemma_text_lt_total(a.1, b.1);
    lemma_text_lt_total(a.2, b.2);
    lemma_text_lt_irreflexive(a.0);
    lemma_text_lt_irreflexive(a.1);
    lemma_text_lt_irreflexive(a.2);
}

fn reference_less(a: &DocumentReference, b: &DocumentReference) -> (r: bool)
    ensures
        r == reference_lt(a@, b@),
{
    if str_less(a.kind.as_str(), b.kind.as_str()) {
        return true;
    }
    if !str_eq(a.kind.as_str(), b.kind.as_str()) {
        return false;
    }
    if str_less(a.node_id.as_str(), b.node_id.as_str()) {
        return true;
    }
    if !str_eq(a.node_id.as_str(), b.node_id.as_str()) {
        return false;
    }
    str_less(a.relation.as_str(), b.relation.as_str())
}

fn reference_eq(a: &DocumentReference, b: &DocumentReference) -> (r: bool)
    ensures
        r == (a@ == b@),
{
    str_eq(a.kind.as_str(), b.kind.as_str()) && str_eq(a.node_id.as_str(), b.node_id.as_str())
        && str_eq(a.relation.as_str(), b.relation.as_str())
}

/// The views of a sequence of references.
pub open spec fn reference_views(v: Seq<DocumentReference>) -> Seq<(Seq<char>, Seq<char>, Seq<char>)> {
    v.map_values(|r: DocumentReference| r@)
}

/// Strictly increasing references: sorted with no repeats. References are
/// gathered in a vector kept in this order (the order of the fields, as
/// `DocumentReference`'s derived `Ord` compares them) rather than in a
/// `BTreeSet`, whose order would come from that derived impl, which the
/// verifier does not read.
pub open spec fn references_sorted(s: Seq<(Seq<char>, Seq<char>, Seq<char>)>) -> bool {
    forall|i: int, j: int| 0 <= i < j < s.len() ==> reference_lt(#[trigger] s[i], #[trigger] s[j])
}

fn insert_reference(v: &mut Vec<DocumentReference>, x: DocumentReference)
    requires
        references_sorted(reference_views(old(v)@)),
    ensures
        references_sorted(reference_views(final(v)@)),
        reference_views(final(v)@).to_set() == reference_views(old(v)@).to_set().insert(x@),
{
    let ghost old_views = reference_views(v@);
    let mut p: usize = 0;
    while p < v.len() && reference_less(&v[p], &x)
        invariant
            p <= v@.len(),
            v@ == old(v)@,
            forall|j: int| 0 <= j < p ==> reference_lt(#[trigger] v@[j]@, x@),
        decreases v@.len() - p,
    {
        p = p + 1;
    }
    if p < v.len() && reference_eq(&v[p], &x) {
        assert(reference_views(v@).to_set() =~= reference_views(v@).to_set().insert(x@)) by {
            assert(reference_views(v@)[p as int] == x@);
        }
        return;
    }
    proof {
        if p < v@.len() {
            lemma_reference_lt_total(v@[p as int]@, x@);
        }
    }
    let ghost xv = x@;
    v.insert(p, x);
    let ghost nv = reference_views(v@);
    assert(nv.len() == old_views.len() + 1);
    assert forall|j: int| 0 <= j < nv.len() implies #[trigger] nv[j] == (if j < p {
        old_views[j]
    } else if j == p {
        xv
    } else {
        old_views[j - 1]
    }) by {}
    assert forall|i: int, j: int| 0 <= i < j < nv.len() implies reference_lt(
        #[trigger] nv[i],
        #[trigger] nv[j],
    ) by {
        if j < p {
        } else if j == p {
        } else if i < p {
            if j - 1 > p {
                lemma_reference_lt_transitive(xv, old_views[p as int], old_views[j - 1]);
            }
            lemma_reference_lt_transitive(old_views[i], xv, old_views[j - 1]);
        } else if i == p {
            if j - 1 > p {
                lemma_reference_lt_transitive(xv, old_views[p as int], old_views[j - 1]);
            }
        } else {
        }
    }
    assert(nv.to_set() =~= old_views.to_set().insert(xv)) by {
        assert forall|t| nv.to_set().contains(t) implies old_views.to_set().insert(xv).contains(t) by {
            let k = choose|k: int| 0 <= k < nv.len() && nv[k] == t;
            if k < p {
                assert(old_views[k] == t);
            } else if k > p {
                assert(old_views[k - 1] == t);
            }
        }
        assert forall|t| old_views.to_set().insert(xv).contains(t) implies nv.to_set().contains(t) by {
            if t == xv {
                assert(nv[p as int] == t);
            } else {
                let k = choose|k: int| 0 <= k < old_views.len() && old_views[k] == t;
                if k < p {
                    assert(nv[k] == t);
                } else {
                    assert(nv[k + 1] == t);
                }
            }
        }
    }
}

/// The tags whose `node` attribute references another node.
pub open spec fn reference_tags() -> Seq<Seq<char>> {
    seq![
        "hirsel-node-ref"@,
        "hirsel-node-field"@,
        "hirsel-node-list"@,
        "hirsel-doc-target"@,
        "hirsel-doc-link"@,
        "hirsel-doc-embed"@,
    ]
}

fn reference_tag(i: usize) -> (r: &'static str)
    requires
        i < 6,
    ensures
        r@ == reference_tags()[i as int],
{
    if i == 0 {
        "hirsel-node-ref"
    } else if i == 1 {
        "hirsel-node-field"
    } else if i == 2 {
        "hirsel-node-list"
    } else if i == 3 {
        "hirsel-doc-target"
    } else if i == 4 {
        "hirsel-doc-link"
    } else {
        "hirsel-doc-embed"
    }
}

/// The relation a reference tag stands for.
pub open spec fn tag_relation(tag_index: int) -> Seq<char> {
    if tag_index == 3 {
        "documents"@
    } else {
        "references"@
    }
}

/// Every element of each of the six reference tags is scanned: when the
/// `node` attribute of such an element reads `kind:node_id` (both parts
/// normalising), the content makes that reference, with relation
/// `documents` for `hirsel-doc-target` and `references` for the other five.
pub proof fn lemma_reference_tags_scanned(
    html: Seq<char>,
    tag: Seq<char>,
    i: int,
    attr: Seq<char>,
    kind: Seq<char>,
    node_id: Seq<char>,
)
    requires
        tag == "hirsel-node-ref"@ || tag == "hirsel-node-field"@ || tag == "hirsel-node-list"@
            || tag == "hirsel-doc-target"@ || tag == "hirsel-doc-link"@ || tag == "hirsel-doc-embed"@,
        0 <= i < fragment_node_attributes(html, tag).len(),
        fragment_node_attributes(html, tag)[i] == Some(attr),
        parse_reference_spec(trim_spec(attr)) == Some((kind, node_id)),
    ensures
        references_in(
            html,
            (kind, node_id, if tag == "hirsel-doc-target"@ {
                "documents"@
            } else {
                "references"@
            }),
        ),
{
    reveal_strlit("hirsel-node-ref");
    reveal_strlit("hirsel-node-field");
    reveal_strlit("hirsel-node-list");
    reveal_strlit("hirsel-doc-target");
    reveal_strlit("hirsel-doc-link");
    reveal_strlit("hirsel-doc-embed");
    let t: int = if tag == "hirsel-node-ref"@ {
        0
    } else if tag == "hirsel-node-field"@ {
        1
    } else if tag == "hirsel-node-list"@ {
        2
    } else if tag == "hirsel-doc-target"@ {
        3
    } else if tag == "hirsel-doc-link"@ {
        4
    } else {
        5
    };
    assert(reference_tags()[t] == tag);
    if t != 3 {
        assert(tag != "hirsel-doc-target"@) by {
            assert(tag.len() != "hirsel-doc-target"@.len() || tag[7] != 't' || tag[11] != 'e');
        }
    }
    assert(made_by(
        html,
        t,
        i,
        (kind, node_id, if tag == "hirsel-doc-target"@ {
            "documents"@
        } else {
            "references"@
        }),
    ));
}

/// The `node` attribute of every element that `scraper` selects with `tag`
/// in `html` parsed as a fragment, in document order (`None` where an element
/// has no such attribute).
pub uninterp spec fn fragment_node_attributes(html: Seq<char>, tag: Seq<char>) -> Seq<Option<Seq<char>>>;

/// The views of optional strings.
pub open spec fn option_views(v: Seq<Option<String>>) -> Seq<Option<Seq<char>>> {
    v.map_values(|o: Option<String>| match o {
        Some(s) => Some(s@),
        None => None,
    })
}

/// Parses `html` with `scraper::Html::parse_fragment`, selects the elements
/// matching `tag` (`scraper::Selector::parse`, `Html::select`) and reads their
/// `node` attribute (`Element::attr`). A selector that does not parse selects
/// nothing. Claimed: the result depends on `html` and `tag` alone, named
/// `fragment_node_attributes`; nothing is said of how HTML is parsed.
#[verifier::external_body]
fn selected_node_attributes(html: &str, tag: &str) -> (r: Vec<Option<String>>)
    ensures
        option_views(r@) == fragment_node_attributes(html@, tag@),
{
    let fragment = scraper::Html::parse_fragment(html);
    match scraper::Selector::parse(tag) {
        Ok(selector) => fragment.select(&selector).map(
            |node| node.value().attr("node").map(|value| value.to_string()),
        ).collect(),
        Err(_) => Vec::new(),
    }
}

/// The reference an attribute value makes, with the relation of its tag.
pub open spec fn attribute_reference(attr: Option<Seq<char>>, tag_index: int) -> Option<
    (Seq<char>, Seq<char>, Seq<char>),
> {
    let raw = match attr {
        Some(a) => trim_spec(a),
        None => Seq::empty(),
    };
    match parse_reference_spec(raw) {
        Some((kind, node_id)) => Some((kind, node_id, tag_relation(tag_index))),
        None => None,
    }
}

/// Whether `r` is made by the `i`-th selected element of tag `t`.
pub open spec fn made_by(html: Seq<char>, t: int, i: int, r: (Seq<char>, Seq<char>, Seq<char>)) -> bool {
    &&& 0 <= t < 6
    &&& 0 <= i < fragment_node_attributes(html, reference_tags()[t]).len()
    &&& attribute_reference(fragment_node_attributes(html, reference_tags()[t])[i], t) == Some(r)
}

/// Whether some element of `html` makes the reference `r`.
pub open spec fn references_in(html: Seq<char>, r: (Seq<char>, Seq<char>, Seq<char>)) -> bool {
    exists|t: int, i: int| made_by(html, t, i, r)
}

/// The kind of every reference that content makes is a slug.
pub proof fn lemma_reference_kind_is_slug(html: Seq<char>, x: (Seq<char>, Seq<char>, Seq<char>))
    requires
        references_in(html, x),
    ensures
        is_slug(x.0),
{
    let (t, i) = choose|t: int, i: int| made_by(html, t, i, x);
    let attr = fragment_node_attributes(html, reference_tags()[t])[i];
    let raw = match attr {
        Some(a) => trim_spec(a),
        None => Seq::empty(),
    };
    let (k, n) = split_once_spec(trim_spec(raw), ':')->0;
    lemma_normalize_is_slug(k);
}

/// No reference is ordered before itself.
pub proof fn lemma_reference_lt_irreflexive(a: (Seq<char>, Seq<char>, Seq<char>))
    ensures
        !reference_lt(a, a),
{
    lemma_text_lt_irreflexive(a.0);
    lemma_text_lt_irreflexive(a.1);
    lemma_text_lt_irreflexive(a.2);
}

/// A sorted list of references without repeats is fixed by the references
/// it holds: two such lists with the same members are the same list.
pub proof fn lemma_sorted_references_unique(
    a: Seq<(Seq<char>, Seq<char>, Seq<char>)>,
    b: Seq<(Seq<char>, Seq<char>, Seq<char>)>,
)
    requires
        references_sorted(a),
        references_sorted(b),
        forall|x: (Seq<char>, Seq<char>, Seq<char>)| a.contains(x) <==> b.contains(x),
    ensures
        a == b,
    decreases a.len(),
{
    if a.len() == 0 {
        if b.len() > 0 {
            assert(b.contains(b[0]));
        }
        assert(a =~= b);
    } else {
        assert(a.contains(a[0]));
        assert(b.len() > 0);
        assert(b.contains(b[0]));
        if a[0] != b[0] {
            let k = choose|k: int| 0 <= k < b.len() && b[k] == a[0];
            let m = choose|m: int| 0 <= m < a.len() && a[m] == b[0];
            assert(k > 0 && m > 0);
            assert(reference_lt(b[0], b[k]));
            assert(reference_lt(a[0], a[m]));
            lemma_reference_lt_transitive(a[0], b[0], a[0]);
            lemma_reference_lt_irreflexive(a[0]);
        }
        let ta = a.skip(1);
        let tb = b.skip(1);
        assert forall|x: (Seq<char>, Seq<char>, Seq<char>)| ta.contains(x) <==> tb.contains(x) by {
            if ta.contains(x) {
                let i = choose|i: int| 0 <= i < ta.len() && ta[i] == x;
                assert(a[i + 1] == x);
                assert(reference_lt(a[0], x));
                lemma_reference_lt_irreflexive(x);
                assert(b.contains(x));
                let j = choose|j: int| 0 <= j < b.len() && b[j] == x;
                assert(j != 0);
                assert(tb[j - 1] == x);
            }
            if tb.contains(x) {
                let i = choose|i: int| 0 <= i < tb.len() && tb[i] == x;
                assert(b[i + 1] == x);
                assert(reference_lt(b[0], x));
                lemma_reference_lt_irreflexive(x);
                assert(a.contains(x));
                let j = choose|j: int| 0 <= j < a.len() && a[j] == x;
                assert(j != 0);
                assert(ta[j - 1] == x);
            }
        }
        assert forall|i: int, j: int| 0 <= i < j < ta.len() implies reference_lt(#[trigger] ta[i], #[trigger] ta[j]) by {
            assert(ta[i] == a[i + 1] && ta[j] == a[j + 1]);
        }
        assert forall|i: int, j: int| 0 <= i < j < tb.len() implies reference_lt(#[trigger] tb[i], #[trigger] tb[j]) by {
            assert(tb[i] == b[i + 1] && tb[j] == b[j + 1]);
        }
        lemma_sorted_references_unique(ta, tb);
        assert(a =~= seq![a[0]] + ta);
        assert(b =~= seq![b[0]] + tb);
    }
}

/// The node references made by document content: every reference tag's
/// `node` attribute that parses as `kind:node_id`, with relation `documents`
/// for `hirsel-doc-target` and `references` otherwise, sorted and without repeats.
pub fn extract_document_references(html: &str) -> (r: Vec<DocumentReference>)
    ensures
        references_sorted(reference_views(r@)),
        trim_spec(html@).len() == 0 ==> r@.len() == 0,
        trim_spec(html@).len() > 0 ==> forall|x: (Seq<char>, Seq<char>, Seq<char>)|
            reference_views(r@).contains(x) <==> references_in(html@, x),
{
    let mut refs: Vec<DocumentReference> = Vec::new();
    let v = chars_of(html);
    let (lo, hi) = trim_bounds(v.as_slice());
    if lo == hi {
        return refs;
    }
    let mut t: usize = 0;
    while t < 6
        invariant
            t <= 6,
            references_sorted(reference_views(refs@)),
            forall|x| reference_views(refs@).contains(x) <==> exists|t2: int, i2: int|
                t2 < t && #[trigger] made_by(html@, t2, i2, x),
        decreases 6 - t,
    {
        let tag = reference_tag(t);
        let attrs = selected_node_attributes(html, tag);
        let mut i: usize = 0;
        while i < attrs.len()
            invariant
                t < 6,
                i <= attrs@.len(),
                tag@ == reference_tags()[t as int],
                option_views(attrs@) == fragment_node_attributes(html@, tag@),
                references_sorted(reference_views(refs@)),
                forall|x| reference_views(refs@).contains(x) <==> exists|t2: int, i2: int|
                    (t2 < t || (t2 == t && i2 < i)) && #[trigger] made_by(html@, t2, i2, x),
            decreases attrs@.len() - i,
        {
            let raw = match &attrs[i] {
                Some(a) => trim_str(a.as_str()),
                None => String::new(),
            };
            let ghost av = option_views(attrs@)[i as int];
            assert(av == match attrs@[i as int] {
                Some(s) => Some(s@),
                None => None::<Seq<char>>,
            });
            let parsed = parse_node_reference(raw.as_str());
            let ghost old_views = reference_views(refs@);
            match parsed {
                Some((kind, node_id)) => {
                    let relation = if t == 3 {
                        RELATION_DOCUMENTS.to_string()
                    } else {
                        RELATION_REFERENCES.to_string()
                    };
                    let x = DocumentReference { kind, node_id, relation };
                    assert(made_by(html@, t as int, i as int, x@));
                    let ghost xv = x@;
                    insert_reference(&mut refs, x);
                    assert forall|y| reference_views(refs@).contains(y) <==> exists|t2: int, i2: int|
                        (t2 < t || (t2 == t && i2 < i + 1)) && #[trigger] made_by(html@, t2, i2, y) by {
                        assert(reference_views(refs@).to_set().contains(y) == reference_views(refs@).contains(y));
                        assert(old_views.to_set().contains(y) == old_views.contains(y));
                        if reference_views(refs@).contains(y) {
                            if y == xv {
                                assert(made_by(html@, t as int, i as int, y));
                            } else {
                                assert(old_views.contains(y));
                                let (t2, i2) = choose|t2: int, i2: int|
                                    (t2 < t || (t2 == t && i2 < i)) && #[trigger] made_by(html@, t2, i2, y);
                                assert(made_by(html@, t2, i2, y));
                            }
                        }
                        if exists|t2: int, i2: int|
                            (t2 < t || (t2 == t && i2 < i + 1)) && #[trigger] made_by(html@, t2, i2, y) {
                            let (t2, i2) = choose|t2: int, i2: int|
                                (t2 < t || (t2 == t && i2 < i + 1)) && #[trigger] made_by(html@, t2, i2, y);
                            if t2 == t && i2 == i {
                                assert(y == xv);
                            } else {
                                assert(made_by(html@, t2, i2, y));
                                assert(old_views.contains(y));
                            }
                        }
                    }
                },
                None => {
                    assert forall|y| reference_views(refs@).contains(y) <==> exists|t2: int, i2: int|
                        (t2 < t || (t2 == t && i2 < i + 1)) && #[trigger] made_by(html@, t2, i2, y) by {
                        if exists|t2: int, i2: int|
                            (t2 < t || (t2 == t && i2 < i + 1)) && #[trigger] made_by(html@, t2, i2, y) {
                            let (t2, i2) = choose|t2: int, i2: int|
                                (t2 < t || (t2 == t && i2 < i + 1)) && #[trigger] made_by(html@, t2, i2, y);
                            assert(!(t2 == t && i2 == i));
                            assert(made_by(html@, t2, i2, y));
                        }
                        if reference_views(refs@).contains(y) {
                            let (t2, i2) = choose|t2: int, i2: int|
                                (t2 < t || (t2 == t && i2 < i)) && #[trigger] made_by(html@, t2, i2, y);
                            assert(made_by(html@, t2, i2, y));
                        }
                    }
                },
            }
            i = i + 1;
        }
        proof {
            assert forall|x| reference_views(refs@).contains(x) <==> exists|t2: int, i2: int|
                t2 < t + 1 && #[trigger] made_by(html@, t2, i2, x) by {
                if exists|t2: int, i2: int| t2 < t + 1 && #[trigger] made_by(html@, t2, i2, x) {
                    let (t2, i2) = choose|t2: int, i2: int| t2 < t + 1 && #[trigger] made_by(html@, t2, i2, x);
                    assert(made_by(html@, t2, i2, x));
                    if t2 == t {
                        assert(i2 < attrs@.len());
                    }
                }
                if reference_views(refs@).contains(x) {
                    let (t2, i2) = choose|t2: int, i2: int|
                        (t2 < t || (t2 == t && i2 < attrs@.len())) && #[trigger] made_by(html@, t2, i2, x);
                    assert(made_by(html@, t2, i2, x));
                }
            }
        }
        t = t + 1;
    }
    proof {
        assert forall|x| reference_views(refs@).contains(x) <==> references_in(html@, x) by {
            if references_in(html@, x) {
                let (t2, i2) = choose|t2: int, i2: int| made_by(html@, t2, i2, x);
                assert(made_by(html@, t2, i2, x));
            }
        }
    }
    refs
}

} // verus!
