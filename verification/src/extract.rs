use vstd::prelude::*;

use crate::documents::prefix_first;
use crate::text::{
    all_ws, chars_end_with, chars_of, is_whitespace, is_ws, join_chars, join_spec,
    push_chars, slice_chars, str_contains, string_of, strings_to_chars, strings_view, trim_chars,
    trim_spec, views_of, contains_spec, ends_with_spec, lemma_trim_fixes, lemma_trim_start_skip,
};

verus! {

/// One step of whitespace collapsing: a whitespace character becomes a single
/// space unless the text so far is empty or already ends in a space.
pub open spec fn collapse_step(acc: Seq<char>, c: char) -> Seq<char> {
    if is_ws(c) {
        if acc.len() == 0 || acc.last() == ' ' {
            acc
        } else {
            acc.push(' ')
        }
    } else {
        acc.push(c)
    }
}

/// `s` with leading whitespace dropped and every other run of whitespace
/// replaced by one space (a trailing space may remain).
pub open spec fn collapse_ws(s: Seq<char>) -> Seq<char>
    decreases s.len(),
{
    if s.len() == 0 {
        Seq::empty()
    } else {
        collapse_step(collapse_ws(s.drop_last()), s.last())
    }
}

/// Drops one trailing occurrence of `c`, if there is one.
pub open spec fn drop_trailing(s: Seq<char>, c: char) -> Seq<char> {
    if s.len() > 0 && s.last() == c {
        s.drop_last()
    } else {
        s
    }
}

/// The whitespace-separated words of `s` joined by single spaces
/// (`split_whitespace` followed by `join(" ")`).
pub open spec fn clean_spec(s: Seq<char>) -> Seq<char> {
    drop_trailing(collapse_ws(s), ' ')
}

/// Text in the shape `clean_text` produces: no whitespace but single spaces,
/// and no space at either end.
pub open spec fn is_clean(t: Seq<char>) -> bool {
    &&& forall|i: int| 0 <= i < t.len() ==> (#[trigger] is_ws(t[i]) ==> t[i] == ' ')
    &&& forall|i: int| 0 <= i < t.len() - 1 ==> !(#[trigger] t[i] == ' ' && t[i + 1] == ' ')
    &&& t.len() > 0 ==> t[0] != ' ' && t.last() != ' '
}

proof fn lemma_collapse_shape(s: Seq<char>)
    ensures
        forall|i: int| 0 <= i < collapse_ws(s).len() ==> (#[trigger] is_ws(collapse_ws(s)[i])
            ==> collapse_ws(s)[i] == ' '),
        forall|i: int|
            0 <= i < collapse_ws(s).len() - 1 ==> !(#[trigger] collapse_ws(s)[i] == ' '
                && collapse_ws(s)[i + 1] == ' '),
        collapse_ws(s).len() > 0 ==> collapse_ws(s)[0] != ' ',
        collapse_ws(s).len() == 0 <==> all_ws(s),
    decreases s.len(),
{
    if s.len() > 0 {
        lemma_collapse_shape(s.drop_last());
        let a = collapse_ws(s.drop_last());
        let r = collapse_ws(s);
        assert(r == collapse_step(a, s.last()));
        if r.len() > a.len() {
            assert forall|i: int| 0 <= i < a.len() implies r[i] == a[i] by {}
        }
        if all_ws(s) {
            assert forall|i: int| 0 <= i < s.drop_last().len() implies is_ws(
                #[trigger] s.drop_last()[i],
            ) by {
                assert(s.drop_last()[i] == s[i]);
            }
        }
        if all_ws(s.drop_last()) && is_ws(s.last()) {
            assert forall|i: int| 0 <= i < s.len() implies is_ws(#[trigger] s[i]) by {
                if i < s.len() - 1 {
                    assert(s[i] == s.drop_last()[i]);
                }
            }
        }
    } else {
        assert(all_ws(s));
    }
}

/// What `clean_text` returns is clean text.
pub proof fn lemma_clean_is_clean(s: Seq<char>)
    ensures
        is_clean(clean_spec(s)),
        clean_spec(s).len() == 0 <==> all_ws(s),
{
    lemma_collapse_shape(s);
    let a = collapse_ws(s);
    let r = clean_spec(s);
    if a.len() > 0 && a.last() == ' ' {
        assert forall|i: int| 0 <= i < r.len() implies r[i] == a[i] by {}
        if r.len() > 0 {
            assert(a[r.len() - 1] != ' ');
        }
    }
}

proof fn lemma_collapse_clean_prefix(t: Seq<char>, k: int)
    requires
        is_clean(t),
        0 <= k <= t.len(),
    ensures
        collapse_ws(t.take(k)) == t.take(k),
    decreases k,
{
    if k > 0 {
        lemma_collapse_clean_prefix(t, k - 1);
        assert(t.take(k).drop_last() =~= t.take(k - 1));
        assert(t.take(k).last() == t[k - 1]);
        if is_ws(t[k - 1]) {
            assert(t[k - 1] == ' ');
            assert(k - 1 > 0);
            assert(!(t[k - 2] == ' ' && t[k - 1] == ' '));
        }
        assert(t.take(k - 1).push(t[k - 1]) =~= t.take(k));
    }
}

/// Clean text is left unchanged by `clean_text`.
pub proof fn lemma_clean_fixes_clean(t: Seq<char>)
    requires
        is_clean(t),
    ensures
        clean_spec(t) == t,
{
    lemma_collapse_clean_prefix(t, t.len() as int);
    assert(t.take(t.len() as int) =~= t);
}

/// `clean_text` is idempotent.
pub proof fn lemma_clean_idempotent(s: Seq<char>)
    ensures
        clean_spec(clean_spec(s)) == clean_spec(s),
{
    lemma_clean_is_clean(s);
    lemma_clean_fixes_clean(clean_spec(s));
}

/// `clean_text` on characters.
pub fn clean_chars(v: &[char]) -> (r: Vec<char>)
    ensures
        r@ == clean_spec(v@),
{
    let mut acc: Vec<char> = Vec::new();
    let mut i: usize = 0;
    while i < v.len()
        invariant
            i <= v@.len(),
            acc@ == collapse_ws(v@.take(i as int)),
        decreases v@.len() - i,
    {
        let c = v[i];
        assert(v@.take(i + 1).drop_last() =~= v@.take(i as int));
        if is_whitespace(c) {
            if acc.len() > 0 && acc[acc.len() - 1] != ' ' {
                acc.push(' ');
            }
        } else {
            acc.push(c);
        }
        i = i + 1;
    }
    assert(v@.take(v@.len() as int) =~= v@);
    if acc.len() > 0 && acc[acc.len() - 1] == ' ' {
        acc.pop();
    }
    acc
}

/// Collapses every run of whitespace into one space and trims both ends.
pub fn clean_text(input: &str) -> (r: String)
    ensures
        r@ == clean_spec(input@),
{
    let v = chars_of(input);
    let c = clean_chars(v.as_slice());
    string_of(c.as_slice())
}


/// The text nodes that `scraper` finds under the root element of `html`
/// parsed as a whole document, in document order.
pub uninterp spec fn html_document_text_nodes(html: Seq<char>) -> Seq<Seq<char>>;

/// Parses `html` with `scraper::Html::parse_document` and collects the text
/// nodes of `Html::root_element` (`ElementRef::text`). Claimed: the result is
/// a function of `html` alone, named `html_document_text_nodes`; nothing is
/// said of how the HTML5 parser builds the tree.
#[verifier::external_body]
fn document_text_nodes(html: &str) -> (r: Vec<String>)
    ensures
        strings_view(r@) == html_document_text_nodes(html@),
{
    scraper::Html::parse_document(html).root_element().text().map(|t| t.to_string()).collect()
}

/// The readable text of an HTML document: its text nodes joined by spaces, cleaned.
pub open spec fn html_text_spec(html: Seq<char>) -> Seq<char> {
    clean_spec(join_spec(html_document_text_nodes(html), " "@))
}

/// The text of an HTML document, with whitespace collapsed.
pub fn extract_text_from_html(html: &str) -> (r: String)
    ensures
        r@ == html_text_spec(html@),
{
    let nodes = document_text_nodes(html);
    let parts = strings_to_chars(&nodes);
    let joined = join_chars(&parts, " ");
    let cleaned = clean_chars(joined.as_slice());
    string_of(cleaned.as_slice())
}

/// The text of `bytes` decoded as UTF-8 with invalid sequences replaced by
/// U+FFFD (`String::from_utf8_lossy`).
pub uninterp spec fn utf8_lossy(bytes: Seq<u8>) -> Seq<char>;

/// Calls `String::from_utf8_lossy`. Claimed: the result depends on the bytes
/// alone, and valid UTF-8 decodes to exactly its characters, as the std
/// documentation states.
#[verifier::external_body]
pub(crate) fn decode_utf8_lossy(bytes: &[u8]) -> (r: String)
    ensures
        r@ == utf8_lossy(bytes@),
        vstd::utf8::valid_utf8(bytes@) ==> r@ == vstd::utf8::decode_utf8(bytes@),
{
    String::from_utf8_lossy(bytes).into_owned()
}

/// What reading a PDF gave: its text, or the reason it could not be read.
pub enum PdfReading {
    Text(String),
    Failed(String),
}

pub open spec fn pdf_reading_view(p: Option<PdfReading>) -> Option<Result<Seq<char>, Seq<char>>> {
    match p {
        Some(PdfReading::Text(t)) => Some(Ok(t@)),
        Some(PdfReading::Failed(m)) => Some(Err(m@)),
        None => None,
    }
}

/// Why text could not be extracted.
pub enum ExtractError {
    /// The PDF could not be read, with the reason.
    Pdf(String),
}

/// Whether the text of an asset of this content type comes from a PDF reader.
pub open spec fn is_pdf_type(content_type: Seq<char>) -> bool {
    contains_spec(content_type, "pdf"@)
}

pub fn needs_pdf_reader(content_type: &str) -> (r: bool)
    ensures
        r == is_pdf_type(content_type@),
{
    str_contains(content_type, "pdf")
}

/// The text of an asset, chosen by its content type: for a PDF, the text that
/// reading it gave (`pdf`), cleaned, or the reason it failed; for HTML, the
/// text of the document; anything else decoded as UTF-8 and cleaned.
pub open spec fn extract_text_spec(
    content_type: Seq<char>,
    bytes: Seq<u8>,
    pdf: Option<Result<Seq<char>, Seq<char>>>,
) -> Result<Seq<char>, Seq<char>> {
    if is_pdf_type(content_type) {
        match pdf {
            Some(Ok(t)) => Ok(clean_spec(t)),
            Some(Err(m)) => Err(m),
            None => Err(Seq::empty()),
        }
    } else if contains_spec(content_type, "html"@) {
        Ok(html_text_spec(utf8_lossy(bytes)))
    } else {
        Ok(clean_spec(utf8_lossy(bytes)))
    }
}

/// Extracts the searchable text of an asset from its bytes. A PDF is read
/// by the caller, which hands over what reading it gave.
pub fn extract_text(content_type: &str, bytes: &[u8], pdf: Option<PdfReading>) -> (r: Result<String, ExtractError>)
    requires
        is_pdf_type(content_type@) ==> pdf is Some,
    ensures
        match (r, extract_text_spec(content_type@, bytes@, pdf_reading_view(pdf))) {
            (Ok(t), Ok(s)) => t@ == s,
            (Err(ExtractError::Pdf(m)), Err(s)) => m@ == s,
            _ => false,
        },
{
    if str_contains(content_type, "pdf") {
        match pdf {
            Some(PdfReading::Text(text)) => return Ok(clean_text(text.as_str())),
            Some(PdfReading::Failed(reason)) => return Err(ExtractError::Pdf(reason)),
            None => return Err(ExtractError::Pdf(String::new())),
        }
    }
    let decoded = decode_utf8_lossy(bytes);
    if str_contains(content_type, "html") {
        return Ok(extract_text_from_html(decoded.as_str()));
    }
    Ok(clean_text(decoded.as_str()))
}

/// Whether `c` ends a sentence.
pub open spec fn is_terminator(c: char) -> bool {
    c == '.' || c == '!' || c == '?'
}

/// The pieces of `s` between sentence terminators (`str::split` on `.`, `!`, `?`).
pub open spec fn split_terminators(s: Seq<char>) -> Seq<Seq<char>>
    decreases s.len(),
{
    if s.len() == 0 {
        seq![Seq::empty()]
    } else if is_terminator(s[0]) {
        seq![Seq::empty()] + split_terminators(s.skip(1))
    } else {
        prefix_first(seq![s[0]], split_terminators(s.skip(1)))
    }
}

/// `str::split_terminator`: the pieces, without a final empty piece.
pub open spec fn split_terminator_spec(s: Seq<char>) -> Seq<Seq<char>> {
    let p = split_terminators(s);
    if p.last().len() == 0 {
        p.drop_last()
    } else {
        p
    }
}

/// The pieces trimmed, with blank ones dropped.
pub open spec fn nonblank_trimmed(pieces: Seq<Seq<char>>) -> Seq<Seq<char>>
    decreases pieces.len(),
{
    if pieces.len() == 0 {
        Seq::empty()
    } else {
        let rest = nonblank_trimmed(pieces.drop_last());
        let t = trim_spec(pieces.last());
        if t.len() == 0 {
            rest
        } else {
            rest.push(t)
        }
    }
}

/// The first `n` elements of `s` (all of them when there are fewer).
pub open spec fn take_at_most<A>(s: Seq<A>, n: nat) -> Seq<A> {
    if s.len() <= n {
        s
    } else {
        s.take(n as int)
    }
}

/// The summary of a text: its first two sentences joined by `. ` and ending
/// in a period; the first 280 characters when it has no sentence; `None` for a
/// blank text.
pub open spec fn summary_spec(text: Seq<char>) -> Option<Seq<char>> {
    let compact = clean_spec(text);
    if compact.len() == 0 {
        None
    } else {
        let summary = join_spec(
            take_at_most(nonblank_trimmed(split_terminator_spec(compact)), 2),
            ". "@,
        );
        if summary.len() == 0 {
            Some(take_at_most(compact, 280))
        } else if ends_with_spec(summary, "."@) {
            Some(summary)
        } else {
            Some(summary + "."@)
        }
    }
}

proof fn lemma_split_terminators_nonempty(s: Seq<char>)
    ensures
        split_terminators(s).len() >= 1,
    decreases s.len(),
{
    if s.len() > 0 {
        lemma_split_terminators_nonempty(s.skip(1));
    }
}

fn split_terminator_chars(v: &[char]) -> (r: Vec<Vec<char>>)
    ensures
        views_of(r@) == split_terminator_spec(v@),
{
    let mut done: Vec<Vec<char>> = Vec::new();
    let mut cur: Vec<char> = Vec::new();
    let mut i: usize = 0;
    assert(v@.skip(0) =~= v@);
    proof {
        lemma_split_terminators_nonempty(v@);
        assert(views_of(done@) =~= Seq::<Seq<char>>::empty());
        assert(prefix_first(cur@, split_terminators(v@)) =~= split_terminators(v@));
    }
    while i < v.len()
        invariant
            i <= v@.len(),
            split_terminators(v@) == views_of(done@) + prefix_first(
                cur@,
                split_terminators(v@.skip(i as int)),
            ),
        decreases v@.len() - i,
    {
        let ghost rest = v@.skip(i as int);
        assert(rest.skip(1) =~= v@.skip(i + 1));
        let ghost tail = split_terminators(rest.skip(1));
        proof {
            lemma_split_terminators_nonempty(rest.skip(1));
        }
        let c = v[i];
        if c == '.' || c == '!' || c == '?' {
            let ghost d0 = views_of(done@);
            let piece = cur;
            done.push(piece);
            cur = Vec::new();
            assert(views_of(done@) =~= d0.push(piece@));
            assert(prefix_first(piece@, split_terminators(rest)) =~= seq![piece@]
                + prefix_first(Seq::<char>::empty(), tail));
            assert(d0 + prefix_first(piece@, split_terminators(rest)) =~= views_of(done@)
                + prefix_first(cur@, tail));
        } else {
            let ghost c0 = cur@;
            cur.push(c);
            assert(prefix_first(seq![rest[0]], tail).skip(1) =~= tail.skip(1));
            assert(prefix_first(seq![rest[0]], tail)[0] == seq![rest[0]] + tail[0]);
            assert(c0 + (seq![rest[0]] + tail[0]) =~= cur@ + tail[0]);
        }
        i = i + 1;
    }
    assert(v@.skip(i as int) =~= Seq::<char>::empty());
    let ghost d0 = views_of(done@);
    let ghost all = split_terminators(v@);
    let last = cur;
    assert(prefix_first(last@, seq![Seq::<char>::empty()]) =~= seq![last@]);
    assert(all =~= d0.push(last@));
    if last.len() > 0 {
        done.push(last);
        assert(views_of(done@) =~= d0.push(last@));
    } else {
        assert(all.drop_last() =~= d0);
    }
    done
}

proof fn lemma_split_plain_prefix(t: Seq<char>, rest: Seq<char>)
    requires
        forall|i: int| 0 <= i < t.len() ==> #[trigger] t[i] != '.' && t[i] != '!' && t[i] != '?',
    ensures
        split_terminators(t + rest) == prefix_first(t, split_terminators(rest)),
    decreases t.len(),
{
    lemma_split_terminators_nonempty(rest);
    if t.len() == 0 {
        assert(t + rest =~= rest);
        assert(prefix_first(t, split_terminators(rest)) =~= split_terminators(rest));
    } else {
        let u = t.skip(1);
        assert forall|i: int| 0 <= i < u.len() implies #[trigger] u[i] != '.' && u[i] != '!' && u[i] != '?' by {
            assert(u[i] == t[i + 1]);
        }
        lemma_split_plain_prefix(u, rest);
        assert((t + rest)[0] == t[0]);
        assert((t + rest).skip(1) =~= u + rest);
        let s = split_terminators(rest);
        assert(prefix_first(seq![t[0]], prefix_first(u, s)) =~= prefix_first(t, s)) by {
            assert(seq![t[0]] + (u + s[0]) =~= t + s[0]);
        }
    }
}

/// Only `.`, `!` and `?` end a sentence: two sentences that hold none of
/// them (and are already clean text, so cleaning keeps them), each ended by
/// one of them, are summarised as those two sentences ended by periods,
/// whatever other punctuation they hold.
pub proof fn lemma_summary_of_two_sentences(s1: Seq<char>, s2: Seq<char>, end1: char, end2: char)
    requires
        s1.len() > 0,
        s2.len() > 0,
        is_clean(s1),
        is_clean(s2),
        forall|i: int| 0 <= i < s1.len() ==> #[trigger] s1[i] != '.' && s1[i] != '!' && s1[i] != '?',
        forall|i: int| 0 <= i < s2.len() ==> #[trigger] s2[i] != '.' && s2[i] != '!' && s2[i] != '?',
        end1 == '.' || end1 == '!' || end1 == '?',
        end2 == '.' || end2 == '!' || end2 == '?',
    ensures
        summary_spec(s1 + seq![end1, ' '] + s2 + seq![end2]) == Some(s1 + seq!['.', ' '] + s2 + seq!['.']),
{
    reveal_strlit(". ");
    reveal_strlit(".");
    let full = s1 + seq![end1, ' '] + s2 + seq![end2];
    // the text is clean, so cleaning keeps it
    assert(is_clean(full)) by {
        assert forall|i: int| 0 <= i < full.len() implies (#[trigger] is_ws(full[i]) ==> full[i] == ' ') by {
            if i < s1.len() {
                assert(full[i] == s1[i]);
            } else if s1.len() + 2 <= i < s1.len() + 2 + s2.len() {
                assert(full[i] == s2[i - s1.len() - 2]);
            }
        }
        assert forall|i: int| 0 <= i < full.len() - 1 implies !(#[trigger] full[i] == ' ' && full[i + 1] == ' ') by {
            if i + 1 < s1.len() {
                assert(full[i] == s1[i] && full[i + 1] == s1[i + 1]);
            } else if i + 1 == s1.len() {
                assert(full[i + 1] == end1);
            } else if i == s1.len() + 1 {
                assert(full[i + 1] == s2[0]);
            } else if s1.len() + 2 <= i && i + 1 < s1.len() + 2 + s2.len() {
                assert(full[i] == s2[i - s1.len() - 2] && full[i + 1] == s2[i + 1 - s1.len() - 2]);
            }
        }
        assert(full[0] == s1[0]);
    }
    lemma_clean_fixes_clean(full);
    // splitting at terminators gives the two sentences (the second with its
    // leading space) and a final empty piece
    let x = seq![' '] + s2 + seq![end2];
    assert(full =~= s1 + (seq![end1] + x));
    lemma_split_plain_prefix(s1, seq![end1] + x);
    assert((seq![end1] + x).skip(1) =~= x);
    assert(split_terminators(seq![end1] + x) == seq![Seq::<char>::empty()] + split_terminators(x));
    let sp = seq![' '] + s2;
    assert forall|i: int| 0 <= i < sp.len() implies #[trigger] sp[i] != '.' && sp[i] != '!' && sp[i] != '?' by {
        if i > 0 {
            assert(sp[i] == s2[i - 1]);
        }
    }
    assert(x =~= sp + seq![end2]);
    lemma_split_plain_prefix(sp, seq![end2]);
    assert(seq![end2].skip(1) =~= Seq::<char>::empty());
    assert(split_terminators(seq![end2]) == seq![Seq::<char>::empty()] + split_terminators(Seq::<char>::empty()));
    let e = Seq::<char>::empty();
    assert(split_terminators(seq![end2]) =~= seq![e, e]);
    assert(split_terminators(x) =~= seq![sp, e]);
    assert(split_terminators(seq![end1] + x) =~= seq![e, sp, e]);
    assert(split_terminators(full) =~= seq![s1, sp, e]);
    assert(split_terminator_spec(full) =~= seq![s1, sp]);
    // trimming the pieces gives the sentences
    lemma_trim_fixes(s1);
    lemma_trim_fixes(s2);
    lemma_trim_start_skip(sp, 1);
    assert(sp.skip(1) =~= s2);
    assert(trim_spec(sp) == s2);
    let pieces = seq![s1, sp];
    assert(pieces.drop_last() =~= seq![s1]);
    assert(seq![s1].drop_last() =~= Seq::<Seq<char>>::empty());
    assert(nonblank_trimmed(Seq::<Seq<char>>::empty()) == Seq::<Seq<char>>::empty());
    assert(seq![s1].last() == s1);
    assert(nonblank_trimmed(seq![s1]) =~= seq![s1]);
    assert(pieces.last() == sp);
    assert(nonblank_trimmed(pieces) =~= seq![s1, s2]);
    assert(take_at_most(seq![s1, s2], 2) == seq![s1, s2]);
    let summary = join_spec(seq![s1, s2], ". "@);
    assert(seq![s1, s2].drop_last() =~= seq![s1]);
    assert(join_spec(seq![s1], ". "@) == s1);
    assert(". "@ =~= seq!['.', ' ']);
    assert(summary =~= s1 + seq!['.', ' '] + s2);
    assert(!ends_with_spec(summary, "."@)) by {
        assert(summary.skip(summary.len() - 1)[0] == s2.last());
    }
    assert(summary + "."@ =~= s1 + seq!['.', ' '] + s2 + seq!['.']);
}

proof fn lemma_clean_join_sentence(a: Seq<char>, end: char, b: Seq<char>)
    requires
        a.len() > 0,
        b.len() > 0,
        is_clean(a),
        is_clean(b),
        !is_ws(end),
    ensures
        is_clean(a + seq![end, ' '] + b),
{
    let full = a + seq![end, ' '] + b;
    assert forall|i: int| 0 <= i < full.len() implies (#[trigger] is_ws(full[i]) ==> full[i] == ' ') by {
        if i < a.len() {
            assert(full[i] == a[i]);
        } else if a.len() + 2 <= i {
            assert(full[i] == b[i - a.len() - 2]);
        }
    }
    assert forall|i: int| 0 <= i < full.len() - 1 implies !(#[trigger] full[i] == ' ' && full[i + 1] == ' ') by {
        if i + 1 < a.len() {
            assert(full[i] == a[i] && full[i + 1] == a[i + 1]);
        } else if i + 1 == a.len() {
            assert(full[i + 1] == end);
        } else if i == a.len() + 1 {
            assert(full[i + 1] == b[0]);
        } else if a.len() + 2 <= i {
            assert(full[i] == b[i - a.len() - 2] && full[i + 1] == b[i + 1 - a.len() - 2]);
        }
    }
    assert(full[0] == a[0]);
    assert(full.last() == b.last());
}

proof fn lemma_clean_end_sentence(a: Seq<char>, end: char)
    requires
        a.len() > 0,
        is_clean(a),
        !is_ws(end),
    ensures
        is_clean(a + seq![end]),
{
    let full = a + seq![end];
    assert forall|i: int| 0 <= i < full.len() implies (#[trigger] is_ws(full[i]) ==> full[i] == ' ') by {
        if i < a.len() {
            assert(full[i] == a[i]);
        }
    }
    assert forall|i: int| 0 <= i < full.len() - 1 implies !(#[trigger] full[i] == ' ' && full[i + 1] == ' ') by {
        assert(full[i] == a[i]);
        if i + 1 < a.len() {
            assert(full[i + 1] == a[i + 1]);
        }
    }
    assert(full[0] == a[0]);
}

proof fn lemma_split_sentence(sp: Seq<char>, end: char, rest: Seq<char>)
    requires
        forall|i: int| 0 <= i < sp.len() ==> #[trigger] sp[i] != '.' && sp[i] != '!' && sp[i] != '?',
        end == '.' || end == '!' || end == '?',
    ensures
        split_terminators(sp + seq![end] + rest) == seq![sp] + split_terminators(rest),
{
    let x = seq![end] + rest;
    assert(sp + seq![end] + rest =~= sp + x);
    lemma_split_plain_prefix(sp, x);
    assert(x.skip(1) =~= rest);
    assert(split_terminators(x) == seq![Seq::<char>::empty()] + split_terminators(rest));
    lemma_split_terminators_nonempty(rest);
    assert(prefix_first(sp, split_terminators(x)) =~= seq![sp] + split_terminators(rest));
}

proof fn lemma_spaced_plain(s: Seq<char>)
    requires
        forall|i: int| 0 <= i < s.len() ==> #[trigger] s[i] != '.' && s[i] != '!' && s[i] != '?',
        s.len() > 0,
        is_clean(s),
    ensures
        forall|i: int| 0 <= i < (seq![' '] + s).len() ==> #[trigger] (seq![' '] + s)[i] != '.'
            && (seq![' '] + s)[i] != '!' && (seq![' '] + s)[i] != '?',
        trim_spec(seq![' '] + s) == s,
        trim_spec(s) == s,
{
    let sp = seq![' '] + s;
    assert forall|i: int| 0 <= i < sp.len() implies #[trigger] sp[i] != '.' && sp[i] != '!' && sp[i] != '?' by {
        if i > 0 {
            assert(sp[i] == s[i - 1]);
        }
    }
    lemma_trim_fixes(s);
    lemma_trim_start_skip(sp, 1);
    assert(sp.skip(1) =~= s);
}

/// A summary keeps only the first two sentences: of three sentences (each
/// clean, holding no `.`, `!` or `?`, and ended by one of them) it is the
/// first two ended by periods.
#[verifier::rlimit(40)]
pub proof fn lemma_summary_keeps_first_two(
    s1: Seq<char>,
    s2: Seq<char>,
    s3: Seq<char>,
    end1: char,
    end2: char,
    end3: char,
)
    requires
        s1.len() > 0,
        s2.len() > 0,
        s3.len() > 0,
        is_clean(s1),
        is_clean(s2),
        is_clean(s3),
        forall|i: int| 0 <= i < s1.len() ==> #[trigger] s1[i] != '.' && s1[i] != '!' && s1[i] != '?',
        forall|i: int| 0 <= i < s2.len() ==> #[trigger] s2[i] != '.' && s2[i] != '!' && s2[i] != '?',
        forall|i: int| 0 <= i < s3.len() ==> #[trigger] s3[i] != '.' && s3[i] != '!' && s3[i] != '?',
        end1 == '.' || end1 == '!' || end1 == '?',
        end2 == '.' || end2 == '!' || end2 == '?',
        end3 == '.' || end3 == '!' || end3 == '?',
    ensures
        summary_spec(s1 + seq![end1, ' '] + s2 + seq![end2, ' '] + s3 + seq![end3]) == Some(
            s1 + seq!['.', ' '] + s2 + seq!['.'],
        ),
{
    reveal_strlit(". ");
    reveal_strlit(".");
    let full = s1 + seq![end1, ' '] + s2 + seq![end2, ' '] + s3 + seq![end3];
    lemma_clean_join_sentence(s1, end1, s2);
    let a = s1 + seq![end1, ' '] + s2;
    lemma_clean_join_sentence(a, end2, s3);
    lemma_clean_end_sentence(a + seq![end2, ' '] + s3, end3);
    assert(full =~= a + seq![end2, ' '] + s3 + seq![end3]);
    lemma_clean_fixes_clean(full);
    let e = Seq::<char>::empty();
    let sp2 = seq![' '] + s2;
    let sp3 = seq![' '] + s3;
    lemma_spaced_plain(s1);
    lemma_spaced_plain(s2);
    lemma_spaced_plain(s3);
    lemma_split_sentence(sp3, end3, e);
    assert(sp3 + seq![end3] + e =~= sp3 + seq![end3]);
    assert(split_terminators(e) == seq![e]);
    let y = sp3 + seq![end3];
    lemma_split_sentence(sp2, end2, y);
    let x = sp2 + seq![end2] + y;
    lemma_split_sentence(s1, end1, x);
    assert(full =~= s1 + seq![end1] + x);
    assert(split_terminators(full) =~= seq![s1, sp2, sp3, e]);
    assert(split_terminator_spec(full) =~= seq![s1, sp2, sp3]);
    let pieces = seq![s1, sp2, sp3];
    assert(nonblank_trimmed(Seq::<Seq<char>>::empty()) == Seq::<Seq<char>>::empty());
    assert(seq![s1].drop_last() =~= Seq::<Seq<char>>::empty());
    assert(seq![s1].last() == s1);
    assert(nonblank_trimmed(seq![s1]) =~= seq![s1]);
    assert(seq![s1, sp2].drop_last() =~= seq![s1]);
    assert(seq![s1, sp2].last() == sp2);
    assert(nonblank_trimmed(seq![s1, sp2]) =~= seq![s1, s2]);
    assert(pieces.drop_last() =~= seq![s1, sp2]);
    assert(pieces.last() == sp3);
    assert(nonblank_trimmed(pieces) =~= seq![s1, s2, s3]);
    assert(take_at_most(seq![s1, s2, s3], 2) =~= seq![s1, s2]);
    let summary = join_spec(seq![s1, s2], ". "@);
    assert(seq![s1, s2].drop_last() =~= seq![s1]);
    assert(join_spec(seq![s1], ". "@) == s1);
    assert(". "@ =~= seq!['.', ' ']);
    assert(summary =~= s1 + seq!['.', ' '] + s2);
    assert(!ends_with_spec(summary, "."@)) by {
        assert(summary.skip(summary.len() - 1)[0] == s2.last());
    }
    assert(summary + "."@ =~= s1 + seq!['.', ' '] + s2 + seq!['.']);
}

/// A short summary of a text: its first two sentences, or its beginning when
/// it has none; `None` when the text is blank.
pub fn make_summary(text: &str) -> (r: Option<String>)
    ensures
        r is None <==> summary_spec(text@) is None,
        r matches Some(t) ==> summary_spec(text@) == Some(t@),
{
    let input = chars_of(text);
    let compact = clean_chars(input.as_slice());
    if compact.len() == 0 {
        return None;
    }
    let pieces = split_terminator_chars(compact.as_slice());
    let mut sentences: Vec<Vec<char>> = Vec::new();
    let mut i: usize = 0;
    while i < pieces.len()
        invariant
            i <= pieces@.len(),
            views_of(pieces@) == split_terminator_spec(compact@),
            views_of(sentences@) == nonblank_trimmed(views_of(pieces@).take(i as int)),
        decreases pieces@.len() - i,
    {
        let ghost pv = views_of(pieces@);
        assert(pv.take(i + 1).drop_last() =~= pv.take(i as int));
        assert(pv.take(i + 1).last() == pieces@[i as int]@);
        let t = trim_chars(pieces[i].as_slice());
        if t.len() > 0 {
            let ghost before = views_of(sentences@);
            sentences.push(t);
            assert(views_of(sentences@) =~= before.push(sentences@.last()@));
        }
        i = i + 1;
    }
    assert(views_of(pieces@).take(pieces@.len() as int) =~= views_of(pieces@));
    let ghost all = views_of(sentences@);
    if sentences.len() > 2 {
        sentences.truncate(2);
        assert(views_of(sentences@) =~= all.take(2));
    }
    let summary = join_chars(&sentences, ". ");
    if summary.len() == 0 {
        let n: usize = if compact.len() < 280 { compact.len() } else { 280 };
        let head = slice_chars(compact.as_slice(), 0, n);
        assert(head@ =~= take_at_most(compact@, 280));
        return Some(string_of(head.as_slice()));
    }
    let dot = chars_of(".");
    if chars_end_with(summary.as_slice(), dot.as_slice()) {
        Some(string_of(summary.as_slice()))
    } else {
        let mut s = summary;
        push_chars(&mut s, dot.as_slice());
        Some(string_of(s.as_slice()))
    }
}

} // verus!
