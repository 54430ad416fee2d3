use vstd::prelude::*;

use crate::text::{chars_of, slice_chars, views_of};

verus! {

/// The parts of a parsed URL that the workspace reads.
pub struct UrlParts {
    /// The scheme, without `:`.
    pub scheme: String,
    /// The host, when the URL has one.
    pub host: Option<String>,
    /// The path.
    pub path: String,
    /// The ASCII serialisation of the origin.
    pub origin: String,
}

impl View for UrlParts {
    type V = (Seq<char>, Option<Seq<char>>, Seq<char>, Seq<char>);

    open spec fn view(&self) -> Self::V {
        (
            self.scheme@,
            match self.host {
                Some(h) => Some(h@),
                None => None,
            },
            self.path@,
            self.origin@,
        )
    }
}

/// What `url::Url::parse` makes of `input`: its scheme, host, path and origin
/// serialisation, or the message of the parse error.
pub uninterp spec fn parsed_url(input: Seq<char>) -> Result<
    (Seq<char>, Option<Seq<char>>, Seq<char>, Seq<char>),
    Seq<char>,
>;

/// Calls `url::Url::parse` and reads `scheme`, `host_str`, `path` and
/// `origin().ascii_serialization()` of the result; a parse error is turned
/// into its message. Claimed: the outcome depends on `input` alone, named
/// `parsed_url`, and an origin serialisation (`null`, or `scheme://host`
/// with an optional `:port`) is never empty and never ends in `/`; nothing
/// else is said of the WHATWG parsing rules.
#[verifier::external_body]
pub(crate) fn parse_url(input: &str) -> (r: Result<UrlParts, String>)
    ensures
        match (r, parsed_url(input@)) {
            (Ok(p), Ok(v)) => p@ == v,
            (Err(m), Err(v)) => m@ == v,
            _ => false,
        },
        r matches Ok(p) ==> p.origin@.len() > 0 && p.origin@.last() != '/',
{
    match url::Url::parse(input) {
        Ok(url) => Ok(UrlParts {
            scheme: url.scheme().to_string(),
            host: url.host_str().map(|h| h.to_string()),
            path: url.path().to_string(),
            origin: url.origin().ascii_serialization(),
        }),
        Err(error) => Err(error.to_string()),
    }
}

/// The pieces of `s` between occurrences of `c` (`str::split` with a character).
pub open spec fn split_char_spec(s: Seq<char>, c: char) -> Seq<Seq<char>>
    decreases s.len(),
{
    if s.len() == 0 {
        seq![Seq::empty()]
    } else if s[0] == c {
        seq![Seq::empty()] + split_char_spec(s.skip(1), c)
    } else {
        let rest = split_char_spec(s.skip(1), c);
        seq![seq![s[0]] + rest[0]] + rest.skip(1)
    }
}

proof fn lemma_split_char_nonempty(s: Seq<char>, c: char)
    ensures
        split_char_spec(s, c).len() >= 1,
    decreases s.len(),
{
    if s.len() > 0 {
        lemma_split_char_nonempty(s.skip(1), c);
    }
}

/// Splits `v` at every `c`.
pub fn split_char(v: &[char], c: char) -> (r: Vec<Vec<char>>)
    ensures
        views_of(r@) == split_char_spec(v@, c),
{
    let mut done: Vec<Vec<char>> = Vec::new();
    let mut cur: Vec<char> = Vec::new();
    let mut i: usize = 0;
    assert(v@.skip(0) =~= v@);
    proof {
        lemma_split_char_nonempty(v@, c);
        let p = split_char_spec(v@, c);
        assert(views_of(done@) =~= Seq::<Seq<char>>::empty());
        assert(seq![cur@ + p[0]] + p.skip(1) =~= p);
    }
    while i < v.len()
        invariant
            i <= v@.len(),
            split_char_spec(v@, c) == views_of(done@) + (seq![cur@ + split_char_spec(v@.skip(i as int), c)[0]]
                + split_char_spec(v@.skip(i as int), c).skip(1)),
        decreases v@.len() - i,
    {
        let ghost rest = v@.skip(i as int);
        assert(rest.skip(1) =~= v@.skip(i + 1));
        let ghost tail = split_char_spec(rest.skip(1), c);
        proof {
            lemma_split_char_nonempty(rest.skip(1), c);
        }
        if v[i] == c {
            let ghost d0 = views_of(done@);
            let piece = cur;
            done.push(piece);
            cur = Vec::new();
            assert(views_of(done@) =~= d0.push(piece@));
            let ghost sr = split_char_spec(rest, c);
            assert(sr == seq![Seq::<char>::empty()] + tail);
            assert(d0 + (seq![piece@ + sr[0]] + sr.skip(1)) =~= views_of(done@) + (seq![cur@ + tail[0]]
                + tail.skip(1)));
        } else {
            let ghost c0 = cur@;
            cur.push(v[i]);
            let ghost sr = split_char_spec(rest, c);
            assert(sr == seq![seq![rest[0]] + tail[0]] + tail.skip(1));
            assert(sr[0] == seq![rest[0]] + tail[0]);
            assert(sr.skip(1) =~= tail.skip(1));
            assert(c0 + (seq![rest[0]] + tail[0]) =~= cur@ + tail[0]);
        }
        i = i + 1;
    }
    assert(v@.skip(i as int) =~= Seq::<char>::empty());
    let ghost d0 = views_of(done@);
    let last = cur;
    done.push(last);
    assert(views_of(done@) =~= d0.push(last@));
    assert(seq![last@ + Seq::<char>::empty()] + seq![Seq::<char>::empty()].skip(1) =~= seq![last@]);
    done
}

/// The path segments of a URL path (`Url::path_segments`): the pieces between
/// slashes after a leading slash, or `None` when the path does not start with one.
pub open spec fn path_segments_spec(path: Seq<char>) -> Option<Seq<Seq<char>>> {
    if path.len() > 0 && path[0] == '/' {
        Some(split_char_spec(path.skip(1), '/'))
    } else {
        None
    }
}

/// The path segments of a URL path.
pub fn path_segments(path: &str) -> (r: Option<Vec<Vec<char>>>)
    ensures
        match (r, path_segments_spec(path@)) {
            (Some(v), Some(s)) => views_of(v@) == s,
            (None, None) => true,
            _ => false,
        },
{
    let v = chars_of(path);
    if v.len() > 0 && v[0] == '/' {
        let rest = slice_chars(v.as_slice(), 1, v.len());
        assert(rest@ =~= v@.skip(1));
        Some(split_char(rest.as_slice(), '/'))
    } else {
        None
    }
}

} // verus!
