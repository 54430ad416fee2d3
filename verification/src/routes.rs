use vstd::prelude::*;

use crate::config::{opt_view, Config};
use crate::documents::{
    content_search_text, document_markup_spec, ensure_document_markup, normalize_node_id,
    normalize_spec, search_text_spec, slugify_node_id, slugify_spec,
};
use crate::extract::{
    clean_spec, clean_text, decode_utf8_lossy, extract_text, extract_text_from_html,
    extract_text_spec, html_text_spec, is_pdf_type, make_summary, pdf_reading_view, summary_spec,
    utf8_lossy, ExtractError, PdfReading,
};
use crate::documents::{
    extract_document_references, graph_node_record_key, imported_document_markup,
    imported_document_spec, imported_url_markup, imported_url_spec, record_key_spec,
    lemma_record_key_injective, lemma_reference_kind_is_slug, lemma_reference_lt_irreflexive,
    reference_lt, reference_views, references_in, references_sorted,
};
use crate::models::{int_text, StoredAsset, StoredAuthSession};
use crate::text::{
    contains_spec, find_first, starts_with_spec, str_contains, str_starts_with,
    trim_matches_char, trim_matches_spec, views_of, split_once_spec,
};
use crate::urls::{parse_url, parsed_url, path_segments, path_segments_spec, UrlParts};
use crate::models::{StoredGraphNode, StoredModelSettings, UpdateModelSettingsRequest};
use crate::numbers::{decimal, format_u64};
use crate::order::{str_eq, string_views};
use crate::text::{
    chars_of, find_last, push_str, rsplit_once_spec, slice_chars, string_of, trim_spec, trim_str,
};

verus! {

/// An error answered to a request: an HTTP status and a message.
pub struct AppError {
    pub status: u16,
    pub message: String,
}

pub const STATUS_BAD_REQUEST: u16 = 400;
pub const STATUS_UNAUTHORIZED: u16 = 401;
pub const STATUS_FORBIDDEN: u16 = 403;
pub const STATUS_NOT_FOUND: u16 = 404;
pub const STATUS_CONFLICT: u16 = 409;
pub const STATUS_INTERNAL: u16 = 500;

impl AppError {
    pub fn new(status: u16, message: String) -> (r: AppError)
        ensures
            r.status == status,
            r.message@ == message@,
    {
        AppError { status, message }
    }

    pub fn unauthorized(message: String) -> (r: AppError)
        ensures
            r.status == STATUS_UNAUTHORIZED,
            r.message@ == message@,
    {
        Self::new(STATUS_UNAUTHORIZED, message)
    }

    pub fn bad_request(message: String) -> (r: AppError)
        ensures
            r.status == STATUS_BAD_REQUEST,
            r.message@ == message@,
    {
        Self::new(STATUS_BAD_REQUEST, message)
    }

    /// An internal failure, reported with its message.
    pub fn internal(message: String) -> (r: AppError)
        ensures
            r.status == STATUS_INTERNAL,
            r.message@ == message@,
    {
        Self::new(STATUS_INTERNAL, message)
    }
}

/// The key of a record identifier: the text after its last colon, or the whole
/// text when it has none.
pub open spec fn external_key_spec(id: Seq<char>) -> Seq<char> {
    match rsplit_once_spec(id, ':') {
        Some((_, key)) => key,
        None => id,
    }
}

pub fn external_id_key(id: &str) -> (r: String)
    ensures
        r@ == external_key_spec(id@),
{
    let v = chars_of(id);
    match find_last(v.as_slice(), ':') {
        Some(i) => {
            assert(v@.len() == v.len());
            let key = slice_chars(v.as_slice(), i + 1, v.len());
            assert(key@ =~= v@.skip(i + 1));
            string_of(key.as_slice())
        },
        None => id.to_string(),
    }
}

/// The node kinds of the graph.
pub open spec fn is_allowed_kind(kind: Seq<char>) -> bool {
    normalize_spec(kind) == Some("document"@) || normalize_spec(kind) == Some("image"@)
        || normalize_spec(kind) == Some("url"@) || normalize_spec(kind) == Some("topic"@)
}

/// Accepts a kind that normalises to one of the graph's node kinds; anything
/// else is refused with `unsupported node kind: {kind}`.
pub fn ensure_allowed_kind(kind: &str) -> (r: Result<(), String>)
    ensures
        r is Ok <==> is_allowed_kind(kind@),
        r matches Err(m) ==> m@ == "unsupported node kind: "@ + kind@,
{
    match normalize_node_id(kind) {
        Some(k) => {
            if str_eq(k.as_str(), "document") || str_eq(k.as_str(), "image") || str_eq(
                k.as_str(),
                "url",
            ) || str_eq(k.as_str(), "topic") {
                return Ok(());
            }
        },
        None => {},
    }
    let mut m: Vec<char> = Vec::new();
    push_str(&mut m, "unsupported node kind: ");
    push_str(&mut m, kind);
    Err(string_of(m.as_slice()))
}

/// Whether a stored text counts as missing: absent or blank.
pub open spec fn blank_or_missing(value: Option<Seq<char>>) -> bool {
    match value {
        Some(v) => trim_spec(v).len() == 0,
        None => true,
    }
}

/// Whether `r` is `settings` with blank fields filled from the configured
/// defaults: base URL, model, and an API key that is absent or blank.
pub open spec fn defaults_applied(config: Config, settings: StoredModelSettings, r: StoredModelSettings) -> bool {
    &&& r.id == settings.id
    &&& r.updated_at == settings.updated_at
    &&& r.base_url@ == (if trim_spec(settings.base_url@).len() == 0 {
        config.default_model_base_url@
    } else {
        settings.base_url@
    })
    &&& r.model@ == (if trim_spec(settings.model@).len() == 0 {
        config.default_model_name@
    } else {
        settings.model@
    })
    &&& opt_view(r.api_key) == (if blank_or_missing(opt_view(settings.api_key)) {
        opt_view(config.default_model_api_key)
    } else {
        opt_view(settings.api_key)
    })
}

/// Each blank setting is filled on its own: a blank model becomes the
/// configured model and a blank base URL the configured base URL, whatever
/// the other holds; a setting that is not blank is kept.
pub proof fn lemma_defaults_fill_each_blank(config: Config, settings: StoredModelSettings, r: StoredModelSettings)
    requires
        defaults_applied(config, settings, r),
    ensures
        trim_spec(settings.model@).len() == 0 ==> r.model@ == config.default_model_name@,
        trim_spec(settings.model@).len() > 0 ==> r.model@ == settings.model@,
        trim_spec(settings.base_url@).len() == 0 ==> r.base_url@ == config.default_model_base_url@,
        trim_spec(settings.base_url@).len() > 0 ==> r.base_url@ == settings.base_url@,
        settings.api_key is None ==> opt_view(r.api_key) == opt_view(config.default_model_api_key),
        (settings.api_key matches Some(k) && trim_spec(k@).len() == 0) ==> opt_view(r.api_key) == opt_view(
            config.default_model_api_key,
        ),
        (settings.api_key matches Some(k) && trim_spec(k@).len() > 0) ==> opt_view(r.api_key) == opt_view(settings.api_key),
{
}

/// Fills blank stored settings from the configured defaults.
pub fn apply_model_defaults(config: &Config, settings: StoredModelSettings) -> (r: StoredModelSettings)
    ensures
        defaults_applied(*config, settings, r),
{
    let mut settings = settings;
    if trim_str(settings.base_url.as_str()).unicode_len() == 0 {
        settings.base_url = config.default_model_base_url.clone();
    }
    if trim_str(settings.model.as_str()).unicode_len() == 0 {
        settings.model = config.default_model_name.clone();
    }
    let api_key_missing = match &settings.api_key {
        Some(value) => trim_str(value.as_str()).unicode_len() == 0,
        None => true,
    };
    if api_key_missing {
        settings.api_key = config.default_model_api_key.clone();
    }
    settings
}

/// The API key after a settings update: cleared on request, replaced by a
/// non-blank new key (trimmed), kept otherwise.
pub open spec fn next_api_key_spec(current: Option<Seq<char>>, api_key: Option<Seq<char>>, clear: bool) -> Option<Seq<char>> {
    if clear {
        None
    } else {
        match api_key {
            Some(k) => if trim_spec(k).len() == 0 {
                current
            } else {
                Some(trim_spec(k))
            },
            None => current,
        }
    }
}

pub fn next_api_key(current: Option<String>, payload: &UpdateModelSettingsRequest) -> (r: Option<String>)
    ensures
        opt_view(r) == next_api_key_spec(
            opt_view(current),
            opt_view(payload.api_key),
            payload.clear_api_key,
        ),
{
    if payload.clear_api_key {
        None
    } else {
        match &payload.api_key {
            Some(api_key) => {
                let trimmed = trim_str(api_key.as_str());
                if trimmed.unicode_len() == 0 {
                    current
                } else {
                    Some(trimmed)
                }
            },
            None => current,
        }
    }
}

/// The model settings an update stores: the sent base URL and model,
/// trimmed, and the API key that `next_api_key` decides.
pub struct SettingsUpdate {
    pub base_url: String,
    pub model: String,
    pub api_key: Option<String>,
}

pub fn settings_update(current: &StoredModelSettings, payload: &UpdateModelSettingsRequest) -> (r: SettingsUpdate)
    ensures
        r.base_url@ == trim_spec(payload.base_url@),
        r.model@ == trim_spec(payload.model@),
        opt_view(r.api_key) == next_api_key_spec(
            opt_view(current.api_key),
            opt_view(payload.api_key),
            payload.clear_api_key,
        ),
{
    SettingsUpdate {
        base_url: trim_str(payload.base_url.as_str()),
        model: trim_str(payload.model.as_str()),
        api_key: next_api_key(current.api_key.clone(), payload),
    }
}

/// Whether `v` holds a string equal to `s`.
pub fn contains_string(v: &Vec<String>, s: &str) -> (r: bool)
    ensures
        r == string_views(v@).to_set().contains(s@),
{
    let mut i: usize = 0;
    while i < v.len()
        invariant
            i <= v@.len(),
            forall|j: int| 0 <= j < i ==> v@[j]@ != s@,
        decreases v@.len() - i,
    {
        if str_eq(v[i].as_str(), s) {
            assert(string_views(v@)[i as int] == s@);
            assert(string_views(v@).contains(s@));
            return true;
        }
        i = i + 1;
    }
    assert(!string_views(v@).contains(s@)) by {
        if string_views(v@).contains(s@) {
            let k = choose|k: int| 0 <= k < v@.len() && string_views(v@)[k] == s@;
            assert(v@[k]@ == s@);
        }
    }
    false
}

/// The `Origin` header of a request.
pub enum OriginHeader {
    /// The request has none.
    Absent,
    /// It is not visible ASCII.
    Invalid,
    /// Its value.
    Value(String),
}

/// Requests without an `Origin` header pass; one that is not text is a bad
/// request; otherwise the origin must be one of the allowed origins.
pub fn assert_origin(config: &Config, origin: &OriginHeader) -> (r: Result<(), AppError>)
    ensures
        match origin {
            OriginHeader::Absent => r is Ok,
            OriginHeader::Invalid => r matches Err(e) && e.status == STATUS_BAD_REQUEST
                && e.message@ == "invalid origin header"@,
            OriginHeader::Value(o) => {
                &&& r is Ok <==> config.allowed_origin_set().contains(o@)
                &&& r matches Err(e) ==> e.status == STATUS_FORBIDDEN && e.message@ == "origin "@
                    + o@ + " is not allowed"@
            },
        },
{
    match origin {
        OriginHeader::Absent => Ok(()),
        OriginHeader::Invalid => Err(AppError::bad_request("invalid origin header".to_string())),
        OriginHeader::Value(o) => {
            let allowed = config.allowed_origins();
            if contains_string(&allowed, o.as_str()) {
                return Ok(());
            }
            let mut m: Vec<char> = Vec::new();
            push_str(&mut m, "origin ");
            push_str(&mut m, o.as_str());
            push_str(&mut m, " is not allowed");
            Err(AppError::new(STATUS_FORBIDDEN, string_of(m.as_slice())))
        },
    }
}


/// The identifier base for a requested identifier or label.
pub fn allocation_base(candidate: &str) -> (r: String)
    ensures
        r@ == slugify_spec(candidate@),
{
    match normalize_node_id(candidate) {
        Some(base) => base,
        None => slugify_node_id(candidate),
    }
}

/// The identifier tried at the `suffix`-th attempt: the base itself first,
/// then `{base}-{suffix}`.
pub open spec fn node_id_candidate_spec(base: Seq<char>, suffix: nat) -> Seq<char> {
    if suffix == 1 {
        base
    } else {
        base + "-"@ + decimal(suffix)
    }
}

pub fn node_id_candidate(base: &str, suffix: u64) -> (r: String)
    requires
        suffix >= 1,
    ensures
        r@ == node_id_candidate_spec(base@, suffix as nat),
{
    if suffix == 1 {
        base.to_string()
    } else {
        let mut v: Vec<char> = Vec::new();
        push_str(&mut v, base);
        push_str(&mut v, "-");
        push_str(&mut v, format_u64(suffix).as_str());
        string_of(v.as_slice())
    }
}

/// What the search for a free node identifier does after trying the
/// candidate of attempt `suffix`: keep it when it is free, else go on with
/// the next attempt (`Exhausted` once the attempts are used up).
#[derive(Debug, PartialEq, Eq)]
pub enum AllocationStep {
    Accept(String),
    Next(u64),
    Exhausted,
}

pub fn allocation_step(base: &str, suffix: u64, taken: bool) -> (r: AllocationStep)
    requires
        suffix >= 1,
    ensures
        !taken ==> (r matches AllocationStep::Accept(id) && id@ == node_id_candidate_spec(
            base@,
            suffix as nat,
        )),
        taken && suffix < u64::MAX ==> r == AllocationStep::Next((suffix + 1) as u64),
        taken && suffix == u64::MAX ==> r == AllocationStep::Exhausted,
{
    if !taken {
        AllocationStep::Accept(node_id_candidate(base, suffix))
    } else if suffix < u64::MAX {
        AllocationStep::Next(suffix + 1)
    } else {
        AllocationStep::Exhausted
    }
}

/// Where the search for a free node identifier settles when it follows
/// `allocation_step` from attempt `suffix` for at most `fuel` attempts, with
/// `taken(k)` telling whether the candidate of attempt `k` is taken.
pub open spec fn allocation_outcome(base: Seq<char>, taken: spec_fn(nat) -> bool, suffix: nat, fuel: nat) -> Option<Seq<char>>
    decreases fuel,
{
    if fuel == 0 {
        None
    } else if !taken(suffix) {
        Some(node_id_candidate_spec(base, suffix))
    } else {
        allocation_outcome(base, taken, suffix + 1, (fuel - 1) as nat)
    }
}

proof fn lemma_allocation_from(base: Seq<char>, taken: spec_fn(nat) -> bool, from: nat, k: nat)
    requires
        1 <= from <= k,
        !taken(k),
        forall|s: nat| from <= s < k ==> #[trigger] taken(s),
    ensures
        allocation_outcome(base, taken, from, (k - from + 1) as nat) == Some(node_id_candidate_spec(base, k)),
    decreases k - from,
{
    if from < k {
        assert(taken(from));
        lemma_allocation_from(base, taken, from + 1, k);
        assert((k - from + 1) as nat - 1 == (k - (from + 1) + 1) as nat);
    }
}

proof fn lemma_allocation_settles(base: Seq<char>, taken: spec_fn(nat) -> bool, from: nat, fuel: nat)
    requires
        allocation_outcome(base, taken, from, fuel) is Some,
    ensures
        exists|k: nat| {
            &&& from <= k
            &&& !taken(k)
            &&& allocation_outcome(base, taken, from, fuel) == Some(node_id_candidate_spec(base, k))
            &&& forall|s: nat| from <= s < k ==> #[trigger] taken(s)
        },
    decreases fuel,
{
    if taken(from) {
        lemma_allocation_settles(base, taken, from + 1, (fuel - 1) as nat);
        let k = choose|k: nat| {
            &&& from + 1 <= k
            &&& !taken(k)
            &&& allocation_outcome(base, taken, from + 1, (fuel - 1) as nat) == Some(node_id_candidate_spec(base, k))
            &&& forall|s: nat| from + 1 <= s < k ==> #[trigger] taken(s)
        };
        assert(forall|s: nat| from <= s < k ==> #[trigger] taken(s));
    } else {
        assert(forall|s: nat| from <= s < from ==> #[trigger] taken(s));
    }
}

/// The search for a free node identifier, following `allocation_step` from
/// the first attempt, keeps the candidate of the least attempt that is not
/// taken: it reaches that attempt, and whatever it keeps is such a candidate.
pub proof fn lemma_allocation_keeps_least_free(base: Seq<char>, taken: spec_fn(nat) -> bool, k: nat, fuel: nat)
    ensures
        1 <= k && !taken(k) && (forall|s: nat| 1 <= s < k ==> #[trigger] taken(s)) ==> allocation_outcome(
            base,
            taken,
            1,
            k,
        ) == Some(node_id_candidate_spec(base, k)),
        allocation_outcome(base, taken, 1, fuel) is Some ==> exists|j: nat| {
            &&& 1 <= j
            &&& !taken(j)
            &&& allocation_outcome(base, taken, 1, fuel) == Some(node_id_candidate_spec(base, j))
            &&& forall|s: nat| 1 <= s < j ==> #[trigger] taken(s)
        },
{
    if 1 <= k && !taken(k) && (forall|s: nat| 1 <= s < k ==> #[trigger] taken(s)) {
        lemma_allocation_from(base, taken, 1, k);
    }
    if allocation_outcome(base, taken, 1, fuel) is Some {
        lemma_allocation_settles(base, taken, 1, fuel);
    }
}

/// Different attempts try different identifiers, so the search for a free
/// identifier never tries one twice.
pub proof fn lemma_node_id_candidates_distinct(base: Seq<char>, a: nat, b: nat)
    requires
        a >= 1,
        b >= 1,
        node_id_candidate_spec(base, a) == node_id_candidate_spec(base, b),
    ensures
        a == b,
{
    crate::numbers::lemma_decimal_value(a);
    crate::numbers::lemma_decimal_value(b);
    reveal_strlit("-");
    if a != 1 && b != 1 {
        let x = base + "-"@ + decimal(a);
        let y = base + "-"@ + decimal(b);
        let k: int = base.len() as int + 1;
        assert(decimal(a) =~= x.skip(k));
        assert(decimal(b) =~= y.skip(k));
        crate::numbers::lemma_decimal_injective(a, b);
    } else if a == 1 && b != 1 {
        assert(node_id_candidate_spec(base, b).len() > base.len());
    } else if a != 1 && b == 1 {
        assert(node_id_candidate_spec(base, a).len() > base.len());
    }
}

/// The view of an optional string slice.
pub open spec fn opt_str(o: Option<&str>) -> Option<Seq<char>> {
    match o {
        Some(s) => Some(s@),
        None => None,
    }
}

/// The cleaned text, when it is not empty.
pub open spec fn clean_opt(o: Option<Seq<char>>) -> Option<Seq<char>> {
    match o {
        Some(s) => if clean_spec(s).len() > 0 {
            Some(clean_spec(s))
        } else {
            None
        },
        None => None,
    }
}

fn clean_opt_str(o: Option<&str>) -> (r: Option<String>)
    ensures
        opt_view(r) == clean_opt(opt_str(o)),
{
    match o {
        Some(s) => {
            let c = clean_text(s);
            if c.unicode_len() > 0 {
                Some(c)
            } else {
                None
            }
        },
        None => None,
    }
}

/// Document markup for new content, unless it is blank.
pub open spec fn content_markup_opt(o: Option<Seq<char>>) -> Option<Seq<char>> {
    match o {
        Some(c) => if trim_spec(document_markup_spec(c)).len() > 0 {
            Some(document_markup_spec(c))
        } else {
            None
        },
        None => None,
    }
}

fn content_markup_str(o: Option<&str>) -> (r: Option<String>)
    ensures
        opt_view(r) == content_markup_opt(opt_str(o)),
{
    match o {
        Some(c) => {
            let m = ensure_document_markup(c);
            if trim_str(m.as_str()).unicode_len() > 0 {
                Some(m)
            } else {
                None
            }
        },
        None => None,
    }
}

/// The fields a new node is stored with.
pub struct NodeFields {
    pub label: String,
    pub summary: Option<String>,
    pub content: Option<String>,
    pub search_text: Option<String>,
    pub source: Option<String>,
}

/// The search text of a new node: derived from its content when it has any,
/// else the cleaned given search text; empty text counts as none.
pub open spec fn new_search_spec(content: Option<Seq<char>>, search_text: Option<Seq<char>>) -> Option<Seq<char>> {
    let s = match content {
        Some(m) => Some(search_text_spec(m)),
        None => match search_text {
            Some(t) => Some(clean_spec(t)),
            None => None,
        },
    };
    match s {
        Some(t) => if t.len() > 0 {
            Some(t)
        } else {
            None
        },
        None => None,
    }
}

/// A summary: the cleaned given one when not empty, else one made from the search text.
pub open spec fn summary_or_derived(summary: Option<Seq<char>>, search: Option<Seq<char>>) -> Option<Seq<char>> {
    match clean_opt(summary) {
        Some(s) => Some(s),
        None => match search {
            Some(t) => summary_spec(t),
            None => None,
        },
    }
}

/// A summary given for a new node is the one stored, cleaned, whenever it is
/// not blank, whatever the search text; only a missing or blank summary is
/// derived from the search text.
pub proof fn lemma_given_summary_wins(summary: Seq<char>, search: Option<Seq<char>>)
    ensures
        clean_spec(summary).len() > 0 ==> summary_or_derived(Some(summary), search) == Some(
            clean_spec(summary),
        ),
        clean_spec(summary).len() == 0 ==> summary_or_derived(Some(summary), search) == match search {
            Some(t) => summary_spec(t),
            None => None,
        },
{
}

fn summary_or_derived_exec(summary: Option<&str>, search: &Option<String>) -> (r: Option<String>)
    ensures
        opt_view(r) == summary_or_derived(opt_str(summary), opt_view(*search)),
{
    match clean_opt_str(summary) {
        Some(s) => Some(s),
        None => match search {
            Some(t) => make_summary(t.as_str()),
            None => None,
        },
    }
}

/// The fields of a node created from the given values: content as document
/// markup, search text and summary derived where not given, label trimmed and
/// source cleaned.
pub fn new_node_fields(
    label: &str,
    summary: Option<&str>,
    content: Option<&str>,
    search_text: Option<&str>,
    source: Option<&str>,
) -> (r: NodeFields)
    ensures
        r.label@ == trim_spec(label@),
        opt_view(r.content) == content_markup_opt(opt_str(content)),
        opt_view(r.search_text) == new_search_spec(opt_view(r.content), opt_str(search_text)),
        opt_view(r.summary) == summary_or_derived(opt_str(summary), opt_view(r.search_text)),
        opt_view(r.source) == clean_opt(opt_str(source)),
{
    let content = content_markup_str(content);
    let derived = match &content {
        Some(m) => Some(content_search_text(m.as_str())),
        None => match search_text {
            Some(t) => Some(clean_text(t)),
            None => None,
        },
    };
    let search = match derived {
        Some(t) => if t.unicode_len() > 0 {
            Some(t)
        } else {
            None
        },
        None => None,
    };
    let summary = summary_or_derived_exec(summary, &search);
    NodeFields {
        label: trim_str(label),
        summary,
        content,
        search_text: search,
        source: clean_opt_str(source),
    }
}

/// `a`, or else `b`.
pub open spec fn first_some(a: Option<Seq<char>>, b: Option<Seq<char>>) -> Option<Seq<char>> {
    match a {
        Some(x) => Some(x),
        None => b,
    }
}

fn clone_opt(o: &Option<String>) -> (r: Option<String>)
    ensures
        opt_view(r) == opt_view(*o),
{
    match o {
        Some(s) => Some(s.clone()),
        None => None,
    }
}

/// The fields of a node after an update: each given non-blank value replaces
/// the stored one (content as markup, texts cleaned); search text is derived
/// from the resulting content and the summary from the resulting search text
/// when they are not given.
pub fn merged_node_fields(
    existing: &StoredGraphNode,
    label: Option<&str>,
    summary: Option<&str>,
    content: Option<&str>,
    search_text: Option<&str>,
    source: Option<&str>,
) -> (r: NodeFields)
    ensures
        opt_view(r.content) == first_some(content_markup_opt(opt_str(content)), opt_view(existing.content)),
        opt_view(r.search_text) == first_some(
            clean_opt(opt_str(search_text)),
            first_some(
                match opt_view(r.content) {
                    Some(m) => Some(search_text_spec(m)),
                    None => None,
                },
                opt_view(existing.search_text),
            ),
        ),
        opt_view(r.summary) == first_some(
            clean_opt(opt_str(summary)),
            first_some(
                match opt_view(r.search_text) {
                    Some(t) => summary_spec(t),
                    None => None,
                },
                opt_view(existing.summary),
            ),
        ),
        r.label@ == match clean_opt(opt_str(label)) {
            Some(l) => l,
            None => existing.label@,
        },
        opt_view(r.source) == first_some(clean_opt(opt_str(source)), opt_view(existing.source)),
{
    let next_content = match content_markup_str(content) {
        Some(m) => Some(m),
        None => clone_opt(&existing.content),
    };
    let next_search = match clean_opt_str(search_text) {
        Some(t) => Some(t),
        None => match &next_content {
            Some(m) => Some(content_search_text(m.as_str())),
            None => clone_opt(&existing.search_text),
        },
    };
    let next_summary = match clean_opt_str(summary) {
        Some(s) => Some(s),
        None => {
            let derived = match &next_search {
                Some(t) => make_summary(t.as_str()),
                None => None,
            };
            match derived {
                Some(s) => Some(s),
                None => clone_opt(&existing.summary),
            }
        },
    };
    let next_label = match clean_opt_str(label) {
        Some(l) => l,
        None => existing.label.clone(),
    };
    let next_source = match clean_opt_str(source) {
        Some(s) => Some(s),
        None => clone_opt(&existing.source),
    };
    NodeFields {
        label: next_label,
        summary: next_summary,
        content: next_content,
        search_text: next_search,
        source: next_source,
    }
}


/// The MIME type `mime_guess` guesses from the extension of `path`.
pub uninterp spec fn guessed_mime(path: Seq<char>) -> Option<Seq<char>>;

/// Calls `mime_guess::from_path(path).first()` and renders the MIME type as
/// text. Claimed: the guess depends on `path` alone, named `guessed_mime`.
#[verifier::external_body]
fn guess_mime(path: &str) -> (r: Option<String>)
    ensures
        opt_view(r) == guessed_mime(path@),
{
    mime_guess::from_path(path).first().map(|mime| mime.to_string())
}

/// The file extensions `mime_guess` knows for a MIME type, most common first.
pub uninterp spec fn mime_extensions_of(content_type: Seq<char>) -> Option<Seq<Seq<char>>>;

/// Calls `mime_guess::get_mime_extensions_str`. Claimed: the answer depends
/// on the MIME type alone, named `mime_extensions_of`.
#[verifier::external_body]
fn mime_extensions(content_type: &str) -> (r: Option<Vec<String>>)
    ensures
        match (r, mime_extensions_of(content_type@)) {
            (Some(v), Some(s)) => crate::text::strings_view(v@) == s,
            (None, None) => true,
            _ => false,
        },
{
    mime_guess::get_mime_extensions_str(content_type).map(
        |exts| exts.iter().map(|ext| ext.to_string()).collect(),
    )
}

/// The extension an asset is stored under: the first known for its type, else `bin`.
pub open spec fn storage_extension(content_type: Seq<char>) -> Seq<char> {
    match mime_extensions_of(content_type) {
        Some(exts) => if exts.len() > 0 {
            exts[0]
        } else {
            "bin"@
        },
        None => "bin"@,
    }
}

/// Everything an import stores besides the bytes themselves.
pub struct ImportPlan {
    /// Where the bytes are stored: `{source_kind}/{asset_id}.{extension}`.
    pub storage_key: String,
    /// The record key of the graph node.
    pub node_record_key: String,
    /// The label, trimmed.
    pub label: String,
    pub byte_size: i64,
    /// The node's source: the URL, else the file name.
    pub source: Option<String>,
    /// `asset:{asset_id}`.
    pub asset_ref: String,
    /// `kg_node:{node_id}`, as the import job records it.
    pub node_ref: String,
    /// `Importing {label}`.
    pub headline: String,
    pub detail: String,
    /// The identifiers answered to the client.
    pub asset_id: String,
    pub node_id: String,
    pub job_id: String,
}

fn concat2(a: &str, b: &str) -> (r: String)
    ensures
        r@ == a@ + b@,
{
    let mut v: Vec<char> = Vec::new();
    push_str(&mut v, a);
    push_str(&mut v, b);
    string_of(v.as_slice())
}

fn concat3(a: &str, b: &str, c: &str) -> (r: String)
    ensures
        r@ == a@ + b@ + c@,
{
    let mut v: Vec<char> = Vec::new();
    push_str(&mut v, a);
    push_str(&mut v, b);
    push_str(&mut v, c);
    string_of(v.as_slice())
}

/// The records an import creates, for an asset `asset_id`, an allocated node
/// identifier `node_id` and a job `job_id`.
pub fn import_plan(
    kind: &str,
    source_kind: &str,
    label: &str,
    node_id: &str,
    asset_id: &str,
    job_id: &str,
    filename: &Option<String>,
    source_url: &Option<String>,
    content_type: &str,
    byte_len: usize,
) -> (r: ImportPlan)
    requires
        byte_len <= i64::MAX,
    ensures
        r.storage_key@ == source_kind@ + "/"@ + asset_id@ + "."@ + storage_extension(content_type@),
        r.node_record_key@ == record_key_spec(kind@, node_id@),
        r.label@ == trim_spec(label@),
        r.byte_size == byte_len,
        opt_view(r.source) == first_some(opt_view(*source_url), opt_view(*filename)),
        r.asset_ref@ == "asset:"@ + asset_id@,
        r.node_ref@ == "kg_node:"@ + node_id@,
        r.headline@ == "Importing "@ + label@,
        r.detail@ == (if source_kind@ == "url"@ {
            "Fetching and extracting the remote source"@
        } else {
            "Extracting text and indexing the asset"@
        }),
        r.asset_id@ == "asset:"@ + asset_id@,
        r.node_id@ == "kg_node:"@ + record_key_spec(kind@, node_id@),
        r.job_id@ == "import_job:"@ + job_id@,
{
    let extension = match mime_extensions(content_type) {
        Some(exts) => if exts.len() > 0 {
            exts[0].clone()
        } else {
            "bin".to_string()
        },
        None => "bin".to_string(),
    };
    let mut key: Vec<char> = Vec::new();
    push_str(&mut key, source_kind);
    push_str(&mut key, "/");
    push_str(&mut key, asset_id);
    push_str(&mut key, ".");
    push_str(&mut key, extension.as_str());
    let node_record_key = graph_node_record_key(kind, node_id);
    let source = match source_url {
        Some(u) => Some(u.clone()),
        None => clone_opt(filename),
    };
    let detail = if str_eq(source_kind, "url") {
        "Fetching and extracting the remote source".to_string()
    } else {
        "Extracting text and indexing the asset".to_string()
    };
    let node_id_public = concat2("kg_node:", node_record_key.as_str());
    assert(node_id_public@ =~= "kg_node:"@ + record_key_spec(kind@, node_id@));
    let asset_ref = concat2("asset:", asset_id);
    assert(asset_ref@ =~= "asset:"@ + asset_id@);
    let node_ref = concat2("kg_node:", node_id);
    assert(node_ref@ =~= "kg_node:"@ + node_id@);
    let headline = concat2("Importing ", label);
    assert(headline@ =~= "Importing "@ + label@);
    let job = concat2("import_job:", job_id);
    assert(job@ =~= "import_job:"@ + job_id@);
    let asset_public = concat2("asset:", asset_id);
    assert(asset_public@ =~= "asset:"@ + asset_id@);
    ImportPlan {
        storage_key: string_of(key.as_slice()),
        node_record_key,
        label: trim_str(label),
        byte_size: byte_len as i64,
        source,
        asset_ref,
        node_ref,
        headline,
        detail,
        asset_id: asset_public,
        node_id: node_id_public,
        job_id: job,
    }
}

/// The content type of an uploaded file: as sent, else guessed from the file
/// name, else `application/octet-stream`.
pub open spec fn upload_content_type_spec(sent: Option<Seq<char>>, filename: Option<Seq<char>>) -> Seq<char> {
    match sent {
        Some(t) => t,
        None => match filename {
            Some(f) => match guessed_mime(f) {
                Some(m) => m,
                None => "application/octet-stream"@,
            },
            None => "application/octet-stream"@,
        },
    }
}

pub fn upload_content_type(sent: Option<String>, filename: &Option<String>) -> (r: String)
    ensures
        r@ == upload_content_type_spec(opt_view(sent), opt_view(*filename)),
{
    match sent {
        Some(t) => t,
        None => {
            let guess = match filename {
                Some(f) => guess_mime(f.as_str()),
                None => None,
            };
            match guess {
                Some(m) => m,
                None => "application/octet-stream".to_string(),
            }
        },
    }
}

/// The label of an upload: its file name, else `Upload {id}` with a fresh id.
pub fn upload_label(filename: &Option<String>, fresh_id: &str) -> (r: String)
    ensures
        r@ == match opt_view(*filename) {
            Some(f) => f,
            None => "Upload "@ + fresh_id@,
        },
{
    match filename {
        Some(f) => f.clone(),
        None => {
            let r = concat2("Upload ", fresh_id);
            assert(r@ =~= "Upload "@ + fresh_id@);
            r
        },
    }
}

/// Images are imported as image nodes, everything else as `other`.
pub fn import_kind(content_type: &str, other: &'static str) -> (r: &'static str)
    ensures
        r@ == (if starts_with_spec(content_type@, "image/"@) {
            "image"@
        } else {
            other@
        }),
{
    if str_starts_with(content_type, "image/") {
        "image"
    } else {
        other
    }
}

/// A URL to import must parse and use `http` or `https`.
pub fn check_import_url(url: &str) -> (r: Result<UrlParts, AppError>)
    ensures
        match parsed_url(url@) {
            Err(m) => r matches Err(e) && e.status == STATUS_BAD_REQUEST && e.message@ == m,
            Ok(p) => if p.0 == "http"@ || p.0 == "https"@ {
                r matches Ok(q) && q@ == p
            } else {
                r matches Err(e) && e.status == STATUS_BAD_REQUEST && e.message@
                    == "only http and https URLs are supported"@
            },
        },
{
    match parse_url(url) {
        Err(message) => Err(AppError::bad_request(message)),
        Ok(parts) => {
            if str_eq(parts.scheme.as_str(), "http") || str_eq(parts.scheme.as_str(), "https") {
                Ok(parts)
            } else {
                Err(AppError::bad_request("only http and https URLs are supported".to_string()))
            }
        },
    }
}

/// The MIME type named by a `Content-Type` value: the part before any `;`, trimmed.
pub open spec fn header_mime(value: Seq<char>) -> Seq<char> {
    match split_once_spec(value, ';') {
        Some((head, _)) => trim_spec(head),
        None => trim_spec(value),
    }
}

/// The content type of a fetched URL: from the response header, else guessed
/// from the URL path, else `text/html`.
pub open spec fn remote_content_type_spec(header: Option<Seq<char>>, path: Seq<char>) -> Seq<char> {
    match header {
        Some(h) => header_mime(h),
        None => match guessed_mime(path) {
            Some(m) => m,
            None => "text/html"@,
        },
    }
}

pub fn remote_content_type(header: Option<&str>, path: &str) -> (r: String)
    ensures
        r@ == remote_content_type_spec(opt_str(header), path@),
{
    match header {
        Some(h) => {
            let v = chars_of(h);
            let head = match find_first(v.as_slice(), ';') {
                Some(i) => {
                    let p = slice_chars(v.as_slice(), 0, i);
                    assert(p@ =~= v@.take(i as int));
                    p
                },
                None => v,
            };
            string_of(crate::text::trim_chars(head.as_slice()).as_slice())
        },
        None => match guess_mime(path) {
            Some(m) => m,
            None => "text/html".to_string(),
        },
    }
}

/// The last non-empty text of `s`.
pub open spec fn last_nonempty(s: Seq<Seq<char>>) -> Option<Seq<char>>
    decreases s.len(),
{
    if s.len() == 0 {
        None
    } else if s.last().len() > 0 {
        Some(s.last())
    } else {
        last_nonempty(s.drop_last())
    }
}

/// The label of an imported URL: its last non-empty path segment, else its
/// host, else `Imported URL`.
pub open spec fn url_label_spec(host: Option<Seq<char>>, path: Seq<char>) -> Seq<char> {
    let seg = match path_segments_spec(path) {
        Some(segs) => last_nonempty(segs),
        None => None,
    };
    match seg {
        Some(s) => s,
        None => match host {
            Some(h) => h,
            None => "Imported URL"@,
        },
    }
}

fn last_nonempty_chars(segs: &Vec<Vec<char>>) -> (r: Option<String>)
    ensures
        opt_view(r) == last_nonempty(views_of(segs@)),
{
    let mut k = segs.len();
    assert(views_of(segs@).take(k as int) =~= views_of(segs@));
    while k > 0
        invariant
            k <= segs@.len(),
            last_nonempty(views_of(segs@)) == last_nonempty(views_of(segs@).take(k as int)),
        decreases k,
    {
        let ghost t = views_of(segs@).take(k as int);
        assert(t.last() == segs@[k - 1]@);
        if segs[k - 1].len() > 0 {
            return Some(string_of(segs[k - 1].as_slice()));
        }
        assert(t.drop_last() =~= views_of(segs@).take(k - 1));
        k = k - 1;
    }
    None
}

pub fn url_import_label(url: &UrlParts) -> (r: String)
    ensures
        r@ == url_label_spec(opt_view(url.host), url.path@),
{
    let seg = match path_segments(url.path.as_str()) {
        Some(segs) => last_nonempty_chars(&segs),
        None => None,
    };
    match seg {
        Some(s) => s,
        None => match &url.host {
            Some(h) => h.clone(),
            None => "Imported URL".to_string(),
        },
    }
}


/// The texts stored for an image: the cleaned description and the description
/// itself, or the cleaned label for both when no description could be made.
pub fn image_texts(description: Option<String>, label: &str) -> (r: (String, String))
    ensures
        match opt_view(description) {
            Some(d) => r.0@ == clean_spec(d) && r.1@ == d,
            None => r.0@ == clean_spec(label@) && r.1@ == clean_spec(label@),
        },
{
    match description {
        Some(d) => (clean_text(d.as_str()), d),
        None => {
            let fallback = clean_text(label);
            (fallback.clone(), fallback)
        },
    }
}

/// The text of a non-image asset: the extracted text, or, when extraction
/// fails for an HTML type, the text of the bytes read as HTML.
pub open spec fn asset_text_spec(
    content_type: Seq<char>,
    bytes: Seq<u8>,
    pdf: Option<Result<Seq<char>, Seq<char>>>,
) -> Result<Seq<char>, Seq<char>> {
    match extract_text_spec(content_type, bytes, pdf) {
        Ok(t) => Ok(t),
        Err(m) => if contains_spec(content_type, "html"@) {
            Ok(html_text_spec(utf8_lossy(bytes)))
        } else {
            Err(m)
        },
    }
}

pub fn asset_text(content_type: &str, bytes: &[u8], pdf: Option<PdfReading>) -> (r: Result<String, ExtractError>)
    requires
        is_pdf_type(content_type@) ==> pdf is Some,
    ensures
        match (r, asset_text_spec(content_type@, bytes@, pdf_reading_view(pdf))) {
            (Ok(t), Ok(s)) => t@ == s,
            (Err(ExtractError::Pdf(m)), Err(s)) => m@ == s,
            _ => false,
        },
{
    match extract_text(content_type, bytes, pdf) {
        Ok(t) => Ok(t),
        Err(error) => {
            if str_contains(content_type, "html") {
                let html = decode_utf8_lossy(bytes);
                Ok(extract_text_from_html(html.as_str()))
            } else {
                Err(error)
            }
        },
    }
}

/// What a finished import writes back to the asset, node and job.
pub struct ImportOutcome {
    pub extracted_text: Option<String>,
    pub image_description: Option<String>,
    pub summary: Option<String>,
    pub content: Option<String>,
    pub search_text: String,
    pub source: Option<String>,
}

/// The node content an import makes: a document card, a URL card, or nothing
/// for other kinds.
pub open spec fn import_content_spec(
    kind: Seq<char>,
    label: Seq<char>,
    source_url: Option<Seq<char>>,
    text: Seq<char>,
) -> Option<Seq<char>> {
    if kind == "document"@ {
        imported_document_spec(label, text)
    } else if kind == "url"@ {
        Some(
            imported_url_spec(
                label,
                match source_url {
                    Some(u) => u,
                    None => Seq::empty(),
                },
                text,
            ),
        )
    } else {
        None
    }
}

/// The results of processing an imported asset from its search text (empty
/// when there is none) and image description.
pub fn import_outcome(
    asset: &StoredAsset,
    search_text: Option<String>,
    image_description: Option<String>,
) -> (r: ImportOutcome)
    ensures
        r.search_text@ == match opt_view(search_text) {
            Some(t) => t,
            None => Seq::empty(),
        },
        opt_view(r.summary) == summary_spec(r.search_text@),
        opt_view(r.content) == import_content_spec(
            asset.kind@,
            asset.label@,
            opt_view(asset.source_url),
            r.search_text@,
        ),
        opt_view(r.source) == Some(
            match first_some(opt_view(asset.source_url), opt_view(asset.filename)) {
                Some(s) => s,
                None => asset.label@,
            },
        ),
        opt_view(r.extracted_text) == (if asset.kind@ == "image"@ {
            None
        } else {
            Some(r.search_text@)
        }),
        opt_view(r.image_description) == opt_view(image_description),
{
    let search_text = match search_text {
        Some(t) => t,
        None => String::new(),
    };
    let summary = make_summary(search_text.as_str());
    let content = if str_eq(asset.kind.as_str(), "document") {
        imported_document_markup(asset.label.as_str(), search_text.as_str())
    } else if str_eq(asset.kind.as_str(), "url") {
        match &asset.source_url {
            Some(u) => imported_url_markup(asset.label.as_str(), u.as_str(), search_text.as_str()),
            None => {
                let r = imported_url_markup(asset.label.as_str(), "", search_text.as_str());
                proof {
                    reveal_strlit("");
                }
                r
            },
        }
    } else {
        None
    };
    let source = match &asset.source_url {
        Some(u) => Some(u.clone()),
        None => match &asset.filename {
            Some(f) => Some(f.clone()),
            None => Some(asset.label.clone()),
        },
    };
    let extracted_text = if str_eq(asset.kind.as_str(), "image") {
        None
    } else {
        Some(search_text.clone())
    };
    ImportOutcome {
        extracted_text,
        image_description,
        summary,
        content,
        search_text,
        source,
    }
}

/// A chat message is accepted when its cleaned text is not empty and no
/// assistant turn is running; the cleaned text is what is sent.
pub fn chat_send_check(content: &str, turn_running: bool) -> (r: Result<String, AppError>)
    ensures
        clean_spec(content@).len() == 0 ==> (r matches Err(e) && e.status == STATUS_BAD_REQUEST
            && e.message@ == "message cannot be empty"@),
        clean_spec(content@).len() > 0 && turn_running ==> (r matches Err(e) && e.status
            == STATUS_CONFLICT && e.message@ == "an assistant turn is already running"@),
        clean_spec(content@).len() > 0 && !turn_running ==> (r matches Ok(t) && t@ == clean_spec(
            content@,
        )),
{
    let content = clean_text(content);
    if content.unicode_len() == 0 {
        return Err(AppError::bad_request("message cannot be empty".to_string()));
    }
    if turn_running {
        return Err(
            AppError::new(STATUS_CONFLICT, "an assistant turn is already running".to_string()),
        );
    }
    Ok(content)
}

/// A finished turn clears the running turn only when that is the same turn.
pub fn should_clear_turn(current: Option<&str>, turn_id: &str) -> (r: bool)
    ensures
        r == (opt_str(current) == Some(turn_id@)),
{
    match current {
        Some(c) => str_eq(c, turn_id),
        None => false,
    }
}

/// A session authenticates its user unless it is missing or expired; the
/// user is then looked up by the key of the session's `user_id`.
pub fn authenticate_session(session: Option<&StoredAuthSession>, now: i64) -> (r: Result<String, AppError>)
    ensures
        match session {
            None => r matches Err(e) && e.status == STATUS_UNAUTHORIZED && e.message@
                == "session not found"@,
            Some(s) => if s.expires_at < now {
                r matches Err(e) && e.status == STATUS_UNAUTHORIZED && e.message@
                    == "session expired"@
            } else {
                r matches Ok(k) && k@ == external_key_spec(s.user_id@)
            },
        },
{
    match session {
        None => Err(AppError::unauthorized("session not found".to_string())),
        Some(s) => {
            if s.expires_at < now {
                Err(AppError::unauthorized("session expired".to_string()))
            } else {
                Ok(external_id_key(s.user_id.as_str()))
            }
        },
    }
}

/// Logging in needs a configured admin user and the right password.
pub fn login_check(user_found: bool, password_valid: bool) -> (r: Result<(), AppError>)
    ensures
        !user_found ==> (r matches Err(e) && e.status == STATUS_UNAUTHORIZED && e.message@
            == "no admin user is configured"@),
        user_found && !password_valid ==> (r matches Err(e) && e.status == STATUS_UNAUTHORIZED
            && e.message@ == "invalid password"@),
        user_found && password_valid ==> r is Ok,
{
    if !user_found {
        return Err(AppError::unauthorized("no admin user is configured".to_string()));
    }
    if !password_valid {
        return Err(AppError::unauthorized("invalid password".to_string()));
    }
    Ok(())
}

/// How long a login session lasts: thirty days, in nanoseconds.
pub const SESSION_LIFETIME_NANOS: i64 = 2_592_000_000_000_000;

/// When a session created at `now` expires, or `None` when that instant is
/// past the range of a timestamp.
pub fn session_expires_at(now: i64) -> (r: Option<i64>)
    ensures
        r == (if now + SESSION_LIFETIME_NANOS <= i64::MAX {
            Some((now + SESSION_LIFETIME_NANOS) as i64)
        } else {
            None::<i64>
        }),
{
    now.checked_add(SESSION_LIFETIME_NANOS)
}

/// A JSON value as far as record identifiers in query rows are concerned.
pub enum JsonValue {
    /// A string.
    Text(String),
    /// A number that fits an `i64`.
    Integer(i64),
    /// An object, with its `tb` member when that is a string, its `id` member,
    /// and its JSON text.
    Object { tb: Option<String>, id: Option<Box<JsonValue>>, json: String },
    /// Anything else, by its JSON text.
    Other(String),
}

/// The JSON text of a value, without surrounding quotes.
pub open spec fn json_text_unquoted(v: JsonValue) -> Seq<char> {
    match v {
        JsonValue::Text(t) => trim_matches_spec(t@, '"'),
        JsonValue::Integer(n) => int_text(n),
        JsonValue::Object { json, .. } => trim_matches_spec(json@, '"'),
        JsonValue::Other(json) => trim_matches_spec(json@, '"'),
    }
}

/// The text of a record key found in a query row.
pub open spec fn value_key_spec(v: JsonValue) -> Seq<char> {
    match v {
        JsonValue::Text(t) => t@,
        JsonValue::Integer(n) => int_text(n),
        _ => json_text_unquoted(v),
    }
}

/// The text of a record identifier found in a query row: a string as it is,
/// an object `{tb, id}` as `tb:id`, anything else by its JSON text.
pub open spec fn value_id_spec(v: JsonValue) -> Seq<char> {
    match v {
        JsonValue::Text(t) => t@,
        JsonValue::Object { tb: Some(tb), id: Some(id), .. } => tb@ + ":"@ + value_key_spec(*id),
        _ => json_text_unquoted(v),
    }
}

fn unquoted(text: &str) -> (r: String)
    ensures
        r@ == trim_matches_spec(text@, '"'),
{
    let v = chars_of(text);
    string_of(trim_matches_char(v.as_slice(), '"').as_slice())
}

pub fn value_record_key_string(value: &JsonValue) -> (r: String)
    ensures
        r@ == value_key_spec(*value),
{
    match value {
        JsonValue::Text(t) => t.clone(),
        JsonValue::Integer(n) => crate::models::format_i64(*n),
        JsonValue::Object { json, .. } => unquoted(json.as_str()),
        JsonValue::Other(json) => unquoted(json.as_str()),
    }
}

pub fn value_record_id_string(value: &JsonValue) -> (r: String)
    ensures
        r@ == value_id_spec(*value),
{
    match value {
        JsonValue::Text(t) => t.clone(),
        JsonValue::Object { tb: Some(tb), id: Some(id), .. } => {
            concat3(tb.as_str(), ":", value_record_key_string(id).as_str())
        },
        JsonValue::Object { json, .. } => unquoted(json.as_str()),
        JsonValue::Integer(n) => crate::models::format_i64(*n),
        JsonValue::Other(json) => unquoted(json.as_str()),
    }
}

/// Stored model settings with the configured defaults applied; missing
/// settings are an error.
pub fn settings_or_missing(stored: Option<StoredModelSettings>, config: &Config) -> (r: Result<StoredModelSettings, String>)
    ensures
        stored is None <==> (r matches Err(m) && m@ == "model settings are missing"@),
        stored matches Some(s) ==> (r matches Ok(t) && defaults_applied(*config, s, t)),
{
    match stored {
        Some(s) => Ok(apply_model_defaults(config, s)),
        None => Err("model settings are missing".to_string()),
    }
}

/// The views of reference targets: record key and relation.
pub open spec fn target_views(v: Seq<(String, String)>) -> Seq<(Seq<char>, Seq<char>)> {
    v.map_values(|p: (String, String)| (p.0@, p.1@))
}

/// The record key and relation of each reference.
pub open spec fn targets_of(refs: Seq<(Seq<char>, Seq<char>, Seq<char>)>) -> Seq<(Seq<char>, Seq<char>)> {
    refs.map_values(|x: (Seq<char>, Seq<char>, Seq<char>)| (record_key_spec(x.0, x.1), x.2))
}

/// The nodes that content references, by record key, with the relation of
/// each reference: one entry per reference, in the order of the sorted
/// references, and no entry twice.
pub fn reference_targets(content: Option<&str>) -> (r: Vec<(String, String)>)
    ensures
        content is None ==> r@.len() == 0,
        content matches Some(c) ==> {
            &&& trim_spec(c@).len() == 0 ==> r@.len() == 0
            &&& trim_spec(c@).len() > 0 ==> forall|k: Seq<char>, rel: Seq<char>|
                target_views(r@).contains((k, rel)) <==> exists|kind: Seq<char>, id: Seq<char>|
                    #[trigger] references_in(c@, (kind, id, rel)) && k == record_key_spec(kind, id)
            &&& trim_spec(c@).len() > 0 ==> exists|refs: Seq<(Seq<char>, Seq<char>, Seq<char>)>| {
                &&& #[trigger] references_sorted(refs)
                &&& forall|x: (Seq<char>, Seq<char>, Seq<char>)| refs.contains(x) <==> references_in(c@, x)
                &&& target_views(r@) == targets_of(refs)
            }
        },
        forall|i: int, j: int| 0 <= i < j < r@.len() ==> target_views(r@)[i] != target_views(r@)[j],
{
    let mut out: Vec<(String, String)> = Vec::new();
    let c = match content {
        Some(c) => c,
        None => return out,
    };
    let refs = extract_document_references(c);
    let mut i: usize = 0;
    while i < refs.len()
        invariant
            i <= refs@.len(),
            target_views(out@) == targets_of(reference_views(refs@).take(i as int)),
        decreases refs@.len() - i,
    {
        let key = graph_node_record_key(refs[i].kind.as_str(), refs[i].node_id.as_str());
        let ghost before = target_views(out@);
        out.push((key, refs[i].relation.clone()));
        assert(target_views(out@) =~= before.push((key@, refs@[i as int].relation@)));
        assert(reference_views(refs@).take(i + 1) =~= reference_views(refs@).take(i as int).push(
            refs@[i as int]@,
        ));
        i = i + 1;
    }
    assert(reference_views(refs@).take(refs@.len() as int) =~= reference_views(refs@));
    proof {
        let rv = reference_views(refs@);
        let tv = target_views(out@);
        assert forall|i: int, j: int| 0 <= i < j < tv.len() implies tv[i] != tv[j] by {
            assert(reference_lt(rv[i], rv[j]));
            lemma_reference_lt_irreflexive(rv[i]);
            if tv[i] == tv[j] {
                assert(rv.contains(rv[i]) && rv.contains(rv[j]));
                lemma_reference_kind_is_slug(c@, rv[i]);
                lemma_reference_kind_is_slug(c@, rv[j]);
                lemma_record_key_injective(rv[i].0, rv[i].1, rv[j].0, rv[j].1);
                assert(rv[i] == rv[j]);
            }
        }
        if trim_spec(c@).len() > 0 {
            assert(references_sorted(rv));
        }
        if trim_spec(c@).len() > 0 {
            assert forall|k: Seq<char>, rel: Seq<char>| tv.contains((k, rel)) <==> exists|kind: Seq<char>, id: Seq<char>|
                #[trigger] references_in(c@, (kind, id, rel)) && k == record_key_spec(kind, id) by {
                if tv.contains((k, rel)) {
                    let j = choose|j: int| 0 <= j < tv.len() && tv[j] == (k, rel);
                    let x = rv[j];
                    assert(rv.contains(x));
                    assert(references_in(c@, (x.0, x.1, rel)));
                }
                if exists|kind: Seq<char>, id: Seq<char>| #[trigger] references_in(c@, (kind, id, rel)) && k
                    == record_key_spec(kind, id) {
                    let (kind, id) = choose|kind: Seq<char>, id: Seq<char>|
                        #[trigger] references_in(c@, (kind, id, rel)) && k == record_key_spec(kind, id);
                    assert(rv.contains((kind, id, rel)));
                    let j = choose|j: int| 0 <= j < rv.len() && rv[j] == (kind, id, rel);
                    assert(tv[j] == (k, rel));
                }
            }
        }
    }
    out
}

/// The query of a search, cleaned; `None` when nothing is left to search for.
pub fn search_query(query: &str) -> (r: Option<String>)
    ensures
        opt_view(r) == (if clean_spec(query@).len() == 0 {
            None
        } else {
            Some(clean_spec(query@))
        }),
{
    let q = clean_text(query);
    if q.unicode_len() == 0 {
        None
    } else {
        Some(q)
    }
}


/// The first `n` characters of `s` (all of them when it is shorter).
pub open spec fn take_chars_spec(s: Seq<char>, n: nat) -> Seq<char> {
    if s.len() <= n {
        s
    } else {
        s.take(n as int)
    }
}

/// The first `n` characters of `s` (`chars().take(n).collect()`).
pub fn take_chars(s: &str, n: usize) -> (r: String)
    ensures
        r@ == take_chars_spec(s@, n as nat),
{
    let v = chars_of(s);
    if v.len() <= n {
        string_of(v.as_slice())
    } else {
        string_of(slice_chars(v.as_slice(), 0, n).as_slice())
    }
}

} // verus!
