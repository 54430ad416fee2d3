use vstd::prelude::*;

use crate::config::{opt_view, Config};
use crate::documents::{lemma_normalize_fixes_slug, normalize_spec};
use crate::extract::{clean_spec, clean_text, extract_text_from_html, html_text_spec};
use crate::models::StoredModelSettings;
use crate::numbers::{decimal, format_usize, lemma_decimal_value, lemma_decimal_injective};
use crate::order::str_eq;
use crate::routes::{is_allowed_kind, opt_str, take_chars_spec};
use crate::text::{
    chars_of, contains_spec, join_chars, join_spec, push_str, str_contains, string_of,
    strings_view, trim_chars, trim_spec, trim_str, views_of,
};
use crate::urls::{parse_url, parsed_url};

verus! {

/// The session every chat turn runs in.
pub const ROOT_SESSION_ID: &'static str = "root";

/// The most model turns one request may take.
pub const MAX_TURNS_PER_REQUEST: usize = 6;

/// The instructions the assistant starts every session with.
pub const SYSTEM_PROMPT: &'static str = "You are the single assistant inside a private knowledge-graph workspace. The graph has four node kinds: document, image, url, and topic. Be concise, factual, and proactive about using tools when the graph, assets, or the web need to be inspected. Durable knowledge should be stored in graph nodes, especially document nodes with rich `content`. Document content may use Hirsel-style tags such as `<hirsel-callout>`, `<hirsel-card>`, `<hirsel-tabs>`, `<hirsel-disclosure>`, `<hirsel-progress>`, `<hirsel-stat-grid>`, `<hirsel-doc-link node=\"document:foo\">`, `<hirsel-doc-embed node=\"document:foo\">`, `<hirsel-node-ref node=\"topic:bar\">`, and `<hirsel-node-list node=\"topic:bar\" relation=\"references\">`. Inside those tags, reference nodes as `kind:node_id`, not by record id. Use the tool-returned record `id` when another tool needs a node identifier.";

/// A tool's result: a JSON string, or any other JSON value by its pretty
/// printed text.
pub enum ToolOutput {
    Text(String),
    Json(String),
}

/// The transcript text of a tool result: a string trimmed, other values
/// pretty printed, cut to 6000 characters on success and 3000 on failure.
pub open spec fn tool_result_text(result: ToolOutput, success: bool) -> Seq<char> {
    let full = match result {
        ToolOutput::Text(t) => trim_spec(t@),
        ToolOutput::Json(j) => j@,
    };
    take_chars_spec(full, if success { 6000 } else { 3000 })
}

pub fn render_tool_result(result: &ToolOutput, success: bool) -> (r: String)
    ensures
        r@ == tool_result_text(*result, success),
{
    let full = match result {
        ToolOutput::Text(t) => trim_str(t.as_str()),
        ToolOutput::Json(j) => j.clone(),
    };
    crate::routes::take_chars(full.as_str(), if success { 6000 } else { 3000 })
}

/// The texts, trimmed, without blank ones.
pub open spec fn nonblank_trimmed_texts(texts: Seq<Seq<char>>) -> Seq<Seq<char>>
    decreases texts.len(),
{
    if texts.len() == 0 {
        Seq::empty()
    } else if trim_spec(texts.last()).len() == 0 {
        nonblank_trimmed_texts(texts.drop_last())
    } else {
        nonblank_trimmed_texts(texts.drop_last()).push(trim_spec(texts.last()))
    }
}

/// What the assistant's turn adds to the chat: its text trimmed; when that is
/// blank, its error messages one per line, or a notice when there are none.
pub open spec fn assistant_text_spec(safe_text: Seq<char>, errors: Seq<Seq<char>>) -> Seq<char> {
    if trim_spec(safe_text).len() == 0 {
        if errors.len() == 0 {
            "The assistant finished without returning text."@
        } else {
            join_spec(nonblank_trimmed_texts(errors), "\n"@)
        }
    } else {
        trim_spec(safe_text)
    }
}

pub fn assistant_text(safe_text: &str, errors: &Vec<String>) -> (r: String)
    ensures
        r@ == assistant_text_spec(safe_text@, strings_view(errors@)),
{
    let t = trim_str(safe_text);
    if t.unicode_len() > 0 {
        return t;
    }
    if errors.len() == 0 {
        return "The assistant finished without returning text.".to_string();
    }
    let mut kept: Vec<Vec<char>> = Vec::new();
    let mut i: usize = 0;
    while i < errors.len()
        invariant
            i <= errors@.len(),
            views_of(kept@) == nonblank_trimmed_texts(strings_view(errors@).take(i as int)),
        decreases errors@.len() - i,
    {
        let ghost ev = strings_view(errors@);
        assert(ev.take(i + 1).drop_last() =~= ev.take(i as int));
        assert(ev.take(i + 1).last() == errors@[i as int]@);
        let m = trim_chars(chars_of(errors[i].as_str()).as_slice());
        if m.len() > 0 {
            let ghost before = views_of(kept@);
            kept.push(m);
            assert(views_of(kept@) =~= before.push(kept@.last()@));
        }
        i = i + 1;
    }
    assert(strings_view(errors@).take(errors@.len() as int) =~= strings_view(errors@));
    string_of(join_chars(&kept, "\n").as_slice())
}

/// A required string argument of a tool: present and not blank (returned as given).
pub fn require_str(value: Option<&str>, key: &str) -> (r: Result<String, String>)
    ensures
        match opt_str(value) {
            Some(v) => if trim_spec(v).len() > 0 {
                r matches Ok(s) && s@ == v
            } else {
                r matches Err(m) && m@ == key@ + " is required"@
            },
            None => r matches Err(m) && m@ == key@ + " is required"@,
        },
{
    match value {
        Some(v) => {
            if trim_str(v).unicode_len() > 0 {
                return Ok(v.to_string());
            }
        },
        None => {},
    }
    let mut m: Vec<char> = Vec::new();
    push_str(&mut m, key);
    push_str(&mut m, " is required");
    Err(string_of(m.as_slice()))
}

/// An optional string argument of a tool: trimmed, and absent when blank.
pub fn optional_str(value: Option<&str>) -> (r: Option<String>)
    ensures
        opt_view(r) == match opt_str(value) {
            Some(v) => if trim_spec(v).len() > 0 {
                Some(trim_spec(v))
            } else {
                None
            },
            None => None,
        },
{
    match value {
        Some(v) => {
            let t = trim_str(v);
            if t.unicode_len() > 0 {
                Some(t)
            } else {
                None
            }
        },
        None => None,
    }
}

/// The tools the assistant can call.
#[derive(Debug, Clone, Copy, PartialEq, Eq)]
pub enum ToolName {
    ListAssets,
    ReadAsset,
    FetchUrl,
    SearchWeb,
    SearchGraph,
    GetNode,
    CreateNode,
    UpdateNode,
    RelateNodes,
}

/// The name under which each tool is offered.
pub open spec fn tool_name_text(t: ToolName) -> Seq<char> {
    match t {
        ToolName::ListAssets => "list_assets"@,
        ToolName::ReadAsset => "read_asset"@,
        ToolName::FetchUrl => "fetch_url"@,
        ToolName::SearchWeb => "search_web"@,
        ToolName::SearchGraph => "search_graph"@,
        ToolName::GetNode => "get_node"@,
        ToolName::CreateNode => "create_node"@,
        ToolName::UpdateNode => "update_node"@,
        ToolName::RelateNodes => "relate_nodes"@,
    }
}

/// The tool a call names; an unknown name is refused with `unknown tool: {name}`.
pub fn parse_tool_name(name: &str) -> (r: Result<ToolName, String>)
    ensures
        r matches Ok(t) ==> tool_name_text(t) == name@,
        r is Err ==> forall|t: ToolName| tool_name_text(t) != name@,
        (exists|t: ToolName| tool_name_text(t) == name@) ==> r is Ok,
        r matches Err(m) ==> m@ == "unknown tool: "@ + name@,
{
    if str_eq(name, "list_assets") {
        Ok(ToolName::ListAssets)
    } else if str_eq(name, "read_asset") {
        Ok(ToolName::ReadAsset)
    } else if str_eq(name, "fetch_url") {
        Ok(ToolName::FetchUrl)
    } else if str_eq(name, "search_web") {
        Ok(ToolName::SearchWeb)
    } else if str_eq(name, "search_graph") {
        Ok(ToolName::SearchGraph)
    } else if str_eq(name, "get_node") {
        Ok(ToolName::GetNode)
    } else if str_eq(name, "create_node") {
        Ok(ToolName::CreateNode)
    } else if str_eq(name, "update_node") {
        Ok(ToolName::UpdateNode)
    } else if str_eq(name, "relate_nodes") {
        Ok(ToolName::RelateNodes)
    } else {
        assert forall|t: ToolName| tool_name_text(t) != name@ by {
            match t {
                ToolName::ListAssets => {},
                ToolName::ReadAsset => {},
                ToolName::FetchUrl => {},
                ToolName::SearchWeb => {},
                ToolName::SearchGraph => {},
                ToolName::GetNode => {},
                ToolName::CreateNode => {},
                ToolName::UpdateNode => {},
                ToolName::RelateNodes => {},
            }
        }
        let mut m: Vec<char> = Vec::new();
        push_str(&mut m, "unknown tool: ");
        push_str(&mut m, name);
        Err(string_of(m.as_slice()))
    }
}

/// What a chat turn runs with.
pub struct SessionPolicy {
    pub model: String,
    pub api_key: String,
    pub base_url: String,
    pub max_context_tokens: usize,
    pub session_id: String,
    pub max_turns: usize,
}

/// The policy of a chat turn: the configured model and endpoint; an API key is required.
pub fn build_policy(config: &Config, settings: &StoredModelSettings) -> (r: Result<SessionPolicy, String>)
    ensures
        settings.api_key is None <==> (r matches Err(m) && m@ == "model API key is not configured"@),
        settings.api_key is Some <==> r is Ok,
        r matches Ok(p) ==> {
            &&& p.model@ == settings.model@
            &&& Some(p.api_key@) == opt_view(settings.api_key)
            &&& p.base_url@ == settings.base_url@
            &&& p.max_context_tokens == config.default_model_max_context_tokens
            &&& p.session_id@ == "root"@
            &&& p.max_turns == 6
        },
{
    let api_key = match &settings.api_key {
        Some(k) => k.clone(),
        None => return Err("model API key is not configured".to_string()),
    };
    Ok(SessionPolicy {
        model: settings.model.clone(),
        api_key,
        base_url: settings.base_url.clone(),
        max_context_tokens: config.default_model_max_context_tokens,
        session_id: ROOT_SESSION_ID.to_string(),
        max_turns: MAX_TURNS_PER_REQUEST,
    })
}

/// A URL the assistant may fetch must parse and use `http` or `https`.
pub fn check_fetch_url(url: &str) -> (r: Result<(), String>)
    ensures
        match parsed_url(url@) {
            Err(m) => r matches Err(e) && e@ == m,
            Ok(p) => if p.0 == "http"@ || p.0 == "https"@ {
                r is Ok
            } else {
                r matches Err(e) && e@ == "unsupported url scheme"@
            },
        },
{
    match parse_url(url) {
        Err(message) => Err(message),
        Ok(parts) => {
            if str_eq(parts.scheme.as_str(), "http") || str_eq(parts.scheme.as_str(), "https") {
                Ok(())
            } else {
                Err("unsupported url scheme".to_string())
            }
        },
    }
}

/// The preview of a fetched page: its text (read as HTML when the content
/// type says so), cut to 4000 characters.
pub open spec fn url_preview_spec(content_type: Seq<char>, body: Seq<char>) -> Seq<char> {
    take_chars_spec(
        if contains_spec(content_type, "html"@) {
            html_text_spec(body)
        } else {
            clean_spec(body)
        },
        4000,
    )
}

pub fn url_preview(content_type: &str, body: &str) -> (r: String)
    ensures
        r@ == url_preview_spec(content_type@, body@),
{
    let text = if str_contains(content_type, "html") {
        extract_text_from_html(body)
    } else {
        clean_text(body)
    };
    crate::routes::take_chars(text.as_str(), 4000)
}

/// The web search key is required to search the web.
pub fn web_search_key(config: &Config) -> (r: Result<String, String>)
    ensures
        match opt_view(config.tavily_api_key) {
            Some(k) => r matches Ok(s) && s@ == k,
            None => r matches Err(m) && m@ == "TAVILY_API_KEY is not configured"@,
        },
{
    match &config.tavily_api_key {
        Some(k) => Ok(k.clone()),
        None => Err("TAVILY_API_KEY is not configured".to_string()),
    }
}

/// The identifier of the `i`-th transcript message.
pub open spec fn message_id_spec(i: nat) -> Seq<char> {
    "m"@ + decimal(i)
}

/// The identifier of the `j`-th part of the `i`-th transcript message.
pub open spec fn part_id_spec(i: nat, j: nat) -> Seq<char> {
    "m"@ + decimal(i) + ".p"@ + decimal(j)
}

/// The identifiers of a transcript, by message: the message's own and its parts'.
pub open spec fn ids_match(part_counts: Seq<usize>, ids: Seq<(Seq<char>, Seq<Seq<char>>)>) -> bool {
    &&& ids.len() == part_counts.len()
    &&& forall|i: int| 0 <= i < ids.len() ==> {
        &&& (#[trigger] ids[i]).0 == message_id_spec(i as nat)
        &&& ids[i].1.len() == part_counts[i]
        &&& forall|j: int| 0 <= j < ids[i].1.len() ==> #[trigger] ids[i].1[j] == part_id_spec(i as nat, j as nat)
    }
}

/// The views of renumbered identifiers.
pub open spec fn id_views(v: Seq<(String, Vec<String>)>) -> Seq<(Seq<char>, Seq<Seq<char>>)> {
    v.map_values(|p: (String, Vec<String>)| (p.0@, strings_view(p.1@)))
}

fn message_id(i: usize) -> (r: String)
    ensures
        r@ == message_id_spec(i as nat),
{
    let mut v: Vec<char> = Vec::new();
    push_str(&mut v, "m");
    push_str(&mut v, format_usize(i).as_str());
    string_of(v.as_slice())
}

fn part_id(i: usize, j: usize) -> (r: String)
    ensures
        r@ == part_id_spec(i as nat, j as nat),
{
    let mut v: Vec<char> = Vec::new();
    push_str(&mut v, "m");
    push_str(&mut v, format_usize(i).as_str());
    push_str(&mut v, ".p");
    push_str(&mut v, format_usize(j).as_str());
    string_of(v.as_slice())
}

/// The identifiers a transcript is renumbered with: `m{i}` for the `i`-th
/// message and `m{i}.p{j}` for its `j`-th part.
pub fn renumbered_ids(part_counts: &Vec<usize>) -> (r: Vec<(String, Vec<String>)>)
    ensures
        ids_match(part_counts@, id_views(r@)),
{
    let mut out: Vec<(String, Vec<String>)> = Vec::new();
    let mut i: usize = 0;
    while i < part_counts.len()
        invariant
            i <= part_counts@.len(),
            ids_match(part_counts@.take(i as int), id_views(out@)),
        decreases part_counts@.len() - i,
    {
        let n = part_counts[i];
        let mut parts: Vec<String> = Vec::new();
        let mut j: usize = 0;
        while j < n
            invariant
                j <= n,
                parts@.len() == j,
                forall|k: int| 0 <= k < j ==> #[trigger] parts@[k]@ == part_id_spec(i as nat, k as nat),
            decreases n - j,
        {
            parts.push(part_id(i, j));
            j = j + 1;
        }
        let ghost before = id_views(out@);
        let id = message_id(i);
        out.push((id, parts));
        proof {
            let after = id_views(out@);
            assert(after =~= before.push((out@[i as int].0@, strings_view(out@[i as int].1@))));
            let pc = part_counts@.take(i + 1);
            assert forall|k: int| 0 <= k < after.len() implies {
                &&& (#[trigger] after[k]).0 == message_id_spec(k as nat)
                &&& after[k].1.len() == pc[k]
                &&& forall|m: int| 0 <= m < after[k].1.len() ==> #[trigger] after[k].1[m] == part_id_spec(k as nat, m as nat)
            } by {
                if k < i {
                    assert(after[k] == before[k]);
                    assert(pc[k] == part_counts@.take(i as int)[k]);
                } else {
                    assert forall|m: int| 0 <= m < after[k].1.len() implies #[trigger] after[k].1[m] == part_id_spec(k as nat, m as nat) by {
                        assert(after[k].1[m] == parts@[m]@);
                    }
                }
            }
        }
        i = i + 1;
    }
    assert(part_counts@.take(part_counts@.len() as int) =~= part_counts@);
    out
}

/// Renumbering gives every message and every part its own identifier.
pub proof fn lemma_renumbered_ids_distinct(i1: nat, j1: nat, i2: nat, j2: nat)
    ensures
        message_id_spec(i1) == message_id_spec(i2) ==> i1 == i2,
        part_id_spec(i1, j1) == part_id_spec(i2, j2) ==> i1 == i2 && j1 == j2,
        message_id_spec(i1) != part_id_spec(i2, j2),
{
    reveal_strlit("m");
    reveal_strlit(".p");
    lemma_decimal_value(i1);
    lemma_decimal_value(j1);
    lemma_decimal_value(i2);
    lemma_decimal_value(j2);
    let m1 = message_id_spec(i1);
    let m2 = message_id_spec(i2);
    if m1 == m2 {
        assert(decimal(i1) =~= m1.skip(1));
        assert(decimal(i2) =~= m2.skip(1));
        lemma_decimal_injective(i1, i2);
    }
    let p1 = part_id_spec(i1, j1);
    let p2 = part_id_spec(i2, j2);
    // the first '.' of a part identifier follows the message number
    let d1 = decimal(i1);
    let d2 = decimal(i2);
    let n1: int = d1.len() as int;
    let n2: int = d2.len() as int;
    assert(p1[n1 + 1] == '.');
    assert(p2[n2 + 1] == '.');
    assert forall|k: int| 1 <= k < n1 + 1 implies p1[k] != '.' by {
        assert(p1[k] == d1[k - 1]);
    }
    assert forall|k: int| 1 <= k < n2 + 1 implies p2[k] != '.' by {
        assert(p2[k] == d2[k - 1]);
    }
    if p1 == p2 {
        assert(d1.len() == d2.len()) by {
            if d1.len() < d2.len() {
                assert(p2[n1 + 1] == d2[n1]);
            } else if d2.len() < d1.len() {
                assert(p1[n2 + 1] == d1[n2]);
            }
        }
        assert(d1 =~= p1.subrange(1, n1 + 1));
        assert(d2 =~= p2.subrange(1, n2 + 1));
        lemma_decimal_injective(i1, i2);
        assert(decimal(j1) =~= p1.skip(n1 + 3));
        assert(decimal(j2) =~= p2.skip(n2 + 3));
        lemma_decimal_injective(j1, j2);
    }
    assert forall|k: int| 0 <= k < m1.len() implies m1[k] != '.' by {
        if k > 0 {
            assert(m1[k] == d1[k - 1]);
        }
    }
    if m1 == p2 {
        assert(m1.len() == p2.len());
        assert(p2[n2 + 1] == '.');
    }
}

/// A string property of a tool's argument object; when `choices` is not
/// empty, the property may take only those values.
pub struct SchemaProperty {
    pub name: String,
    pub choices: Vec<String>,
}

/// The argument object a tool takes: the listed string properties and no
/// others, of which the `required` ones must be present.
pub struct ArgumentSchema {
    pub properties: Vec<SchemaProperty>,
    pub required: Vec<String>,
}

/// How a tool is offered to the model: its name and description, the string
/// parameters it takes, what it returns and, where it spells out its
/// argument object, that object's schema.
pub struct ToolSpec {
    pub tool: ToolName,
    pub name: String,
    pub description: String,
    pub params: Vec<String>,
    pub returns: String,
    pub schema: Option<ArgumentSchema>,
}

pub open spec fn property_view(p: SchemaProperty) -> (Seq<char>, Seq<Seq<char>>) {
    (p.name@, strings_view(p.choices@))
}

pub open spec fn schema_view(s: ArgumentSchema) -> (Seq<(Seq<char>, Seq<Seq<char>>)>, Seq<Seq<char>>) {
    (s.properties@.map_values(|p: SchemaProperty| property_view(p)), strings_view(s.required@))
}

/// The order in which the tools are offered.
pub open spec fn offered_tool(i: int) -> ToolName {
    if i == 0 {
        ToolName::ListAssets
    } else if i == 1 {
        ToolName::ReadAsset
    } else if i == 2 {
        ToolName::FetchUrl
    } else if i == 3 {
        ToolName::SearchWeb
    } else if i == 4 {
        ToolName::SearchGraph
    } else if i == 5 {
        ToolName::GetNode
    } else if i == 6 {
        ToolName::CreateNode
    } else if i == 7 {
        ToolName::UpdateNode
    } else {
        ToolName::RelateNodes
    }
}

pub open spec fn tool_description_text(t: ToolName) -> Seq<char> {
    match t {
        ToolName::ListAssets => "List recent imported assets available to the assistant."@,
        ToolName::ReadAsset => "Read extracted text or image description for an asset by id."@,
        ToolName::FetchUrl => "Fetch a webpage and return a compact extracted-text preview."@,
        ToolName::SearchWeb => "Run a web search when current external information is required."@,
        ToolName::SearchGraph => "Search graph nodes by keyword."@,
        ToolName::GetNode => "Load a node with connected incoming and outgoing edges."@,
        ToolName::CreateNode => "Create a new graph node. Use document for durable rich content, topic for concepts, image for visual assets, and url for external sources represented as nodes."@,
        ToolName::UpdateNode => "Update top-level graph node fields. For documents, update `content` with rich Hirsel-style markup when durable structure matters."@,
        ToolName::RelateNodes => "Create a graph edge between two nodes."@,
    }
}

/// The string parameters a tool names.
pub open spec fn tool_params(t: ToolName) -> Seq<Seq<char>> {
    match t {
        ToolName::ReadAsset => seq!["asset_id"@],
        ToolName::FetchUrl => seq!["url"@],
        ToolName::SearchWeb => seq!["query"@],
        ToolName::SearchGraph => seq!["query"@],
        ToolName::GetNode => seq!["node_id"@],
        _ => seq![],
    }
}

pub open spec fn tool_returns(t: ToolName) -> Seq<char> {
    if t == ToolName::SearchGraph {
        "list"@
    } else {
        "dict"@
    }
}

/// Free string properties, one per name.
pub open spec fn free_properties(names: Seq<Seq<char>>) -> Seq<(Seq<char>, Seq<Seq<char>>)> {
    names.map_values(|n: Seq<char>| (n, Seq::<Seq<char>>::empty()))
}

/// The node kinds a new node may be created with.
pub open spec fn offered_kinds() -> Seq<Seq<char>> {
    seq!["document"@, "image"@, "url"@, "topic"@]
}

/// The argument object each tool spells out, as its properties and the
/// required ones.
pub open spec fn tool_schema(t: ToolName) -> Option<(Seq<(Seq<char>, Seq<Seq<char>>)>, Seq<Seq<char>>)> {
    match t {
        ToolName::ListAssets => Some((seq![], seq![])),
        ToolName::CreateNode => Some((
            seq![("kind"@, offered_kinds())] + free_properties(
                seq!["label"@, "node_id"@, "summary"@, "content"@, "search_text"@, "source"@],
            ),
            seq!["kind"@, "label"@],
        )),
        ToolName::UpdateNode => Some((
            free_properties(
                seq!["node_id"@, "label"@, "summary"@, "content"@, "search_text"@, "source"@],
            ),
            seq!["node_id"@],
        )),
        ToolName::RelateNodes => Some((
            free_properties(seq!["from_node_id"@, "to_node_id"@, "relation"@]),
            seq!["from_node_id"@, "to_node_id"@, "relation"@],
        )),
        _ => None,
    }
}

/// Whether `s` offers tool `t` as the catalogue describes it.
pub open spec fn offers(s: ToolSpec, t: ToolName) -> bool {
    &&& s.tool == t
    &&& s.name@ == tool_name_text(t)
    &&& s.description@ == tool_description_text(t)
    &&& strings_view(s.params@) == tool_params(t)
    &&& s.returns@ == tool_returns(t)
    &&& match s.schema {
        Some(sc) => tool_schema(t) == Some(schema_view(sc)),
        None => tool_schema(t) is None,
    }
}

fn push_text(v: &mut Vec<String>, s: &str)
    ensures
        strings_view(final(v)@) == strings_view(old(v)@).push(s@),
{
    v.push(s.to_string());
    assert(strings_view(v@) =~= strings_view(old(v)@).push(s@));
}

fn push_free(v: &mut Vec<SchemaProperty>, name: &str)
    ensures
        final(v)@.map_values(|p: SchemaProperty| property_view(p)) == old(v)@.map_values(
            |p: SchemaProperty| property_view(p),
        ).push((name@, Seq::<Seq<char>>::empty())),
{
    v.push(SchemaProperty { name: name.to_string(), choices: Vec::new() });
    assert(strings_view(Seq::<String>::empty()) =~= Seq::<Seq<char>>::empty());
    assert(v@.map_values(|p: SchemaProperty| property_view(p)) =~= old(v)@.map_values(
        |p: SchemaProperty| property_view(p),
    ).push((name@, Seq::<Seq<char>>::empty())));
}

fn tool_spec(t: ToolName) -> (r: ToolSpec)
    ensures
        offers(r, t),
{
    let mut params: Vec<String> = Vec::new();
    let (name, description, schema) = match t {
        ToolName::ListAssets => {
            let sc = ArgumentSchema { properties: Vec::new(), required: Vec::new() };
            assert(schema_view(sc) =~= (seq![], seq![]));
            (
                "list_assets",
                "List recent imported assets available to the assistant.",
                Some(sc),
            )
        },
        ToolName::ReadAsset => {
            push_text(&mut params, "asset_id");
            (
                "read_asset",
                "Read extracted text or image description for an asset by id.",
                None,
            )
        },
        ToolName::FetchUrl => {
            push_text(&mut params, "url");
            (
                "fetch_url",
                "Fetch a webpage and return a compact extracted-text preview.",
                None,
            )
        },
        ToolName::SearchWeb => {
            push_text(&mut params, "query");
            (
                "search_web",
                "Run a web search when current external information is required.",
                None,
            )
        },
        ToolName::SearchGraph => {
            push_text(&mut params, "query");
            ("search_graph", "Search graph nodes by keyword.", None)
        },
        ToolName::GetNode => {
            push_text(&mut params, "node_id");
            (
                "get_node",
                "Load a node with connected incoming and outgoing edges.",
                None,
            )
        },
        ToolName::CreateNode => {
            let mut kinds: Vec<String> = Vec::new();
            push_text(&mut kinds, "document");
            push_text(&mut kinds, "image");
            push_text(&mut kinds, "url");
            push_text(&mut kinds, "topic");
            let mut properties: Vec<SchemaProperty> = Vec::new();
            assert(strings_view(kinds@) =~= offered_kinds());
            properties.push(SchemaProperty { name: "kind".to_string(), choices: kinds });
            assert(properties@.map_values(|p: SchemaProperty| property_view(p)) =~= seq![
                ("kind"@, offered_kinds()),
            ]);
            push_free(&mut properties, "label");
            push_free(&mut properties, "node_id");
            push_free(&mut properties, "summary");
            push_free(&mut properties, "content");
            push_free(&mut properties, "search_text");
            push_free(&mut properties, "source");
            let mut required: Vec<String> = Vec::new();
            push_text(&mut required, "kind");
            push_text(&mut required, "label");
            let sc = ArgumentSchema { properties, required };
            assert(schema_view(sc).0 =~= seq![("kind"@, offered_kinds())] + free_properties(
                seq!["label"@, "node_id"@, "summary"@, "content"@, "search_text"@, "source"@],
            ));
            assert(schema_view(sc).1 =~= seq!["kind"@, "label"@]);
            (
                "create_node",
                "Create a new graph node. Use document for durable rich content, topic for concepts, image for visual assets, and url for external sources represented as nodes.",
                Some(sc),
            )
        },
        ToolName::UpdateNode => {
            let mut properties: Vec<SchemaProperty> = Vec::new();
            push_free(&mut properties, "node_id");
            push_free(&mut properties, "label");
            push_free(&mut properties, "summary");
            push_free(&mut properties, "content");
            push_free(&mut properties, "search_text");
            push_free(&mut properties, "source");
            let mut required: Vec<String> = Vec::new();
            push_text(&mut required, "node_id");
            let sc = ArgumentSchema { properties, required };
            assert(schema_view(sc).0 =~= free_properties(
                seq!["node_id"@, "label"@, "summary"@, "content"@, "search_text"@, "source"@],
            ));
            assert(schema_view(sc).1 =~= seq!["node_id"@]);
            (
                "update_node",
                "Update top-level graph node fields. For documents, update `content` with rich Hirsel-style markup when durable structure matters.",
                Some(sc),
            )
        },
        ToolName::RelateNodes => {
            let mut properties: Vec<SchemaProperty> = Vec::new();
            push_free(&mut properties, "from_node_id");
            push_free(&mut properties, "to_node_id");
            push_free(&mut properties, "relation");
            let mut required: Vec<String> = Vec::new();
            push_text(&mut required, "from_node_id");
            push_text(&mut required, "to_node_id");
            push_text(&mut required, "relation");
            let sc = ArgumentSchema { properties, required };
            assert(schema_view(sc).0 =~= free_properties(
                seq!["from_node_id"@, "to_node_id"@, "relation"@],
            ));
            assert(schema_view(sc).1 =~= seq!["from_node_id"@, "to_node_id"@, "relation"@]);
            ("relate_nodes", "Create a graph edge between two nodes.", Some(sc))
        },
    };
    assert(strings_view(params@) =~= tool_params(t));
    let gives = match t {
        ToolName::SearchGraph => "list",
        _ => "dict",
    };
    ToolSpec {
        tool: t,
        name: name.to_string(),
        description: description.to_string(),
        params,
        returns: gives.to_string(),
        schema,
    }
}

/// The tools offered to the model, each once, in a fixed order.
pub fn tool_definitions() -> (r: Vec<ToolSpec>)
    ensures
        r@.len() == 9,
        forall|i: int| 0 <= i < 9 ==> offers(#[trigger] r@[i], offered_tool(i)),
{
    let mut r: Vec<ToolSpec> = Vec::new();
    r.push(tool_spec(ToolName::ListAssets));
    r.push(tool_spec(ToolName::ReadAsset));
    r.push(tool_spec(ToolName::FetchUrl));
    r.push(tool_spec(ToolName::SearchWeb));
    r.push(tool_spec(ToolName::SearchGraph));
    r.push(tool_spec(ToolName::GetNode));
    r.push(tool_spec(ToolName::CreateNode));
    r.push(tool_spec(ToolName::UpdateNode));
    r.push(tool_spec(ToolName::RelateNodes));
    r
}

/// Each tool is offered exactly once.
pub proof fn lemma_each_tool_offered_once(t: ToolName)
    ensures
        exists|i: int| 0 <= i < 9 && #[trigger] offered_tool(i) == t,
        forall|i: int, j: int| 0 <= i < j < 9 ==> #[trigger] offered_tool(i) != #[trigger] offered_tool(j),
{
    let i: int = match t {
        ToolName::ListAssets => 0,
        ToolName::ReadAsset => 1,
        ToolName::FetchUrl => 2,
        ToolName::SearchWeb => 3,
        ToolName::SearchGraph => 4,
        ToolName::GetNode => 5,
        ToolName::CreateNode => 6,
        ToolName::UpdateNode => 7,
        ToolName::RelateNodes => 8,
    };
    assert(offered_tool(i) == t);
}

/// Distinct tools are offered under distinct names, so a call by the name a
/// tool is offered under runs that tool.
pub proof fn lemma_tool_names_distinct(a: ToolName, b: ToolName)
    ensures
        tool_name_text(a) == tool_name_text(b) ==> a == b,
{
    reveal_strlit("list_assets");
    reveal_strlit("read_asset");
    reveal_strlit("fetch_url");
    reveal_strlit("search_web");
    reveal_strlit("search_graph");
    reveal_strlit("get_node");
    reveal_strlit("create_node");
    reveal_strlit("update_node");
    reveal_strlit("relate_nodes");
    if tool_name_text(a) == tool_name_text(b) && a != b {
        let x = tool_name_text(a);
        let y = tool_name_text(b);
        assert(x.len() == y.len());
        assert(x[0] == y[0]);
        assert(x[1] == y[1]);
        assert(x[3] == y[3]);
        assert(x[7] == y[7]);
    }
}

/// The node kinds the create tool offers are exactly the kinds a node may be
/// created with: each offered kind is accepted, and each accepted kind
/// normalises to an offered one.
pub proof fn lemma_offered_kinds_allowed(kind: Seq<char>)
    ensures
        offered_kinds().contains(kind) ==> is_allowed_kind(kind),
        is_allowed_kind(kind) ==> offered_kinds().contains(normalize_spec(kind)->0),
{
    reveal_strlit("document");
    reveal_strlit("image");
    reveal_strlit("url");
    reveal_strlit("topic");
    lemma_normalize_fixes_slug("document"@);
    lemma_normalize_fixes_slug("image"@);
    lemma_normalize_fixes_slug("url"@);
    lemma_normalize_fixes_slug("topic"@);
    if is_allowed_kind(kind) {
        let k = normalize_spec(kind)->0;
        if k == "document"@ {
            assert(offered_kinds()[0] == k);
        } else if k == "image"@ {
            assert(offered_kinds()[1] == k);
        } else if k == "url"@ {
            assert(offered_kinds()[2] == k);
        } else {
            assert(offered_kinds()[3] == k);
        }
    }
}

/// Every required argument of a tool is one of its properties.
pub proof fn lemma_required_are_properties(t: ToolName, name: Seq<char>)
    requires
        tool_schema(t) is Some,
        (tool_schema(t)->0).1.contains(name),
    ensures
        exists|i: int|
            0 <= i < (tool_schema(t)->0).0.len() && (#[trigger] (tool_schema(t)->0).0[i]).0 == name,
{
    let (props, required) = tool_schema(t)->0;
    let k = choose|k: int| 0 <= k < required.len() && required[k] == name;
    match t {
        ToolName::CreateNode => {
            assert(props[k].0 == name);
        },
        ToolName::UpdateNode => {
            assert(props[0].0 == name);
        },
        ToolName::RelateNodes => {
            assert(props[k].0 == name);
        },
        _ => {},
    }
}

/// Where the system prompt goes: it replaces the first message when that is a
/// system message, and is put in front otherwise.
#[derive(Debug, Clone, Copy, PartialEq, Eq)]
pub enum PromptPlacement {
    ReplaceFirst,
    InsertFirst,
}

pub fn system_prompt_placement(first_is_system: Option<bool>) -> (r: PromptPlacement)
    ensures
        r == (if first_is_system == Some(true) {
            PromptPlacement::ReplaceFirst
        } else {
            PromptPlacement::InsertFirst
        }),
{
    match first_is_system {
        Some(true) => PromptPlacement::ReplaceFirst,
        _ => PromptPlacement::InsertFirst,
    }
}

} // verus!


verus! {

/// A part of a transcript message: its identifier and what it holds.
pub struct TranscriptPart<P> {
    pub id: String,
    pub body: P,
}

/// A transcript message: its identifier, whether it is a system message,
/// what else it carries, and its parts.
pub struct TranscriptMessage<M, P> {
    pub id: String,
    pub system: bool,
    pub meta: M,
    pub parts: Vec<TranscriptPart<P>>,
}

/// A message without its identifiers.
pub open spec fn message_shape<M, P>(m: TranscriptMessage<M, P>) -> (bool, M, Seq<P>) {
    (m.system, m.meta, m.parts@.map_values(|p: TranscriptPart<P>| p.body))
}

/// A transcript without its identifiers.
pub open spec fn transcript_shape<M, P>(ms: Seq<TranscriptMessage<M, P>>) -> Seq<(bool, M, Seq<P>)> {
    ms.map_values(|m: TranscriptMessage<M, P>| message_shape(m))
}

/// The transcript with the system prompt as its first message: a leading
/// system message keeps its place and gets the prompt as its only part;
/// otherwise a system message holding the prompt is put in front.
pub open spec fn prompt_placed<M, P>(shape: Seq<(bool, M, Seq<P>)>, meta: M, prompt: P) -> Seq<(bool, M, Seq<P>)> {
    if shape.len() > 0 && shape[0].0 {
        shape.update(0, (true, shape[0].1, seq![prompt]))
    } else {
        seq![(true, meta, seq![prompt])] + shape
    }
}

/// Every message and every part carries the identifier of its position.
pub open spec fn numbered<M, P>(ms: Seq<TranscriptMessage<M, P>>) -> bool {
    forall|i: int| 0 <= i < ms.len() ==> {
        &&& (#[trigger] ms[i]).id@ == message_id_spec(i as nat)
        &&& forall|j: int| 0 <= j < ms[i].parts@.len() ==> (#[trigger] ms[i].parts@[j]).id@
            == part_id_spec(i as nat, j as nat)
    }
}

/// Puts the system prompt first in the transcript and numbers every message
/// and part by its position.
pub fn sync_system_prompt<M, P>(messages: Vec<TranscriptMessage<M, P>>, prompt_meta: M, prompt: P) -> (r: Vec<TranscriptMessage<M, P>>)
    ensures
        transcript_shape(r@) == prompt_placed(transcript_shape(messages@), prompt_meta, prompt),
        numbered(r@),
{
    let ghost target = prompt_placed(transcript_shape(messages@), prompt_meta, prompt);
    let mut ms = messages;
    let first_is_system = if ms.len() > 0 {
        Some(ms[0].system)
    } else {
        None
    };
    let mut parts: Vec<TranscriptPart<P>> = Vec::new();
    parts.push(TranscriptPart { id: String::new(), body: prompt });
    assert(parts@.map_values(|p: TranscriptPart<P>| p.body) =~= seq![prompt]);
    match system_prompt_placement(first_is_system) {
        PromptPlacement::ReplaceFirst => {
            let ghost before = ms@;
            ms[0].parts = parts;
            assert(transcript_shape(ms@) =~= target) by {
                assert forall|k: int| 0 <= k < ms@.len() implies #[trigger] transcript_shape(ms@)[k] == target[k] by {
                    if k > 0 {
                        assert(ms@[k] == before[k]);
                    }
                }
            }
        },
        PromptPlacement::InsertFirst => {
            let ghost before = ms@;
            ms.insert(0, TranscriptMessage { id: String::new(), system: true, meta: prompt_meta, parts });
            assert(transcript_shape(ms@) =~= target) by {
                assert forall|k: int| 0 <= k < ms@.len() implies #[trigger] transcript_shape(ms@)[k] == target[k] by {
                    if k > 0 {
                        assert(ms@[k] == before[k - 1]);
                    }
                }
            }
        },
    }
    let mut i: usize = 0;
    while i < ms.len()
        invariant
            i <= ms@.len(),
            transcript_shape(ms@) == target,
            forall|k: int| 0 <= k < i ==> {
                &&& (#[trigger] ms@[k]).id@ == message_id_spec(k as nat)
                &&& forall|j: int| 0 <= j < ms@[k].parts@.len() ==> (#[trigger] ms@[k].parts@[j]).id@
                    == part_id_spec(k as nat, j as nat)
            },
        decreases ms@.len() - i,
    {
        let ghost start = ms@;
        ms[i].id = message_id(i);
        let mut j: usize = 0;
        while j < ms[i].parts.len()
            invariant
                i < ms@.len(),
                ms@.len() == start.len(),
                j <= ms@[i as int].parts@.len(),
                ms@[i as int].id@ == message_id_spec(i as nat),
                ms@[i as int].system == start[i as int].system,
                ms@[i as int].meta == start[i as int].meta,
                ms@[i as int].parts@.map_values(|p: TranscriptPart<P>| p.body)
                    == start[i as int].parts@.map_values(|p: TranscriptPart<P>| p.body),
                forall|k: int| 0 <= k < ms@.len() && k != i ==> ms@[k] == start[k],
                forall|m: int| 0 <= m < j ==> (#[trigger] ms@[i as int].parts@[m]).id@ == part_id_spec(
                    i as nat,
                    m as nat,
                ),
            decreases ms@[i as int].parts@.len() - j,
        {
            let ghost inner = ms@[i as int].parts@;
            ms[i].parts[j].id = part_id(i, j);
            assert(ms@[i as int].parts@.map_values(|p: TranscriptPart<P>| p.body) =~= inner.map_values(
                |p: TranscriptPart<P>| p.body,
            ));
            j = j + 1;
        }
        assert(transcript_shape(ms@) =~= transcript_shape(start)) by {
            assert forall|k: int| 0 <= k < ms@.len() implies #[trigger] transcript_shape(ms@)[k]
                == transcript_shape(start)[k] by {
                if k != i {
                    assert(ms@[k] == start[k]);
                }
            }
        }
        assert forall|k: int| 0 <= k < i + 1 implies {
            &&& (#[trigger] ms@[k]).id@ == message_id_spec(k as nat)
            &&& forall|j: int| 0 <= j < ms@[k].parts@.len() ==> (#[trigger] ms@[k].parts@[j]).id@
                == part_id_spec(k as nat, j as nat)
        } by {
            if k < i {
                assert(ms@[k] == start[k]);
            }
        }
        i = i + 1;
    }
    ms
}

/// Placing the prompt a second time changes nothing.
pub proof fn lemma_prompt_placed_idempotent<M, P>(shape: Seq<(bool, M, Seq<P>)>, meta: M, prompt: P)
    ensures
        prompt_placed(prompt_placed(shape, meta, prompt), meta, prompt) == prompt_placed(shape, meta, prompt),
{
    let once = prompt_placed(shape, meta, prompt);
    assert(once[0].0);
    assert(once.update(0, (true, once[0].1, seq![prompt])) =~= once);
}

/// Two numbered transcripts of the same shape carry the same identifiers,
/// so syncing the system prompt a second time changes nothing.
pub proof fn lemma_sync_twice_unchanged<M, P>(a: Seq<TranscriptMessage<M, P>>, b: Seq<TranscriptMessage<M, P>>)
    requires
        numbered(a),
        numbered(b),
        transcript_shape(a) == transcript_shape(b),
    ensures
        a.len() == b.len(),
        forall|i: int| 0 <= i < a.len() ==> {
            &&& (#[trigger] a[i]).id@ == b[i].id@
            &&& message_shape(a[i]) == message_shape(b[i])
            &&& a[i].parts@.len() == b[i].parts@.len()
            &&& forall|j: int| 0 <= j < a[i].parts@.len() ==> (#[trigger] a[i].parts@[j]).id@
                == b[i].parts@[j].id@
        },
{
    assert(transcript_shape(a).len() == a.len() && transcript_shape(b).len() == b.len());
    assert forall|i: int| 0 <= i < a.len() implies {
        &&& (#[trigger] a[i]).id@ == b[i].id@
        &&& message_shape(a[i]) == message_shape(b[i])
        &&& a[i].parts@.len() == b[i].parts@.len()
        &&& forall|j: int| 0 <= j < a[i].parts@.len() ==> (#[trigger] a[i].parts@[j]).id@
            == b[i].parts@[j].id@
    } by {
        assert(transcript_shape(a)[i] == message_shape(a[i]));
        assert(transcript_shape(b)[i] == message_shape(b[i]));
        assert(a[i].parts@.map_values(|p: TranscriptPart<P>| p.body).len() == a[i].parts@.len());
        assert(b[i].parts@.map_values(|p: TranscriptPart<P>| p.body).len() == b[i].parts@.len());
        assert forall|j: int| 0 <= j < a[i].parts@.len() implies (#[trigger] a[i].parts@[j]).id@
            == b[i].parts@[j].id@ by {
            assert(a[i].parts@[j].id@ == part_id_spec(i as nat, j as nat));
            assert(b[i].parts@[j].id@ == part_id_spec(i as nat, j as nat));
        }
    }
}

} // verus!
