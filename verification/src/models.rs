use vstd::prelude::*;

use crate::config::opt_view;
use crate::numbers::{decimal, format_u64};
use crate::text::{push_str, string_of};

verus! {

pub const KIND_DOCUMENT: &'static str = "document";
pub const KIND_IMAGE: &'static str = "image";
pub const KIND_URL: &'static str = "url";
pub const KIND_TOPIC: &'static str = "topic";

pub const SOURCE_UPLOAD: &'static str = "upload";
pub const SOURCE_URL: &'static str = "url";

#[verifier::external_type_specification]
#[verifier::external_body]
pub struct ExJsonValue(serde_json::Value);

/// The key part of a record identifier.
pub enum RecordIdKey {
    Number(i64),
    String(String),
    /// A UUID key, by its 128-bit value.
    Uuid(u128),
    /// Any other key, by its SurrealQL text.
    Other(String),
}

/// A record identifier `table:key`.
pub struct RecordId {
    pub table: String,
    pub key: RecordIdKey,
}

/// The decimal text of an integer (`i64::to_string`).
pub open spec fn int_text(n: i64) -> Seq<char> {
    if n < 0 {
        seq!['-'] + decimal((-(n as int)) as nat)
    } else {
        decimal(n as nat)
    }
}

/// Formats an integer in decimal.
pub fn format_i64(n: i64) -> (r: String)
    ensures
        r@ == int_text(n),
{
    if n < 0 {
        let magnitude: u64 = if n == i64::MIN {
            9223372036854775808u64
        } else {
            (-n) as u64
        };
        let digits = format_u64(magnitude);
        let mut v: Vec<char> = Vec::new();
        v.push('-');
        push_str(&mut v, digits.as_str());
        string_of(v.as_slice())
    } else {
        format_u64(n as u64)
    }
}

/// A lower-case hexadecimal digit.
pub open spec fn hex_digit(v: int) -> char {
    if v < 10 {
        (48 + v) as char
    } else {
        (87 + v) as char
    }
}

/// The 32 hexadecimal digits of a 128-bit value, most significant first.
pub open spec fn hex_digits_u128(value: u128) -> Seq<char> {
    Seq::new(
        32,
        |i: int| hex_digit((value as int / vstd::arithmetic::power::pow(16, (31 - i) as nat)) % 16),
    )
}

/// The hyphenated lower-case text of a UUID: its 32 hexadecimal digits in
/// groups of 8, 4, 4, 4 and 12.
pub open spec fn uuid_text(value: u128) -> Seq<char> {
    let h = hex_digits_u128(value);
    h.subrange(0, 8) + "-"@ + h.subrange(8, 12) + "-"@ + h.subrange(12, 16) + "-"@ + h.subrange(
        16,
        20,
    ) + "-"@ + h.subrange(20, 32)
}

/// Formats `uuid::Uuid::from_u128(value)` with `to_string`, which writes the
/// hyphenated lower-case form.
#[verifier::external_body]
fn uuid_string(value: u128) -> (r: String)
    ensures
        r@ == uuid_text(value),
{
    uuid::Uuid::from_u128(value).to_string()
}

/// The text of a record key.
pub open spec fn key_text(key: RecordIdKey) -> Seq<char> {
    match key {
        RecordIdKey::Number(n) => int_text(n),
        RecordIdKey::String(s) => s@,
        RecordIdKey::Uuid(u) => uuid_text(u),
        RecordIdKey::Other(s) => s@,
    }
}

/// The text `table:key` of a record identifier.
pub open spec fn record_text(id: RecordId) -> Seq<char> {
    id.table@ + ":"@ + key_text(id.key)
}

/// The text of a record key: numbers in decimal, strings as they are, UUIDs
/// hyphenated, other keys as SurrealQL.
pub fn record_key_string(key: &RecordIdKey) -> (r: String)
    ensures
        r@ == key_text(*key),
{
    match key {
        RecordIdKey::Number(value) => format_i64(*value),
        RecordIdKey::String(value) => value.clone(),
        RecordIdKey::Uuid(value) => uuid_string(*value),
        RecordIdKey::Other(value) => value.clone(),
    }
}

/// The text `table:key` of a record identifier.
pub fn record_id_string(record_id: &RecordId) -> (r: String)
    ensures
        r@ == record_text(*record_id),
{
    let mut v: Vec<char> = Vec::new();
    push_str(&mut v, record_id.table.as_str());
    push_str(&mut v, ":");
    push_str(&mut v, record_key_string(&record_id.key).as_str());
    string_of(v.as_slice())
}

/// The RFC 3339 text of an instant given in nanoseconds since the Unix epoch.
pub uninterp spec fn rfc3339_text(nanos: i64) -> Seq<char>;

/// Formats `chrono::DateTime::from_timestamp_nanos(nanos)` with `to_rfc3339`.
/// Claimed: the text depends on the instant alone, named `rfc3339_text`.
#[verifier::external_body]
fn rfc3339(nanos: i64) -> (r: String)
    ensures
        r@ == rfc3339_text(nanos),
{
    chrono::DateTime::from_timestamp_nanos(nanos).to_rfc3339()
}

/// An instant, in nanoseconds since the Unix epoch (UTC).
pub type Timestamp = i64;

pub struct StoredAuthUser {
    pub id: RecordId,
    pub username: String,
    pub password_hash: String,
    pub created_at: Timestamp,
    pub updated_at: Timestamp,
}

pub struct StoredAuthSession {
    pub id: RecordId,
    pub user_id: String,
    pub token: String,
    pub expires_at: Timestamp,
    pub created_at: Timestamp,
    pub last_seen_at: Timestamp,
}

pub struct StoredModelSettings {
    pub id: RecordId,
    pub base_url: String,
    pub api_key: Option<String>,
    pub model: String,
    pub updated_at: Timestamp,
}

pub struct StoredAgentSession {
    pub id: RecordId,
    pub state: serde_json::Value,
    pub updated_at: Timestamp,
}

pub struct StoredAsset {
    pub id: RecordId,
    pub kind: String,
    pub source_kind: String,
    pub label: String,
    pub filename: Option<String>,
    pub source_url: Option<String>,
    pub content_type: String,
    pub byte_size: i64,
    pub storage_key: String,
    pub extraction_status: String,
    pub extracted_text: Option<String>,
    pub image_description: Option<String>,
    pub metadata: serde_json::Value,
    pub created_at: Timestamp,
    pub updated_at: Timestamp,
}

pub struct StoredImportJob {
    pub id: RecordId,
    pub asset_id: String,
    pub node_id: String,
    pub headline: String,
    pub detail: Option<String>,
    pub status: String,
    pub error: Option<String>,
    pub created_at: Timestamp,
    pub updated_at: Timestamp,
}

pub struct StoredGraphNode {
    pub id: RecordId,
    pub kind: String,
    pub node_id: String,
    pub label: String,
    pub summary: Option<String>,
    pub content: Option<String>,
    pub search_text: Option<String>,
    pub source: Option<String>,
    pub asset_id: Option<RecordId>,
    pub metadata: serde_json::Value,
    pub created_at: Timestamp,
    pub updated_at: Timestamp,
}

pub struct StoredGraphEdge {
    pub id: RecordId,
    pub relation: String,
    pub in_record: RecordId,
    pub out: RecordId,
    pub metadata: serde_json::Value,
    pub created_at: Timestamp,
}

pub struct StoredChatMessage {
    pub id: RecordId,
    pub role: String,
    pub content: String,
    pub tool_name: Option<String>,
    pub meta: serde_json::Value,
    pub created_at: Timestamp,
}

pub struct CountRow {
    pub count: i64,
}

pub struct SessionDto {
    pub username: String,
}

pub struct ModelSettingsDto {
    pub base_url: String,
    pub model: String,
    pub api_key_present: bool,
    pub updated_at: String,
}

pub struct AssetDto {
    pub id: String,
    pub kind: String,
    pub source_kind: String,
    pub label: String,
    pub filename: Option<String>,
    pub source_url: Option<String>,
    pub content_type: String,
    pub byte_size: i64,
    pub extraction_status: String,
    pub created_at: String,
    pub updated_at: String,
}

pub struct ImportJobDto {
    pub id: String,
    pub asset_id: String,
    pub node_id: String,
    pub headline: String,
    pub detail: Option<String>,
    pub status: String,
    pub error: Option<String>,
    pub created_at: String,
    pub updated_at: String,
}

pub struct GraphNodeDto {
    pub id: String,
    pub kind: String,
    pub node_id: String,
    pub label: String,
    pub summary: Option<String>,
    pub content: Option<String>,
    pub search_text: Option<String>,
    pub source: Option<String>,
    pub asset_id: Option<String>,
    pub metadata: serde_json::Value,
    pub created_at: String,
    pub updated_at: String,
}

pub struct GraphEdgeDto {
    pub id: String,
    pub relation: String,
    pub in_record: String,
    pub out: String,
    pub metadata: serde_json::Value,
    pub created_at: String,
}

pub struct ChatMessageDto {
    pub id: String,
    pub role: String,
    pub content: String,
    pub tool_name: Option<String>,
    pub meta: serde_json::Value,
    pub created_at: String,
}

pub struct WorkspaceSnapshotDto {
    pub session: SessionDto,
    pub settings: ModelSettingsDto,
    pub assets: Vec<AssetDto>,
    pub import_jobs: Vec<ImportJobDto>,
    pub chat: Vec<ChatMessageDto>,
    pub graph: GraphDto,
}

pub struct GraphDto {
    pub nodes: Vec<GraphNodeDto>,
    pub edges: Vec<GraphEdgeDto>,
}

pub struct NodeDetailDto {
    pub node: GraphNodeDto,
    pub incoming: Vec<GraphEdgeDto>,
    pub outgoing: Vec<GraphEdgeDto>,
    pub asset: Option<AssetDto>,
}

pub struct LoginRequest {
    pub password: String,
}

pub struct UpdateModelSettingsRequest {
    pub base_url: String,
    pub model: String,
    pub api_key: Option<String>,
    pub clear_api_key: bool,
}

pub struct UrlImportRequest {
    pub url: String,
}

pub struct ChatSendRequest {
    pub content: String,
}

pub struct ServerEvent {
    pub kind: String,
    pub entity: String,
    pub payload: serde_json::Value,
}

impl ModelSettingsDto {
    /// Settings as shown to the browser: the key itself is never sent, only
    /// whether one is set.
    pub fn from(value: StoredModelSettings) -> (r: ModelSettingsDto)
        ensures
            r.base_url@ == value.base_url@,
            r.model@ == value.model@,
            r.api_key_present == value.api_key is Some,
            r.updated_at@ == rfc3339_text(value.updated_at),
    {
        ModelSettingsDto {
            base_url: value.base_url,
            model: value.model,
            api_key_present: value.api_key.is_some(),
            updated_at: rfc3339(value.updated_at),
        }
    }
}

impl AssetDto {
    pub fn from(value: StoredAsset) -> (r: AssetDto)
        ensures
            r.id@ == record_text(value.id),
            r.kind@ == value.kind@,
            r.source_kind@ == value.source_kind@,
            r.label@ == value.label@,
            opt_view(r.filename) == opt_view(value.filename),
            opt_view(r.source_url) == opt_view(value.source_url),
            r.content_type@ == value.content_type@,
            r.byte_size == value.byte_size,
            r.extraction_status@ == value.extraction_status@,
            r.created_at@ == rfc3339_text(value.created_at),
            r.updated_at@ == rfc3339_text(value.updated_at),
    {
        let id = record_id_string(&value.id);
        AssetDto {
            id,
            kind: value.kind,
            source_kind: value.source_kind,
            label: value.label,
            filename: value.filename,
            source_url: value.source_url,
            content_type: value.content_type,
            byte_size: value.byte_size,
            extraction_status: value.extraction_status,
            created_at: rfc3339(value.created_at),
            updated_at: rfc3339(value.updated_at),
        }
    }
}

impl ImportJobDto {
    pub fn from(value: StoredImportJob) -> (r: ImportJobDto)
        ensures
            r.id@ == record_text(value.id),
            r.asset_id@ == value.asset_id@,
            r.node_id@ == value.node_id@,
            r.headline@ == value.headline@,
            opt_view(r.detail) == opt_view(value.detail),
            r.status@ == value.status@,
            opt_view(r.error) == opt_view(value.error),
            r.created_at@ == rfc3339_text(value.created_at),
            r.updated_at@ == rfc3339_text(value.updated_at),
    {
        let id = record_id_string(&value.id);
        ImportJobDto {
            id,
            asset_id: value.asset_id,
            node_id: value.node_id,
            headline: value.headline,
            detail: value.detail,
            status: value.status,
            error: value.error,
            created_at: rfc3339(value.created_at),
            updated_at: rfc3339(value.updated_at),
        }
    }
}

impl GraphNodeDto {
    pub fn from(value: StoredGraphNode) -> (r: GraphNodeDto)
        ensures
            r.id@ == record_text(value.id),
            r.kind@ == value.kind@,
            r.node_id@ == value.node_id@,
            r.label@ == value.label@,
            opt_view(r.summary) == opt_view(value.summary),
            opt_view(r.content) == opt_view(value.content),
            opt_view(r.search_text) == opt_view(value.search_text),
            opt_view(r.source) == opt_view(value.source),
            opt_view(r.asset_id) == (match value.asset_id {
                Some(a) => Some(record_text(a)),
                None => None,
            }),
            r.metadata == value.metadata,
            r.created_at@ == rfc3339_text(value.created_at),
            r.updated_at@ == rfc3339_text(value.updated_at),
    {
        let id = record_id_string(&value.id);
        let asset_id = match &value.asset_id {
            Some(a) => Some(record_id_string(a)),
            None => None,
        };
        GraphNodeDto {
            id,
            kind: value.kind,
            node_id: value.node_id,
            label: value.label,
            summary: value.summary,
            content: value.content,
            search_text: value.search_text,
            source: value.source,
            asset_id,
            metadata: value.metadata,
            created_at: rfc3339(value.created_at),
            updated_at: rfc3339(value.updated_at),
        }
    }
}

impl GraphEdgeDto {
    pub fn from(value: StoredGraphEdge) -> (r: GraphEdgeDto)
        ensures
            r.id@ == record_text(value.id),
            r.relation@ == value.relation@,
            r.in_record@ == record_text(value.in_record),
            r.out@ == record_text(value.out),
            r.metadata == value.metadata,
            r.created_at@ == rfc3339_text(value.created_at),
    {
        let id = record_id_string(&value.id);
        let in_record = record_id_string(&value.in_record);
        let out = record_id_string(&value.out);
        GraphEdgeDto {
            id,
            relation: value.relation,
            in_record,
            out,
            metadata: value.metadata,
            created_at: rfc3339(value.created_at),
        }
    }
}

impl ChatMessageDto {
    pub fn from(value: StoredChatMessage) -> (r: ChatMessageDto)
        ensures
            r.id@ == record_text(value.id),
            r.role@ == value.role@,
            r.content@ == value.content@,
            opt_view(r.tool_name) == opt_view(value.tool_name),
            r.meta == value.meta,
            r.created_at@ == rfc3339_text(value.created_at),
    {
        let id = record_id_string(&value.id);
        ChatMessageDto {
            id,
            role: value.role,
            content: value.content,
            tool_name: value.tool_name,
            meta: value.meta,
            created_at: rfc3339(value.created_at),
        }
    }
}

} // verus!
