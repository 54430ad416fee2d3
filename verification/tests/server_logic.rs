use kitchensink::agent::{
    assistant_text, build_policy, check_fetch_url, optional_str, parse_tool_name, render_tool_result,
    renumbered_ids, require_str, sync_system_prompt, system_prompt_placement, tool_definitions,
    url_preview, web_search_key, TranscriptMessage, TranscriptPart, PromptPlacement, ToolName, ToolOutput,
};
use kitchensink::config::{dev_password_fallback, env_string, opt_env, Config, ConfigError, EnvVars};
use kitchensink::db::{admin_bootstrap, surreal_auth, AdminBootstrap, SurrealAuth};
use kitchensink::model::{
    completion_url, extract_text_from_content, extract_text_from_response_message,
    image_description_from_response, image_description_request, MessageContent, ModelError,
    ResponseMessage,
};
use kitchensink::models::{
    record_id_string, record_key_string, AssetDto, CountRow, GraphEdgeDto, ModelSettingsDto,
    RecordId, RecordIdKey, StoredAsset, StoredAuthSession, StoredGraphEdge, StoredGraphNode,
    StoredModelSettings, UpdateModelSettingsRequest,
};
use kitchensink::extract::PdfReading;
use kitchensink::numbers::{format_u64, parse_usize};
use kitchensink::routes::{
    allocation_base, allocation_step, apply_model_defaults, settings_update, AllocationStep, assert_origin, asset_text, authenticate_session,
    chat_send_check, check_import_url, ensure_allowed_kind, external_id_key, image_texts,
    import_kind, import_outcome, import_plan, merged_node_fields, new_node_fields, next_api_key,
    node_id_candidate, reference_targets, remote_content_type, search_query, session_expires_at,
    settings_or_missing, should_clear_turn, take_chars, upload_content_type, upload_label,
    url_import_label, value_record_id_string, value_record_key_string, JsonValue, OriginHeader,
};
use kitchensink::storage::{storage_choice, StorageChoice};

fn vars(pairs: &[(&str, &str)]) -> EnvVars {
    pairs.iter().map(|(k, v)| (k.to_string(), v.to_string())).collect()
}

fn config() -> Config {
    match Config::from_env(&vars(&[("SURREALDB_URL", "ws://db"), ("PUBLIC_BASE_URL", "https://kb.example.com/")]), true) {
        Ok(c) => c,
        Err(_) => panic!("configuration refused"),
    }
}

fn rid(table: &str, key: RecordIdKey) -> RecordId {
    RecordId { table: table.to_string(), key }
}

fn settings(base: &str, model: &str, key: Option<&str>) -> StoredModelSettings {
    StoredModelSettings {
        id: rid("app_setting", RecordIdKey::String("model".to_string())),
        base_url: base.to_string(),
        api_key: key.map(|k| k.to_string()),
        model: model.to_string(),
        updated_at: 0,
    }
}

fn asset(kind: &str, label: &str, filename: Option<&str>, source_url: Option<&str>) -> StoredAsset {
    StoredAsset {
        id: rid("asset", RecordIdKey::String("a1".to_string())),
        kind: kind.to_string(),
        source_kind: "upload".to_string(),
        label: label.to_string(),
        filename: filename.map(|f| f.to_string()),
        source_url: source_url.map(|u| u.to_string()),
        content_type: "text/plain".to_string(),
        byte_size: 3,
        storage_key: "upload/a1.txt".to_string(),
        extraction_status: "pending".to_string(),
        extracted_text: None,
        image_description: None,
        metadata: serde_json::Value::Null,
        created_at: 0,
        updated_at: 1_000_000_000,
    }
}

#[test]
fn config_requires_database_url() {
    assert!(matches!(Config::from_env(&vars(&[]), true), Err(ConfigError::MissingSurrealUrl)));
    assert!(matches!(Config::from_env(&vars(&[("SURREALDB_URL", "   ")]), true), Err(ConfigError::MissingSurrealUrl)));
}

#[test]
fn config_rejects_bad_token_limit() {
    let v = vars(&[("SURREALDB_URL", "ws://db"), ("MODEL_MAX_CONTEXT_TOKENS", "12x")]);
    assert!(matches!(Config::from_env(&v, true), Err(ConfigError::InvalidMaxContextTokens)));
    let v = vars(&[("SURREALDB_URL", "ws://db"), ("MODEL_MAX_CONTEXT_TOKENS", "-5")]);
    assert!(matches!(Config::from_env(&v, true), Err(ConfigError::InvalidMaxContextTokens)));
}

#[test]
fn config_defaults() {
    let c = config();
    assert_eq!(c.bind_addr, "0.0.0.0:8080");
    assert_eq!(c.app_name, "Kitchensink");
    assert_eq!(c.session_cookie_name, "kitchensink_session");
    assert_eq!(c.admin_username, "operator");
    assert_eq!(c.admin_password, Some("dev-password".to_string()));
    assert_eq!(c.surreal_url, "ws://db");
    assert_eq!(c.surreal_namespace, "main");
    assert_eq!(c.default_model_base_url, "https://openrouter.ai/api/v1");
    assert_eq!(c.default_model_name, "openai/gpt-5.4");
    assert_eq!(c.default_model_max_context_tokens, 120000);
    assert_eq!(c.aws_region, "auto");
    assert_eq!(c.local_asset_dir, ".data/assets");
    assert_eq!(c.frontend_dir, "web/dist");
}

#[test]
fn config_reads_trimmed_values() {
    let v = vars(&[
        ("SURREALDB_URL", " ws://db "),
        ("OPENROUTER_BASE_URL", "https://router"),
        ("OPENROUTER_API_KEY", "k2"),
        ("MODEL_MAX_CONTEXT_TOKENS", "+42"),
        ("APP_ENV", "Production"),
        ("TAVILY_API_KEY", "  "),
    ]);
    let c = match Config::from_env(&v, true) {
        Ok(c) => c,
        Err(_) => panic!("refused"),
    };
    assert_eq!(c.surreal_url, "ws://db");
    assert_eq!(c.default_model_base_url, "https://router");
    assert_eq!(c.default_model_api_key, Some("k2".to_string()));
    assert_eq!(c.default_model_max_context_tokens, 42);
    assert_eq!(c.admin_password, None);
    assert_eq!(c.tavily_api_key, None);
}

#[test]
fn env_helpers() {
    let v = vars(&[("A", " x "), ("B", ""), ("A", "second")]);
    assert_eq!(opt_env(&v, "A"), Some("x".to_string()));
    assert_eq!(opt_env(&v, "B"), None);
    assert_eq!(env_string(&v, "C", "dflt"), "dflt");
    assert_eq!(dev_password_fallback(&vars(&[("APP_ENV", "staging")])), Some("dev-password".to_string()));
    assert_eq!(dev_password_fallback(&vars(&[("APP_ENV", "PRODUCTION")])), None);
}

#[test]
fn numbers_round_trip() {
    assert_eq!(parse_usize("0"), Some(0));
    assert_eq!(parse_usize("+7"), Some(7));
    assert_eq!(parse_usize("+"), None);
    assert_eq!(parse_usize(""), None);
    assert_eq!(parse_usize("99999999999999999999999"), None);
    assert_eq!(format_u64(0), "0");
    assert_eq!(format_u64(1234567890), "1234567890");
    assert_eq!(format_u64(u64::MAX), u64::MAX.to_string());
}

#[test]
fn secure_cookies_and_origins() {
    let c = config();
    assert!(c.secure_cookies());
    assert_eq!(
        c.allowed_origins(),
        vec![
            "http://127.0.0.1:5173".to_string(),
            "http://127.0.0.1:8080".to_string(),
            "http://localhost:5173".to_string(),
            "http://localhost:8080".to_string(),
            "https://kb.example.com".to_string(),
        ]
    );
    let local = match Config::from_env(&vars(&[("SURREALDB_URL", "ws://db")]), true) {
        Ok(c) => c,
        Err(_) => panic!("refused"),
    };
    assert!(!local.secure_cookies());
    assert_eq!(local.allowed_origins().len(), 4);
}

#[test]
fn origin_checks() {
    let c = config();
    assert!(assert_origin(&c, &OriginHeader::Absent).is_ok());
    assert!(assert_origin(&c, &OriginHeader::Value("https://kb.example.com".to_string())).is_ok());
    let e = assert_origin(&c, &OriginHeader::Value("https://evil.example".to_string())).err().unwrap();
    assert_eq!(e.status, 403);
    assert_eq!(e.message, "origin https://evil.example is not allowed");
    let e = assert_origin(&c, &OriginHeader::Invalid).err().unwrap();
    assert_eq!(e.status, 400);
    assert_eq!(e.message, "invalid origin header");
}

#[test]
fn record_ids_as_text() {
    assert_eq!(record_id_string(&rid("tbl", RecordIdKey::Number(-42))), "tbl:-42");
    assert_eq!(record_id_string(&rid("tbl", RecordIdKey::Number(i64::MIN))), format!("tbl:{}", i64::MIN));
    assert_eq!(record_id_string(&rid("kg_node", RecordIdKey::String("topic--a".to_string()))), "kg_node:topic--a");
    assert_eq!(
        record_key_string(&RecordIdKey::Uuid(0x67e55044_10b1_426f_9247_bb680e5fe0c8)),
        "67e55044-10b1-426f-9247-bb680e5fe0c8"
    );
    assert_eq!(record_key_string(&RecordIdKey::Other("⟨x y⟩".to_string())), "⟨x y⟩");
}

#[test]
fn dto_conversions() {
    let dto = AssetDto::from(asset("document", "Doc", Some("d.txt"), None));
    assert_eq!(dto.id, "asset:a1");
    assert_eq!(dto.created_at, "1970-01-01T00:00:00+00:00");
    assert_eq!(dto.updated_at, "1970-01-01T00:00:01+00:00");
    assert_eq!(dto.filename, Some("d.txt".to_string()));
    let m = ModelSettingsDto::from(settings("b", "m", Some("k")));
    assert!(m.api_key_present);
    let edge = GraphEdgeDto::from(StoredGraphEdge {
        id: rid("kg_edge", RecordIdKey::Number(1)),
        relation: "references".to_string(),
        in_record: rid("kg_node", RecordIdKey::String("a".to_string())),
        out: rid("kg_node", RecordIdKey::String("b".to_string())),
        metadata: serde_json::Value::Null,
        created_at: 0,
    });
    assert_eq!(edge.in_record, "kg_node:a");
    assert_eq!(edge.out, "kg_node:b");
    assert_eq!(edge.id, "kg_edge:1");
}

#[test]
fn completion_url_trims_slashes() {
    assert_eq!(completion_url("https://x/v1//"), "https://x/v1/chat/completions");
    assert_eq!(completion_url("https://x/v1"), "https://x/v1/chat/completions");
}

#[test]
fn message_content_text() {
    assert_eq!(extract_text_from_content(Some(&MessageContent::Text("  hi ".to_string()))), Some("hi".to_string()));
    assert_eq!(extract_text_from_content(Some(&MessageContent::Text("  ".to_string()))), Some(String::new()));
    let parts = MessageContent::Parts(vec![Some(" a".to_string()), None, Some("b ".to_string())]);
    assert_eq!(extract_text_from_content(Some(&parts)), Some("a\nb".to_string()));
    assert_eq!(extract_text_from_content(Some(&MessageContent::Parts(vec![None]))), None);
    assert_eq!(extract_text_from_content(Some(&MessageContent::Other)), None);
    assert_eq!(extract_text_from_content(None), None);
    let m = ResponseMessage { content: Some(MessageContent::Text("x".to_string())) };
    assert_eq!(extract_text_from_response_message(Some(&m)), Some("x".to_string()));
    assert_eq!(extract_text_from_response_message(None), None);
}

#[test]
fn image_request_and_response() {
    let q = image_description_request(&settings("https://m/", "vision", Some("key")), "image/png", &[1, 2, 3]);
    let q = match q {
        Ok(q) => q,
        Err(_) => panic!("refused"),
    };
    assert_eq!(q.data_url, "data:image/png;base64,AQID");
    assert_eq!(q.url, "https://m/chat/completions");
    assert_eq!(q.api_key, "key");
    assert!(matches!(
        image_description_request(&settings("b", "m", None), "image/png", &[]),
        Err(ModelError::MissingApiKey)
    ));
    let m = ResponseMessage { content: Some(MessageContent::Text("a cat".to_string())) };
    assert_eq!(image_description_from_response(true, "200".into(), "".into(), Some(&m)).ok(), Some("a cat".to_string()));
    assert!(matches!(
        image_description_from_response(false, "500".into(), "boom".into(), Some(&m)),
        Err(ModelError::RequestFailed { .. })
    ));
    assert!(matches!(image_description_from_response(true, "200".into(), "".into(), None), Err(ModelError::NoText)));
}

#[test]
fn id_keys_and_kinds() {
    assert_eq!(external_id_key("kg_node:topic--a"), "topic--a");
    assert_eq!(external_id_key("a:b:c"), "c");
    assert_eq!(external_id_key("plain"), "plain");
    assert!(ensure_allowed_kind(" Topic ").is_ok());
    assert!(ensure_allowed_kind("url").is_ok());
    assert_eq!(ensure_allowed_kind("person").err(), Some("unsupported node kind: person".to_string()));
}

#[test]
fn model_defaults_and_keys() {
    let c = config();
    let s = apply_model_defaults(&c, settings("  ", "", Some("  ")));
    assert_eq!(s.base_url, c.default_model_base_url);
    assert_eq!(s.model, c.default_model_name);
    assert_eq!(s.api_key, c.default_model_api_key);
    let s = apply_model_defaults(&c, settings("b", "m", Some("k")));
    assert_eq!((s.base_url.as_str(), s.model.as_str(), s.api_key.as_deref()), ("b", "m", Some("k")));
    let req = |k: Option<&str>, clear: bool| UpdateModelSettingsRequest {
        base_url: "b".into(),
        model: "m".into(),
        api_key: k.map(|k| k.to_string()),
        clear_api_key: clear,
    };
    assert_eq!(next_api_key(Some("old".into()), &req(Some(" new "), false)), Some("new".to_string()));
    assert_eq!(next_api_key(Some("old".into()), &req(Some("  "), false)), Some("old".to_string()));
    assert_eq!(next_api_key(Some("old".into()), &req(None, false)), Some("old".to_string()));
    assert_eq!(next_api_key(Some("old".into()), &req(Some("new"), true)), None);
    assert!(settings_or_missing(None, &c).is_err());
}

#[test]
fn node_id_candidates() {
    assert_eq!(allocation_base("My Doc"), "my-doc");
    assert_eq!(allocation_base("***"), "node");
    assert_eq!(node_id_candidate("rust", 1), "rust");
    assert_eq!(node_id_candidate("rust", 2), "rust-2");
    assert_eq!(node_id_candidate("rust", 12), "rust-12");
    assert_ne!(node_id_candidate("a", 11), node_id_candidate("a-1", 1));
}

#[test]
fn new_node_fields_derive_search_and_summary() {
    let f = new_node_fields(" Label ", None, Some("Hello world. More text"), None, Some("  src  x "));
    assert_eq!(f.label, "Label");
    assert_eq!(f.content.as_deref(), Some("<p>Hello world. More text</p>"));
    assert_eq!(f.search_text.as_deref(), Some("Hello world. More text"));
    assert_eq!(f.summary.as_deref(), Some("Hello world. More text."));
    assert_eq!(f.source.as_deref(), Some("src x"));
    let g = new_node_fields("L", Some("  "), None, Some("  a  b "), None);
    assert_eq!(g.content, None);
    assert_eq!(g.search_text.as_deref(), Some("a b"));
    assert_eq!(g.summary.as_deref(), Some("a b."));
    assert_eq!(g.source, None);
}

#[test]
fn merged_node_fields_keep_existing() {
    let existing = StoredGraphNode {
        id: rid("kg_node", RecordIdKey::String("topic--a".into())),
        kind: "topic".into(),
        node_id: "a".into(),
        label: "Old".into(),
        summary: Some("old summary".into()),
        content: Some("<p>old</p>".into()),
        search_text: Some("old".into()),
        source: Some("s".into()),
        asset_id: None,
        metadata: serde_json::Value::Null,
        created_at: 0,
        updated_at: 0,
    };
    let f = merged_node_fields(&existing, Some("  "), None, None, None, None);
    assert_eq!(f.label, "Old");
    assert_eq!(f.content.as_deref(), Some("<p>old</p>"));
    assert_eq!(f.search_text.as_deref(), Some("old"));
    assert_eq!(f.summary.as_deref(), Some("old."));
    let g = merged_node_fields(&existing, Some(" New "), Some(" sum "), Some("fresh"), None, Some("x"));
    assert_eq!(g.label, "New");
    assert_eq!(g.summary.as_deref(), Some("sum"));
    assert_eq!(g.content.as_deref(), Some("<p>fresh</p>"));
    assert_eq!(g.search_text.as_deref(), Some("fresh"));
    assert_eq!(g.source.as_deref(), Some("x"));
}

#[test]
fn import_plan_layout() {
    let p = import_plan("document", "upload", " Report ", "report", "A1", "J1", &Some("r.txt".into()), &None, "image/png", 12);
    assert_eq!(p.storage_key, "upload/A1.png");
    assert_eq!(p.node_record_key, "document--report");
    assert_eq!(p.label, "Report");
    assert_eq!(p.byte_size, 12);
    assert_eq!(p.source.as_deref(), Some("r.txt"));
    assert_eq!(p.asset_ref, "asset:A1");
    assert_eq!(p.node_ref, "kg_node:report");
    assert_eq!(p.headline, "Importing  Report ");
    assert_eq!(p.detail, "Extracting text and indexing the asset");
    assert_eq!(p.asset_id, "asset:A1");
    assert_eq!(p.node_id, "kg_node:document--report");
    assert_eq!(p.job_id, "import_job:J1");
    let q = import_plan("url", "url", "x", "x", "A", "J", &None, &Some("https://e".into()), "application/x-unknown-thing", 0);
    assert_eq!(q.storage_key, "url/A.bin");
    assert_eq!(q.detail, "Fetching and extracting the remote source");
    assert_eq!(q.source.as_deref(), Some("https://e"));
}

#[test]
fn upload_and_url_decisions() {
    assert_eq!(upload_content_type(Some("text/csv".into()), &None), "text/csv");
    assert_eq!(upload_content_type(None, &Some("photo.png".into())), "image/png");
    assert_eq!(upload_content_type(None, &Some("noext".into())), "application/octet-stream");
    assert_eq!(upload_label(&Some("f.pdf".into()), "id"), "f.pdf");
    assert_eq!(upload_label(&None, "id"), "Upload id");
    assert_eq!(import_kind("image/jpeg", "document"), "image");
    assert_eq!(import_kind("text/html", "url"), "url");
    let e = check_import_url("ftp://x/y").err().unwrap();
    assert_eq!(e.message, "only http and https URLs are supported");
    assert_eq!(check_import_url("not a url").err().unwrap().status, 400);
    let parts = check_import_url("https://example.com/docs/guide/").ok().unwrap();
    assert_eq!(url_import_label(&parts), "guide");
    let root = check_import_url("https://example.com").ok().unwrap();
    assert_eq!(url_import_label(&root), "example.com");
    assert_eq!(remote_content_type(Some("text/html; charset=utf-8"), "/"), "text/html");
    assert_eq!(remote_content_type(None, "/a/b.pdf"), "application/pdf");
    assert_eq!(remote_content_type(None, "/a/b"), "text/html");
}

#[test]
fn import_processing_results() {
    let (search, desc) = image_texts(Some(" a  cat ".into()), "img");
    assert_eq!((search.as_str(), desc.as_str()), ("a cat", " a  cat "));
    let (search, desc) = image_texts(None, " my  img ");
    assert_eq!((search.as_str(), desc.as_str()), ("my img", "my img"));
    assert_eq!(asset_text("text/plain", b" x ", None).ok(), Some("x".to_string()));
    let failed = || Some(PdfReading::Failed("unreadable".to_string()));
    assert_eq!(asset_text("application/pdf+html", b"<p>y</p>", failed()).ok(), Some("y".to_string()));
    assert!(asset_text("application/pdf", b"junk", failed()).is_err());
    let o = import_outcome(&asset("document", "Doc", Some("d.txt"), None), Some("One. Two".into()), None);
    assert_eq!(o.summary.as_deref(), Some("One. Two."));
    assert_eq!(
        o.content.as_deref(),
        Some("<hirsel-card eyebrow=\"Imported document\" heading=\"Doc\"><p>One. Two</p></hirsel-card>")
    );
    assert_eq!(o.source.as_deref(), Some("d.txt"));
    assert_eq!(o.extracted_text.as_deref(), Some("One. Two"));
    let i = import_outcome(&asset("image", "Pic", None, None), Some("cat".into()), Some("a cat".into()));
    assert_eq!(i.content, None);
    assert_eq!(i.extracted_text, None);
    assert_eq!(i.source.as_deref(), Some("Pic"));
    assert_eq!(i.image_description.as_deref(), Some("a cat"));
    let u = import_outcome(&asset("url", "Site", None, Some("https://e")), None, None);
    assert_eq!(u.search_text, "");
    assert_eq!(u.summary, None);
    assert_eq!(
        u.content.as_deref(),
        Some("<hirsel-card eyebrow=\"Source URL\" heading=\"Site\"><p><a href=\"https://e\">https://e</a></p></hirsel-card>")
    );
}

#[test]
fn chat_and_session_decisions() {
    assert_eq!(chat_send_check("  hi  there ", false).ok(), Some("hi there".to_string()));
    let e = chat_send_check("   ", false).err().unwrap();
    assert_eq!((e.status, e.message.as_str()), (400, "message cannot be empty"));
    let e = chat_send_check("hi", true).err().unwrap();
    assert_eq!((e.status, e.message.as_str()), (409, "an assistant turn is already running"));
    assert!(should_clear_turn(Some("t1"), "t1"));
    assert!(!should_clear_turn(Some("t2"), "t1"));
    assert!(!should_clear_turn(None, "t1"));
    let s = StoredAuthSession {
        id: rid("auth_session", RecordIdKey::String("tok".into())),
        user_id: "auth_user:operator".into(),
        token: "tok".into(),
        expires_at: 100,
        created_at: 0,
        last_seen_at: 0,
    };
    assert_eq!(authenticate_session(Some(&s), 50).ok(), Some("operator".to_string()));
    assert_eq!(authenticate_session(Some(&s), 101).err().unwrap().message, "session expired");
    assert_eq!(authenticate_session(None, 0).err().unwrap().message, "session not found");
    assert_eq!(session_expires_at(0), Some(2_592_000_000_000_000));
    assert_eq!(session_expires_at(i64::MAX - 1), None);
    assert_eq!(search_query("  a   b "), Some("a b".to_string()));
    assert_eq!(search_query("   "), None);
}

#[test]
fn record_values_from_rows() {
    assert_eq!(value_record_id_string(&JsonValue::Text("kg_node:a".into())), "kg_node:a");
    let obj = JsonValue::Object {
        tb: Some("kg_node".into()),
        id: Some(Box::new(JsonValue::Integer(7))),
        json: "{\"tb\":\"kg_node\",\"id\":7}".into(),
    };
    assert_eq!(value_record_id_string(&obj), "kg_node:7");
    assert_eq!(value_record_id_string(&JsonValue::Integer(-3)), "-3");
    assert_eq!(value_record_id_string(&JsonValue::Other("\"x\"".into())), "x");
    assert_eq!(value_record_key_string(&JsonValue::Other("true".into())), "true");
    assert_eq!(value_record_key_string(&JsonValue::Text("k".into())), "k");
}

#[test]
fn reference_targets_from_content() {
    let t = reference_targets(Some("<hirsel-node-ref node=\"topic:A\"></hirsel-node-ref>"));
    assert_eq!(t, vec![("topic--a".to_string(), "references".to_string())]);
    assert!(reference_targets(None).is_empty());
}

#[test]
fn tool_helpers() {
    assert_eq!(render_tool_result(&ToolOutput::Text("  ok  ".into()), true), "ok");
    let long = "y".repeat(7000);
    assert_eq!(render_tool_result(&ToolOutput::Json(long.clone()), true).len(), 6000);
    assert_eq!(render_tool_result(&ToolOutput::Json(long), false).len(), 3000);
    assert_eq!(take_chars("héllo", 2), "hé");
    assert_eq!(assistant_text("  done ", &vec![]), "done");
    assert_eq!(assistant_text("  ", &vec![]), "The assistant finished without returning text.");
    assert_eq!(assistant_text("", &vec![" e1 ".into(), "  ".into(), "e2".into()]), "e1\ne2");
    assert_eq!(require_str(Some(" x "), "url").ok(), Some(" x ".to_string()));
    assert_eq!(require_str(Some("  "), "url").err(), Some("url is required".to_string()));
    assert_eq!(require_str(None, "kind").err(), Some("kind is required".to_string()));
    assert_eq!(optional_str(Some(" v ")), Some("v".to_string()));
    assert_eq!(optional_str(Some("  ")), None);
    assert_eq!(parse_tool_name("get_node").ok(), Some(ToolName::GetNode));
    assert_eq!(parse_tool_name("rm").err(), Some("unknown tool: rm".to_string()));
    assert_eq!(system_prompt_placement(Some(true)), PromptPlacement::ReplaceFirst);
    assert_eq!(system_prompt_placement(Some(false)), PromptPlacement::InsertFirst);
    assert_eq!(system_prompt_placement(None), PromptPlacement::InsertFirst);
}

#[test]
fn policy_and_fetch_checks() {
    let c = config();
    let p = build_policy(&c, &settings("b", "m", Some("k"))).ok().unwrap();
    assert_eq!((p.model.as_str(), p.api_key.as_str(), p.session_id.as_str(), p.max_turns), ("m", "k", "root", 6));
    assert_eq!(p.max_context_tokens, 120000);
    assert_eq!(build_policy(&c, &settings("b", "m", None)).err(), Some("model API key is not configured".to_string()));
    assert!(check_fetch_url("https://example.com").is_ok());
    assert_eq!(check_fetch_url("file:///etc/passwd").err(), Some("unsupported url scheme".to_string()));
    assert!(check_fetch_url("::").is_err());
    assert_eq!(url_preview("text/html", "<p>a</p><p>b</p>"), "a b");
    assert_eq!(url_preview("text/plain", " a  b "), "a b");
    assert_eq!(web_search_key(&c).err(), Some("TAVILY_API_KEY is not configured".to_string()));
}

#[test]
fn renumbering_transcripts() {
    let ids = renumbered_ids(&vec![1, 0, 2]);
    assert_eq!(ids[0], ("m0".to_string(), vec!["m0.p0".to_string()]));
    assert_eq!(ids[1], ("m1".to_string(), vec![]));
    assert_eq!(ids[2], ("m2".to_string(), vec!["m2.p0".to_string(), "m2.p1".to_string()]));
}

#[test]
fn database_and_storage_decisions() {
    let c = config();
    assert!(surreal_auth(&c).is_err());
    let with_token = Config::from_env(&vars(&[("SURREALDB_URL", "ws://db"), ("SURREALDB_TOKEN", "t")]), true).ok().unwrap();
    assert!(matches!(surreal_auth(&with_token), Ok(SurrealAuth::Token(ref t)) if t == "t"));
    let root = Config::from_env(&vars(&[("SURREALDB_URL", "ws://db"), ("SURREALDB_USERNAME", "u"), ("SURREALDB_PASSWORD", "p")]), true).ok().unwrap();
    assert!(matches!(surreal_auth(&root), Ok(SurrealAuth::Root { .. })));
    assert!(matches!(admin_bootstrap(&vec![CountRow { count: 1 }], &Some("p".into())), AdminBootstrap::AlreadyPresent));
    assert!(matches!(admin_bootstrap(&vec![], &None), AdminBootstrap::NoPassword));
    assert!(matches!(admin_bootstrap(&vec![CountRow { count: 0 }], &Some("p".into())), AdminBootstrap::Create(ref p) if p == "p"));
    assert!(matches!(storage_choice(&c), StorageChoice::Local { ref root } if root == ".data/assets"));
    let s3 = Config::from_env(&vars(&[("SURREALDB_URL", "ws://db"), ("BUCKET_NAME", "b"), ("AWS_ACCESS_KEY_ID", "k")]), true).ok().unwrap();
    assert!(matches!(storage_choice(&s3), StorageChoice::S3 { ref bucket, credentials: None, .. } if bucket == "b"));
}

#[test]
fn tool_catalogue_offers_each_tool_once_under_its_parsed_name() {
    let tools = tool_definitions();
    let names: Vec<&str> = tools.iter().map(|t| t.name.as_str()).collect();
    assert_eq!(
        names,
        vec![
            "list_assets", "read_asset", "fetch_url", "search_web", "search_graph", "get_node",
            "create_node", "update_node", "relate_nodes"
        ]
    );
    for spec in &tools {
        assert_eq!(parse_tool_name(&spec.name), Ok(spec.tool));
    }
}

#[test]
fn tool_catalogue_parameters_and_results() {
    let tools = tool_definitions();
    assert_eq!(tools[1].params, vec!["asset_id".to_string()]);
    assert_eq!(tools[4].returns, "list");
    assert_eq!(tools[5].returns, "dict");
    assert!(tools[2].schema.is_none());
    let list = tools[0].schema.as_ref().expect("list_assets schema");
    assert!(list.properties.is_empty() && list.required.is_empty());
}

#[test]
fn create_node_schema_offers_the_allowed_kinds() {
    let tools = tool_definitions();
    let schema = tools[6].schema.as_ref().expect("create_node schema");
    assert_eq!(schema.required, vec!["kind".to_string(), "label".to_string()]);
    assert_eq!(schema.properties[0].name, "kind");
    assert_eq!(schema.properties.len(), 7);
    for kind in &schema.properties[0].choices {
        assert_eq!(ensure_allowed_kind(kind), Ok(()));
    }
    assert_eq!(schema.properties[0].choices.len(), 4);
    for spec in &tools {
        if let Some(schema) = &spec.schema {
            for name in &schema.required {
                assert!(schema.properties.iter().any(|p| &p.name == name));
            }
        }
    }
}

#[test]
fn image_data_url_pads_short_groups() {
    let s = settings("https://m/", "vision", Some("key"));
    let url = |bytes: &[u8]| match image_description_request(&s, "image/gif", bytes) {
        Ok(q) => q.data_url,
        Err(_) => panic!("refused"),
    };
    assert_eq!(url(b"Man"), "data:image/gif;base64,TWFu");
    assert_eq!(url(b"Ma"), "data:image/gif;base64,TWE=");
    assert_eq!(url(b"M"), "data:image/gif;base64,TQ==");
    assert_eq!(url(&[0xfb, 0xff]), "data:image/gif;base64,+/8=");
}

#[test]
fn uuid_keys_are_hyphenated_lower_case_hex() {
    assert_eq!(
        record_key_string(&RecordIdKey::Uuid(0x0123_4567_89ab_cdef_0123_4567_89ab_cdef)),
        "01234567-89ab-cdef-0123-456789abcdef"
    );
    assert_eq!(record_key_string(&RecordIdKey::Uuid(0)), "00000000-0000-0000-0000-000000000000");
}

#[test]
fn allocation_keeps_the_first_free_candidate() {
    assert_eq!(allocation_step("doc", 1, false), AllocationStep::Accept("doc".to_string()));
    assert_eq!(allocation_step("doc", 1, true), AllocationStep::Next(2));
    assert_eq!(allocation_step("doc", 2, true), AllocationStep::Next(3));
    assert_eq!(allocation_step("doc", 3, false), AllocationStep::Accept("doc-3".to_string()));
    assert_eq!(allocation_step("doc", u64::MAX, true), AllocationStep::Exhausted);
}

#[test]
fn settings_update_trims_and_keeps_key() {
    let current = settings("https://old/", "old", Some("secret"));
    let payload = UpdateModelSettingsRequest {
        base_url: "  https://new/ ".into(),
        model: " gpt ".into(),
        api_key: Some("   ".into()),
        clear_api_key: false,
    };
    let update = settings_update(&current, &payload);
    assert_eq!(update.base_url, "https://new/");
    assert_eq!(update.model, "gpt");
    assert_eq!(update.api_key.as_deref(), Some("secret"));
    let cleared = UpdateModelSettingsRequest { clear_api_key: true, ..payload };
    assert_eq!(settings_update(&current, &cleared).api_key, None);
}

fn message(id: &str, system: bool, meta: &str, parts: &[&str]) -> TranscriptMessage<String, String> {
    TranscriptMessage {
        id: id.to_string(),
        system,
        meta: meta.to_string(),
        parts: parts
            .iter()
            .map(|body| TranscriptPart { id: "x".to_string(), body: body.to_string() })
            .collect(),
    }
}

fn outline(ms: &[TranscriptMessage<String, String>]) -> Vec<(String, bool, String, Vec<(String, String)>)> {
    ms.iter()
        .map(|m| {
            (
                m.id.clone(),
                m.system,
                m.meta.clone(),
                m.parts.iter().map(|p| (p.id.clone(), p.body.clone())).collect(),
            )
        })
        .collect()
}

#[test]
fn system_prompt_is_inserted_and_transcript_renumbered() {
    let synced = sync_system_prompt(
        vec![message("a", false, "user", &["hi", "there"])],
        "system".to_string(),
        "PROMPT".to_string(),
    );
    assert_eq!(
        outline(&synced),
        vec![
            ("m0".to_string(), true, "system".to_string(), vec![("m0.p0".to_string(), "PROMPT".to_string())]),
            (
                "m1".to_string(),
                false,
                "user".to_string(),
                vec![("m1.p0".to_string(), "hi".to_string()), ("m1.p1".to_string(), "there".to_string())]
            ),
        ]
    );
}

#[test]
fn system_prompt_replaces_a_leading_system_message_and_second_sync_changes_nothing() {
    let once = sync_system_prompt(
        vec![message("z", true, "old-system", &["old", "prompt"]), message("y", false, "user", &["q"])],
        "system".to_string(),
        "PROMPT".to_string(),
    );
    let first = outline(&once);
    assert_eq!(first[0], ("m0".to_string(), true, "old-system".to_string(), vec![("m0.p0".to_string(), "PROMPT".to_string())]));
    assert_eq!(first.len(), 2);
    let twice = sync_system_prompt(once, "system".to_string(), "PROMPT".to_string());
    assert_eq!(outline(&twice), first);
    let empty = sync_system_prompt(Vec::new(), "system".to_string(), "PROMPT".to_string());
    assert_eq!(outline(&empty).len(), 1);
}

#[test]
fn bind_address_is_checked_first() {
    let v = vars(&[("BIND_ADDR", " not-an-address ")]);
    assert_eq!(Config::bind_address(&v), "not-an-address");
    assert!(matches!(Config::from_env(&v, false), Err(ConfigError::InvalidBindAddr)));
    assert!(matches!(Config::from_env(&v, true), Err(ConfigError::MissingSurrealUrl)));
    assert_eq!(Config::bind_address(&vars(&[])), "0.0.0.0:8080");
}

#[test]
fn reference_targets_once_each_in_sorted_order() {
    let content = "<hirsel-node-ref node=\"topic:b\"></hirsel-node-ref>\
        <hirsel-node-ref node=\"Topic:B\"></hirsel-node-ref>\
        <hirsel-node-ref node=\"document:a\"></hirsel-node-ref>";
    assert_eq!(
        reference_targets(Some(content)),
        vec![
            ("document--a".to_string(), "references".to_string()),
            ("topic--b".to_string(), "references".to_string()),
        ]
    );
}
