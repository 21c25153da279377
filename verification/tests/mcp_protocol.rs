use ha_core::json::{Json, JsonObject};
use ha_core::json_text::parse_json;
use ha_core::mcp_protocol::{
    discover_result, McpProtocolSession, MCP_PROTOCOL_2025_03_26, MCP_PROTOCOL_2025_06_18,
    MCP_PROTOCOL_2025_11_25, MCP_PROTOCOL_2026_07_28, MCP_SUPPORTED_PROTOCOL_VERSIONS,
};

fn json(text: &str) -> Json {
    parse_json(text).unwrap()
}

fn object(members: Vec<(&str, Json)>) -> Json {
    let mut object = JsonObject::new();
    for (name, value) in members {
        object.insert(name, value);
    }
    Json::Object(object)
}

fn empty() -> Json {
    Json::Object(JsonObject::new())
}

fn text_of<'a>(value: &'a Json, path: &[&str]) -> Option<&'a str> {
    let mut value = value;
    for name in path {
        value = value.get(name)?;
    }
    value.as_str()
}

fn number_of<'a>(value: &'a Json, name: &str) -> Option<&'a str> {
    match value.get(name) {
        Some(Json::Number(digits)) => Some(digits.as_str()),
        _ => None,
    }
}

#[test]
fn exact_legacy_version_is_preserved_and_omits_result_type() {
    let mut session = McpProtocolSession::default();
    assert_eq!(
        session.negotiate_initialize(&object(vec![(
            "protocolVersion",
            Json::text(MCP_PROTOCOL_2025_03_26)
        )])),
        MCP_PROTOCOL_2025_03_26
    );
    assert!(session
        .complete_result(empty())
        .get("resultType")
        .is_none());
}

#[test]
fn unknown_legacy_initialize_falls_back_to_a_legacy_version() {
    let mut session = McpProtocolSession::default();
    assert_eq!(
        session.negotiate_initialize(&object(vec![(
            "protocolVersion",
            Json::text("2099-01-01")
        )])),
        MCP_PROTOCOL_2025_11_25
    );
    assert!(session
        .complete_result(empty())
        .get("resultType")
        .is_none());
}

#[test]
fn modern_metadata_is_request_local_and_cache_fields_are_versioned() {
    let mut legacy = McpProtocolSession::default();
    legacy.negotiate_initialize(&object(vec![(
        "protocolVersion",
        Json::text(MCP_PROTOCOL_2025_03_26),
    )]));
    let modern = legacy
        .for_request(&object(vec![(
            "_meta",
            object(vec![
                (
                    "io.modelcontextprotocol/protocolVersion",
                    Json::text(MCP_PROTOCOL_2026_07_28),
                ),
                ("io.modelcontextprotocol/clientCapabilities", empty()),
            ]),
        )]))
        .unwrap();
    let result = modern.complete_list_result(object(vec![("tools", Json::Array(vec![]))]));
    assert_eq!(text_of(&result, &["resultType"]), Some("complete"));
    assert_eq!(number_of(&result, "ttlMs"), Some("0"));
    assert_eq!(text_of(&result, &["cacheScope"]), Some("private"));
    assert_eq!(legacy.negotiated_version(), MCP_PROTOCOL_2025_03_26);
    assert!(legacy
        .complete_list_result(object(vec![("tools", Json::Array(vec![]))]))
        .get("ttlMs")
        .is_none());
    let unknown = legacy
        .for_request(&object(vec![(
            "_meta",
            object(vec![(
                "io.modelcontextprotocol/protocolVersion",
                Json::text("2099-01-01"),
            )]),
        )]))
        .unwrap_err();
    assert_eq!(number_of(&unknown, "code"), Some("-32022"));
    assert_eq!(text_of(&unknown, &["data", "requested"]), Some("2099-01-01"));
    assert!(legacy
        .for_request(&object(vec![(
            "_meta",
            object(vec![(
                "io.modelcontextprotocol/protocolVersion",
                Json::text(MCP_PROTOCOL_2026_07_28),
            )]),
        )]))
        .is_err());
}

#[test]
fn the_default_session_speaks_the_newest_legacy_version() {
    let session = McpProtocolSession::default();
    assert_eq!(session.negotiated_version(), "2025-11-25");
    assert!(!session.is_modern());
}

#[test]
fn initialize_never_settles_on_the_modern_version() {
    for (params, expected) in [
        (r#"{"protocolVersion":"2025-06-18"}"#, MCP_PROTOCOL_2025_06_18),
        (r#"{"protocolVersion":"2025-11-25"}"#, MCP_PROTOCOL_2025_11_25),
        (r#"{"protocolVersion":"2026-07-28"}"#, MCP_PROTOCOL_2025_11_25),
        (r#"{"protocolVersion":7}"#, MCP_PROTOCOL_2025_11_25),
        (r#"{}"#, MCP_PROTOCOL_2025_11_25),
        (r#"[]"#, MCP_PROTOCOL_2025_11_25),
    ] {
        let mut session = McpProtocolSession::default();
        session.negotiate_initialize(&json(r#"{"protocolVersion":"2025-03-26"}"#));
        assert_eq!(session.negotiate_initialize(&json(params)), expected);
        assert_eq!(session.negotiated_version(), expected);
    }
}

#[test]
fn requests_without_version_metadata_keep_the_session() {
    let mut session = McpProtocolSession::default();
    session.negotiate_initialize(&json(r#"{"protocolVersion":"2025-06-18"}"#));
    for params in [
        r#"{}"#,
        r#"null"#,
        r#"{"_meta":null}"#,
        r#"{"_meta":{}}"#,
        r#"{"_meta":{"io.modelcontextprotocol/clientCapabilities":{}}}"#,
    ] {
        let served = session.for_request(&json(params)).unwrap();
        assert_eq!(served.negotiated_version(), "2025-06-18");
    }
}

#[test]
fn a_request_can_choose_a_legacy_version_without_capabilities() {
    let session = McpProtocolSession::default();
    let served = session
        .for_request(&json(
            r#"{"_meta":{"io.modelcontextprotocol/protocolVersion":"2025-03-26"}}"#,
        ))
        .unwrap();
    assert_eq!(served.negotiated_version(), "2025-03-26");
}

#[test]
fn request_errors_carry_their_codes_and_messages() {
    let session = McpProtocolSession::default();
    let invalid = session
        .for_request(&json(
            r#"{"_meta":{"io.modelcontextprotocol/protocolVersion":20}}"#,
        ))
        .unwrap_err();
    assert_eq!(number_of(&invalid, "code"), Some("-32602"));
    assert_eq!(
        text_of(&invalid, &["message"]),
        Some("Invalid protocol version metadata")
    );
    assert!(invalid.get("data").is_none());

    let unsupported = session
        .for_request(&json(
            r#"{"_meta":{"io.modelcontextprotocol/protocolVersion":"1"}}"#,
        ))
        .unwrap_err();
    assert_eq!(
        text_of(&unsupported, &["message"]),
        Some("Unsupported protocol version")
    );
    let data = unsupported.get("data").unwrap();
    let supported: Vec<&str> = data
        .get("supported")
        .unwrap()
        .as_array()
        .unwrap()
        .iter()
        .map(|version| version.as_str().unwrap())
        .collect();
    assert_eq!(supported, MCP_SUPPORTED_PROTOCOL_VERSIONS);
    assert_eq!(
        supported,
        ["2026-07-28", "2025-11-25", "2025-06-18", "2025-03-26"]
    );

    for capabilities in ["[]", "null", "true"] {
        let refused = session
            .for_request(&json(&format!(
                r#"{{"_meta":{{"io.modelcontextprotocol/protocolVersion":"2026-07-28","io.modelcontextprotocol/clientCapabilities":{capabilities}}}}}"#
            )))
            .unwrap_err();
        assert_eq!(number_of(&refused, "code"), Some("-32602"));
        assert_eq!(
            text_of(&refused, &["message"]),
            Some("Missing or invalid client capabilities")
        );
    }
}

fn modern_session() -> McpProtocolSession {
    McpProtocolSession::default()
        .for_request(&json(
            r#"{"_meta":{"io.modelcontextprotocol/protocolVersion":"2026-07-28","io.modelcontextprotocol/clientCapabilities":{}}}"#,
        ))
        .unwrap()
}

#[test]
fn framing_touches_the_result_type_alone_and_again_replaces_it() {
    let legacy = McpProtocolSession::default();
    let modern = modern_session();
    assert!(modern.is_modern());
    let framed = modern.complete_result(json(r#"{"tools":["a"],"resultType":"other"}"#));
    assert_eq!(text_of(&framed, &["resultType"]), Some("complete"));
    assert_eq!(
        framed.get("tools").unwrap().as_array().unwrap()[0].as_str(),
        Some("a")
    );
    let plain = legacy.complete_result(framed);
    assert!(plain.get("resultType").is_none());
    assert!(plain.get("tools").is_some());
}

#[test]
fn only_objects_are_framed() {
    let modern = modern_session();
    assert!(matches!(
        modern.complete_result(json("[1]")),
        Json::Array(_)
    ));
    assert!(matches!(modern.complete_result(Json::Null), Json::Null));
}

#[test]
fn an_absent_list_result_becomes_an_object_for_the_modern_protocol() {
    let framed = modern_session().complete_list_result(Json::Null);
    assert_eq!(number_of(&framed, "ttlMs"), Some("0"));
    assert_eq!(text_of(&framed, &["resultType"]), Some("complete"));
    assert!(matches!(
        McpProtocolSession::default().complete_list_result(Json::Null),
        Json::Null
    ));
    assert!(matches!(
        McpProtocolSession::default().complete_list_result(json("[]")),
        Json::Array(_)
    ));
}

#[test]
fn discovery_names_the_server_and_its_versions() {
    let found = discover_result(
        json(r#"{"tools":{"listChanged":true}}"#),
        "hope",
        "1.2.3",
        "Be kind.",
    );
    assert_eq!(text_of(&found, &["resultType"]), Some("complete"));
    assert_eq!(text_of(&found, &["instructions"]), Some("Be kind."));
    assert_eq!(number_of(&found, "ttlMs"), Some("0"));
    assert_eq!(text_of(&found, &["cacheScope"]), Some("private"));
    let server = found
        .get("_meta")
        .unwrap()
        .get("io.modelcontextprotocol/serverInfo")
        .unwrap();
    assert_eq!(text_of(server, &["name"]), Some("hope"));
    assert_eq!(text_of(server, &["version"]), Some("1.2.3"));
    assert!(matches!(
        found
            .get("capabilities")
            .unwrap()
            .get("tools")
            .unwrap()
            .get("listChanged"),
        Some(Json::Bool(true))
    ));
    assert_eq!(
        found
            .get("supportedVersions")
            .unwrap()
            .as_array()
            .unwrap()
            .len(),
        4
    );
}
