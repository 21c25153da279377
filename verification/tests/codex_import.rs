use ha_core::envelope::{strip_runtime_separator, visible_user_text};
use ha_core::record::{
    conversation_title, parse_record, ImportedMessage, RecordError, Role, Transcript,
};
use ha_core::timestamp::{choose_timestamp, normalized_timestamp};
use serde_json::Value;

fn object(members: &[(&str, Value)]) -> Value {
    let mut map = serde_json::Map::new();
    for (name, value) in members {
        map.insert(name.to_string(), value.clone());
    }
    Value::Object(map)
}

fn text(chars: &str) -> Value {
    Value::String(chars.to_string())
}

fn part(kind: &str, chars: &str) -> Value {
    object(&[("type", text(kind)), ("text", text(chars))])
}

fn payload(role: &str, parts: Vec<Value>) -> Value {
    object(&[
        ("type", text("message")),
        ("role", text(role)),
        ("content", Value::Array(parts)),
    ])
}

fn jsonl(lines: &[Value]) -> String {
    lines
        .iter()
        .map(Value::to_string)
        .collect::<Vec<_>>()
        .join("\n")
}

#[test]
fn imports_only_visible_user_and_assistant_text() {
    let jsonl = [
        "{\"type\":\"session_meta\",\"timestamp\":\"2026-01-01T00:00:00Z\",\"payload\":{\"id\":\"source-1\",\"base_instructions\":\"secret\"}}\n",
        "{\"type\":\"response_item\",\"timestamp\":\"2026-01-01T00:00:01Z\",\"payload\":{\"type\":\"message\",\"role\":\"developer\",\"content\":[{\"type\":\"input_text\",\"text\":\"hidden\"}]}}\n",
        "{\"type\":\"response_item\",\"timestamp\":\"2026-01-01T00:00:02Z\",\"payload\":{\"type\":\"message\",\"role\":\"user\",\"content\":[{\"type\":\"input_text\",\"text\":\"你好\"},{\"type\":\"input_image\",\"image_url\":\"secret\"}]}}\n",
        "{\"type\":\"response_item\",\"timestamp\":\"2026-01-01T00:00:03Z\",\"payload\":{\"type\":\"message\",\"role\":\"assistant\",\"content\":[{\"type\":\"output_text\",\"text\":\"回答\"}]}}\n",
    ]
    .concat();
    let record = parse_record(jsonl.as_bytes()).unwrap();
    assert_eq!(record.source_id, "source-1");
    assert_eq!(record.title, "你好");
    assert_eq!(record.messages.len(), 2);
    assert_eq!(record.messages[0].content, "你好");
    assert_eq!(record.messages[1].content, "回答");
    assert_eq!(record.unsupported_content, 1);
}

#[test]
fn strips_generated_user_context_without_losing_the_prompt() {
    let lines = [
        object(&[
            ("type", text("session_meta")),
            ("timestamp", text("2026-01-01T00:00:00Z")),
            ("payload", object(&[("id", text("source-2"))])),
        ]),
        object(&[
            ("type", text("response_item")),
            ("timestamp", text("2026-01-01T00:00:01Z")),
            (
                "payload",
                payload(
                    "user",
                    vec![part(
                        "input_text",
                        "<environment_context>hidden</environment_context>",
                    )],
                ),
            ),
        ]),
        object(&[
            ("type", text("response_item")),
            ("timestamp", text("2026-01-01T00:00:02Z")),
            (
                "payload",
                payload(
                    "user",
                    vec![part(
                        "input_text",
                        "<recommended_plugins>hidden</recommended_plugins>\n# AGENTS.md instructions for /workspace\n<INSTRUCTIONS>hidden</INSTRUCTIONS>\n<environment_context>hidden</environment_context>\nActual request",
                    )],
                ),
            ),
        ]),
        object(&[
            ("type", text("response_item")),
            ("timestamp", text("2026-01-01T00:00:03Z")),
            (
                "payload",
                payload("assistant", vec![part("output_text", "Answer")]),
            ),
        ]),
    ];
    let record = parse_record(jsonl(&lines).as_bytes()).unwrap();
    assert_eq!(record.title, "Actual request");
    assert_eq!(record.messages.len(), 2);
    assert_eq!(record.messages[0].content, "Actual request");
    assert_eq!(record.messages[1].content, "Answer");
}

#[test]
fn incomplete_envelope_like_user_text_is_preserved() {
    for text in [
        "<environment_context>my literal prompt",
        "<recommended_plugins>my literal prompt",
        "# AGENTS.md instructions for my own document",
        "# AGENTS.md instructions for my own document\n<INSTRUCTIONS>unfinished",
        "<environment_context>complete</environment_context>\n<recommended_plugins>unfinished",
    ] {
        let expected = if text.starts_with("<environment_context>complete") {
            "<recommended_plugins>unfinished"
        } else {
            text
        };
        assert_eq!(visible_user_text(text), Some(expected));
    }
}

#[test]
fn ordinary_user_prompt_preserves_leading_whitespace() {
    let prompt = "\n    code block\n    second line";
    assert_eq!(visible_user_text(prompt), Some(prompt));
    assert_eq!(
        visible_user_text("    <environment_context>unfinished"),
        Some("    <environment_context>unfinished")
    );
    let lines = [
        object(&[
            ("type", text("session_meta")),
            ("payload", object(&[("id", text("whitespace-source"))])),
        ]),
        object(&[
            ("type", text("response_item")),
            ("payload", payload("user", vec![part("input_text", prompt)])),
        ]),
    ];
    let record = parse_record(jsonl(&lines).as_bytes()).unwrap();
    assert_eq!(record.messages[0].content, prompt);
}

#[test]
fn prompt_after_runtime_envelopes_preserves_indentation() {
    let prompt = "    code block\n    second line";
    for text in [
        format!("<environment_context>hidden</environment_context>\n{prompt}"),
        format!("<environment_context>hidden</environment_context>\r\n{prompt}"),
        format!("<recommended_plugins>hidden</recommended_plugins>\n<environment_context>hidden</environment_context>\n{prompt}"),
    ] {
        assert_eq!(visible_user_text(&text), Some(prompt));
    }
    assert_eq!(
        visible_user_text("<environment_context>hidden</environment_context>\n\n    code"),
        Some("\n    code")
    );
}

#[test]
fn invalid_timestamps_use_valid_metadata_or_prior_message() {
    let lines = [
        object(&[
            ("type", text("session_meta")),
            ("timestamp", text("invalid")),
            ("payload", object(&[("id", text("invalid-time-source"))])),
        ]),
        object(&[
            ("type", text("response_item")),
            (
                "payload",
                payload("user", vec![part("input_text", "Question")]),
            ),
        ]),
        object(&[
            ("type", text("response_item")),
            ("timestamp", text("also-invalid")),
            (
                "payload",
                payload("assistant", vec![part("output_text", "Answer")]),
            ),
        ]),
    ];
    let record = parse_record(jsonl(&lines).as_bytes()).unwrap();
    assert_eq!(record.created_at, "1970-01-01T00:00:00Z");
    assert_eq!(record.updated_at, "1970-01-01T00:00:00Z");
    assert!(record
        .messages
        .iter()
        .all(|message| message.timestamp == "1970-01-01T00:00:00Z"));

    let lines = [
        object(&[
            ("type", text("session_meta")),
            ("timestamp", text("2025-01-01T00:00:00Z")),
            ("payload", object(&[("id", text("missing-last-time"))])),
        ]),
        object(&[
            ("type", text("response_item")),
            ("timestamp", text("2026-01-01T00:00:00Z")),
            (
                "payload",
                payload("user", vec![part("input_text", "Question")]),
            ),
        ]),
        object(&[
            ("type", text("response_item")),
            ("timestamp", text("invalid")),
            (
                "payload",
                payload("assistant", vec![part("output_text", "Answer")]),
            ),
        ]),
    ];
    let record = parse_record(jsonl(&lines).as_bytes()).unwrap();
    assert_eq!(record.messages[1].timestamp, "2026-01-01T00:00:00Z");
    assert_eq!(record.updated_at, "2026-01-01T00:00:00Z");
}

#[test]
fn duplicate_metadata_is_rejected_even_when_first_id_is_invalid() {
    for first_id in [Value::Null, text("")] {
        let lines = [
            object(&[
                ("type", text("session_meta")),
                ("payload", object(&[("id", first_id)])),
            ]),
            object(&[
                ("type", text("response_item")),
                (
                    "payload",
                    payload("user", vec![part("input_text", "unrelated")]),
                ),
            ]),
            object(&[
                ("type", text("session_meta")),
                ("payload", object(&[("id", text("valid-id"))])),
            ]),
        ];
        assert!(parse_record(jsonl(&lines).as_bytes()).is_err());
        assert_eq!(
            parse_record(jsonl(&lines).as_bytes()).unwrap_err(),
            RecordError::DuplicateMetadata
        );
    }
}

// ---------------------------------------------------------------------------
// Records
// ---------------------------------------------------------------------------

fn metadata(id: &str) -> Value {
    object(&[
        ("type", text("session_meta")),
        ("timestamp", text("2025-05-05T05:05:05+02:00")),
        ("payload", object(&[("id", text(id))])),
    ])
}

fn message(role: &str, parts: Vec<Value>) -> Value {
    object(&[
        ("type", text("response_item")),
        ("timestamp", text("2025-05-06T00:00:00Z")),
        ("payload", payload(role, parts)),
    ])
}

fn error_of(content: &[u8]) -> RecordError {
    parse_record(content).unwrap_err()
}

#[test]
fn each_error_has_its_input() {
    assert_eq!(error_of(&[0x7b, 0xff]), RecordError::NotUtf8);
    assert_eq!(
        error_of("x".repeat(4 * 1024 * 1024 + 1).as_bytes()),
        RecordError::LineTooLong
    );
    assert_eq!(
        error_of(" ".repeat(4 * 1024 * 1024 + 1).as_bytes()),
        RecordError::LineTooLong
    );
    assert_eq!(error_of(b"{"), RecordError::InvalidLine);
    assert_eq!(error_of(b""), RecordError::MissingSessionId);
    assert_eq!(
        error_of(jsonl(&[metadata("a")]).as_bytes()),
        RecordError::NoVisibleMessages
    );
    assert_eq!(
        error_of(jsonl(&[message("user", vec![part("input_text", "a")])]).as_bytes()),
        RecordError::MissingSessionId
    );
    assert_eq!(RecordError::NotUtf8.message(), "JSONL is not UTF-8");
    assert_eq!(
        RecordError::LineTooLong.message(),
        "JSONL line exceeds the import limit"
    );
    assert_eq!(RecordError::InvalidLine.message(), "invalid JSONL line");
    assert_eq!(
        RecordError::DuplicateMetadata.message(),
        "duplicate session metadata"
    );
    assert_eq!(
        RecordError::MissingSessionId.message(),
        "missing Codex session ID"
    );
    assert_eq!(
        RecordError::NoVisibleMessages.message(),
        "no visible messages"
    );
}

#[test]
fn a_line_that_cannot_be_read_spoils_the_file() {
    let lines = jsonl(&[
        metadata("a"),
        message("user", vec![part("input_text", "b")]),
    ]);
    assert!(parse_record(lines.as_bytes()).is_ok());
    assert_eq!(
        error_of(format!("{lines}\n[").as_bytes()),
        RecordError::InvalidLine
    );
    let long = "x".repeat(4 * 1024 * 1024 + 1);
    assert_eq!(
        error_of(format!("{lines}\n{long}\n{{}}").as_bytes()),
        RecordError::LineTooLong
    );
}

#[test]
fn the_longest_line_is_read() {
    let blank = " ".repeat(4 * 1024 * 1024);
    let lines = jsonl(&[metadata("a"), message("user", vec![part("input_text", "b")])]);
    let record = parse_record(format!("{blank}\n{lines}").as_bytes()).unwrap();
    assert_eq!(record.source_id, "a");
}

#[test]
fn session_ids_are_limited() {
    let accepted = |id: &str| {
        let lines = [
            metadata(id),
            message("user", vec![part("input_text", "Question")]),
        ];
        parse_record(jsonl(&lines).as_bytes()).map(|record| record.source_id)
    };
    assert_eq!(accepted(&"a".repeat(128)), Ok("a".repeat(128)));
    assert_eq!(
        accepted(&"a".repeat(129)),
        Err(RecordError::MissingSessionId)
    );
    assert_eq!(accepted(&"é".repeat(64)), Ok("é".repeat(64)));
    assert_eq!(
        accepted(&"é".repeat(65)),
        Err(RecordError::MissingSessionId)
    );
    assert_eq!(accepted(""), Err(RecordError::MissingSessionId));
    assert_eq!(accepted("a\nb"), Err(RecordError::MissingSessionId));
    assert_eq!(accepted("a\u{85}b"), Err(RecordError::MissingSessionId));
    assert_eq!(accepted(" "), Ok(" ".to_string()));
}

#[test]
fn a_record_holds_the_hash_of_its_content() {
    let content = jsonl(&[
        metadata("a"),
        message("user", vec![part("input_text", "Question")]),
    ]);
    let record = parse_record(content.as_bytes()).unwrap();
    assert_eq!(
        record.hash,
        blake3::hash(content.as_bytes()).to_hex().to_string()
    );
    assert_eq!(record.hash.len(), 64);
    let longer = format!("{content}\n");
    let other = parse_record(longer.as_bytes()).unwrap();
    assert_ne!(record.hash, other.hash);
}

#[test]
fn records_are_dated_by_their_metadata_and_messages() {
    let record = parse_record(
        jsonl(&[
            metadata("a"),
            message("user", vec![part("input_text", "Question")]),
        ])
        .as_bytes(),
    )
    .unwrap();
    assert_eq!(record.created_at, "2025-05-05T05:05:05+02:00");
    assert_eq!(record.updated_at, "2025-05-06T00:00:00Z");
    assert_eq!(record.messages[0].timestamp, "2025-05-06T00:00:00Z");
    assert_eq!(record.messages[0].role, Role::User);
    assert_eq!(record.messages[0].role.as_str(), "user");
    assert_eq!(Role::Assistant.as_str(), "assistant");
}

#[test]
fn messages_before_the_metadata_are_dated_by_the_epoch() {
    let undated = object(&[
        ("type", text("response_item")),
        (
            "payload",
            payload("user", vec![part("input_text", "Question")]),
        ),
    ]);
    let record = parse_record(jsonl(&[undated, metadata("a")]).as_bytes()).unwrap();
    assert_eq!(record.messages[0].timestamp, "1970-01-01T00:00:00Z");
    assert_eq!(record.updated_at, "1970-01-01T00:00:00Z");
    assert_eq!(record.created_at, "2025-05-05T05:05:05+02:00");
}

#[test]
fn parts_are_joined_and_counted() {
    let record = parse_record(
        jsonl(&[
            metadata("a"),
            message(
                "user",
                vec![
                    part("input_text", "one"),
                    part("input_text", "  "),
                    part("tool_call", "secret"),
                    object(&[("text", text("untyped"))]),
                    object(&[("type", text("input_text"))]),
                    part("output_text", "two"),
                ],
            ),
            message("user", vec![part("reasoning", "secret")]),
            message(
                "assistant",
                vec![part("output_text", " "), part("output_text", "")],
            ),
        ])
        .as_bytes(),
    )
    .unwrap();
    assert_eq!(record.messages.len(), 2);
    assert_eq!(record.messages[0].content, "one\n\ntwo");
    assert_eq!(record.messages[1].content, " ");
    assert_eq!(record.messages[1].role, Role::Assistant);
    assert_eq!(record.unsupported_content, 2);
}

#[test]
fn hidden_entries_leave_no_trace_in_the_record() {
    let plain = jsonl(&[
        metadata("a"),
        message("user", vec![part("input_text", "Question")]),
    ]);
    let cluttered = jsonl(&[
        metadata("a"),
        object(&[("type", text("event_msg")), ("payload", text("secret"))]),
        text("just a string"),
        Value::Array(vec![Value::Null]),
        message("system", vec![part("input_text", "secret")]),
        object(&[
            ("type", text("response_item")),
            (
                "payload",
                object(&[
                    ("type", text("message")),
                    ("role", text("user")),
                    ("content", text("secret")),
                ]),
            ),
        ]),
        object(&[
            ("type", text("response_item")),
            (
                "payload",
                object(&[
                    ("type", text("function_call")),
                    ("role", text("user")),
                    (
                        "content",
                        Value::Array(vec![part("input_text", "secret")]),
                    ),
                ]),
            ),
        ]),
        message("user", vec![part("input_text", "Question")]),
    ]);
    let plain = parse_record(plain.as_bytes()).unwrap();
    let cluttered = parse_record(cluttered.as_bytes()).unwrap();
    assert_eq!(plain.messages.len(), cluttered.messages.len());
    assert_eq!(plain.messages[0].content, cluttered.messages[0].content);
    assert_eq!(plain.title, cluttered.title);
    assert_eq!(plain.unsupported_content, cluttered.unsupported_content);
    assert_ne!(plain.hash, cluttered.hash);
}

#[test]
fn files_that_differ_in_what_is_not_read_hold_the_same_record() {
    let plain = jsonl(&[
        metadata("a"),
        message("user", vec![part("input_text", "Question")]),
    ]);
    let decorated = jsonl(&[
        object(&[("type", text("event_msg"))]),
        object(&[
            ("type", text("session_meta")),
            ("timestamp", text("2025-05-05T05:05:05+02:00")),
            ("cwd", text("secret")),
            (
                "payload",
                object(&[("id", text("a")), ("base_instructions", text("secret"))]),
            ),
        ]),
        object(&[
            ("type", text("response_item")),
            ("timestamp", text("2025-05-06T00:00:00Z")),
            (
                "payload",
                object(&[
                    ("type", text("message")),
                    ("role", text("user")),
                    ("phase", text("secret")),
                    (
                        "content",
                        Value::Array(vec![object(&[
                            ("type", text("input_text")),
                            ("text", text("Question")),
                            ("annotations", text("secret")),
                        ])]),
                    ),
                ]),
            ),
        ]),
    ]);
    let a = parse_record(plain.as_bytes()).unwrap();
    let b = parse_record(format!("\n{decorated}\n \n").as_bytes()).unwrap();
    assert_eq!(a.source_id, b.source_id);
    assert_eq!(a.created_at, b.created_at);
    assert_eq!(a.updated_at, b.updated_at);
    assert_eq!(a.title, b.title);
    assert_eq!(a.messages.len(), 1);
    assert_eq!(b.messages.len(), 1);
    assert_eq!(a.messages[0].content, b.messages[0].content);
    assert_eq!(a.messages[0].timestamp, b.messages[0].timestamp);
    assert_eq!(a.unsupported_content, b.unsupported_content);
    assert_ne!(a.hash, b.hash);
}

#[test]
fn what_is_read_of_an_entry_goes_by_its_kind() {
    let contents = [
        jsonl(&[
            metadata("a"),
            message(
                "user",
                vec![
                    part(
                        "input_text",
                        "<environment_context>one</environment_context>\nQuestion",
                    ),
                    part("tool_call", "one"),
                ],
            ),
        ]),
        jsonl(&[
            object(&[
                ("type", text("session_meta")),
                ("timestamp", text("2025-05-05T05:05:05+02:00")),
                (
                    "payload",
                    object(&[
                        ("id", text("a")),
                        ("type", text("message")),
                        ("role", text("user")),
                        ("content", Value::Array(vec![part("input_text", "secret")])),
                    ]),
                ),
            ]),
            message("assistant", vec![part("output_text", "")]),
            object(&[
                ("type", text("response_item")),
                ("timestamp", text("2025-05-06T00:00:00Z")),
                (
                    "payload",
                    object(&[
                        ("id", text("other")),
                        ("type", text("message")),
                        ("role", text("user")),
                        (
                            "content",
                            Value::Array(vec![
                                part("tool_call", "two"),
                                part("input_text", " <environment_context>two</environment_context> Question"),
                                Value::Null,
                            ]),
                        ),
                    ]),
                ),
            ]),
        ]),
    ];
    let [a, b] = contents.map(|content| parse_record(content.as_bytes()).unwrap());
    for record in [&a, &b] {
        assert_eq!(record.source_id, "a");
        assert_eq!(record.created_at, "2025-05-05T05:05:05+02:00");
        assert_eq!(record.updated_at, "2025-05-06T00:00:00Z");
        assert_eq!(record.title, "Question");
        assert_eq!(record.messages.len(), 1);
        assert_eq!(record.messages[0].content, "Question");
        assert_eq!(record.unsupported_content, 1);
    }
    assert_ne!(a.hash, b.hash);
}

#[test]
fn a_transcript_reads_line_by_line_and_keeps_what_it_has() {
    let mut transcript = Transcript::new();
    transcript.read_line("").unwrap();
    transcript.read_line(&metadata("a").to_string()).unwrap();
    transcript
        .read_line(&message("user", vec![part("input_text", "one")]).to_string())
        .unwrap();
    assert_eq!(
        transcript.read_line("not json"),
        Err(RecordError::InvalidLine)
    );
    assert_eq!(
        transcript.read_line(&metadata("b").to_string()),
        Err(RecordError::DuplicateMetadata)
    );
    transcript
        .read_line(&message("assistant", vec![part("output_text", "two")]).to_string())
        .unwrap();
    let record = transcript.finish("digest".to_string()).unwrap();
    assert_eq!(record.source_id, "a");
    assert_eq!(record.hash, "digest");
    assert_eq!(record.messages.len(), 2);
    assert_eq!(record.messages[0].content, "one");
    assert_eq!(record.messages[1].content, "two");
}

#[test]
fn carriage_returns_end_lines_too() {
    let content = [
        metadata("a").to_string(),
        String::new(),
        message("user", vec![part("input_text", "Question")]).to_string(),
        String::new(),
    ]
    .join("\r\n");
    assert_eq!(parse_record(content.as_bytes()).unwrap().messages.len(), 1);
}

// ---------------------------------------------------------------------------
// Titles
// ---------------------------------------------------------------------------

fn said(role: Role, content: &str) -> ImportedMessage {
    ImportedMessage {
        role,
        content: content.to_string(),
        timestamp: "1970-01-01T00:00:00Z".to_string(),
    }
}

#[test]
fn titles_are_the_first_visible_line_of_a_user() {
    assert_eq!(
        conversation_title(&vec![
            said(Role::Assistant, "Hello"),
            said(Role::User, "\n   \n  What now?  \nmore"),
            said(Role::User, "later"),
        ]),
        "What now?"
    );
    assert_eq!(
        conversation_title(&vec![said(Role::Assistant, "Hello")]),
        "Codex conversation"
    );
    assert_eq!(
        conversation_title(&vec![said(Role::User, "  "), said(Role::User, "later")]),
        "Codex conversation"
    );
    assert_eq!(conversation_title(&vec![]), "Codex conversation");
}

#[test]
fn titles_have_at_most_eighty_characters() {
    assert_eq!(
        conversation_title(&vec![said(Role::User, &"é".repeat(81))]),
        "é".repeat(80)
    );
    assert_eq!(
        conversation_title(&vec![said(Role::User, &"é".repeat(80))]),
        "é".repeat(80)
    );
}

// ---------------------------------------------------------------------------
// Envelopes
// ---------------------------------------------------------------------------

#[test]
fn one_separator_is_stripped() {
    for (text, stripped) in [
        ("\r\nx", "x"),
        ("\nx", "x"),
        ("\n\nx", "\nx"),
        (" x", "x"),
        ("  x", "  x"),
        (" ", ""),
        ("\rx", "\rx"),
        ("\tx", "\tx"),
        ("x", "x"),
        ("", ""),
    ] {
        assert_eq!(strip_runtime_separator(text), stripped);
    }
}

#[test]
fn nothing_is_visible_of_blank_text_and_of_envelopes_alone() {
    for text in [
        "",
        " \n\t",
        "<environment_context></environment_context>",
        "  <recommended_plugins>a</recommended_plugins> <environment_context>b</environment_context> \n",
        "# AGENTS.md instructions for x<INSTRUCTIONS></INSTRUCTIONS>",
    ] {
        assert_eq!(visible_user_text(text), None);
    }
}

#[test]
fn one_separator_goes_with_an_envelope() {
    for (tail, visible) in [
        ("x", "x"),
        (" x", "x"),
        ("  x", "  x"),
        ("\nx", "x"),
        ("\n\nx", "\nx"),
        ("\r\n x", " x"),
        ("\tx", "\tx"),
    ] {
        for space in ["", " \n"] {
            let text = format!("{space}<environment_context>a</environment_context>{tail}");
            assert_eq!(visible_user_text(&text), Some(visible));
        }
    }
}

#[test]
fn instructions_need_both_tags() {
    assert_eq!(
        visible_user_text("# AGENTS.md instructions for x</INSTRUCTIONS>y"),
        Some("# AGENTS.md instructions for x</INSTRUCTIONS>y")
    );
    assert_eq!(
        visible_user_text("# AGENTS.md instructions for x</INSTRUCTIONS>y<INSTRUCTIONS>z"),
        Some("y<INSTRUCTIONS>z")
    );
}

#[test]
fn what_is_visible_is_visible_again() {
    for text in [
        "<environment_context>a</environment_context>b",
        "<environment_context>a</environment_context> <environment_context>b",
        " plain ",
    ] {
        let visible = visible_user_text(text).unwrap();
        assert!(text.ends_with(visible));
        assert_eq!(visible_user_text(visible), Some(visible));
    }
}

// ---------------------------------------------------------------------------
// Timestamps
// ---------------------------------------------------------------------------

#[test]
fn timestamps_are_kept_where_they_are_valid() {
    assert_eq!(
        normalized_timestamp(Some("2024-02-29T23:59:59.5+05:30"), "f"),
        "2024-02-29T23:59:59.5+05:30"
    );
    assert_eq!(normalized_timestamp(Some("2023-02-29T00:00:00Z"), "f"), "f");
    assert_eq!(normalized_timestamp(Some("2024-02-29"), "f"), "f");
    assert_eq!(normalized_timestamp(Some(""), "f"), "f");
    assert_eq!(normalized_timestamp(None, "f"), "f");
    assert_eq!(choose_timestamp(Some("a"), true, "f"), "a");
    assert_eq!(choose_timestamp(Some("a"), false, "f"), "f");
    assert_eq!(choose_timestamp(None, true, "f"), "f");
}
