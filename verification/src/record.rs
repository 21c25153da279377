//! Codex session files as read-only conversations.
//!
//! A session file is JSONL: one JSON entry on each line. Only the visible text
//! of user and assistant messages is taken from it; no credentials,
//! instructions, reasoning or tool payloads are.

use vstd::prelude::*;
use vstd::utf8::*;
use crate::envelope;
use crate::json::{Json, JsonModel};
use crate::json;
use crate::json_text;
use crate::report;
use crate::text;
use crate::timestamp;
use crate::timestamp::EPOCH_TIMESTAMP;

verus! {

/// The longest line that is read, in bytes.
pub const MAX_LINE_BYTES: usize = 4194304;

/// The longest session id that is accepted, in bytes.
pub const MAX_ID_BYTES: usize = 128;

/// The longest title, in characters.
pub const MAX_TITLE_CHARS: usize = 80;

/// The title of a conversation whose messages give none.
pub const DEFAULT_TITLE: &'static str = "Codex conversation";

/// Why a session file holds no record.
#[derive(Debug, Clone, Copy, PartialEq, Eq, Structural)]
pub enum RecordError {
    NotUtf8,
    LineTooLong,
    InvalidLine,
    DuplicateMetadata,
    MissingSessionId,
    NoVisibleMessages,
}

impl RecordError {
    /// What the error says.
    pub open spec fn said(self) -> Seq<char> {
        match self {
            RecordError::NotUtf8 => "JSONL is not UTF-8"@,
            RecordError::LineTooLong => "JSONL line exceeds the import limit"@,
            RecordError::InvalidLine => "invalid JSONL line"@,
            RecordError::DuplicateMetadata => "duplicate session metadata"@,
            RecordError::MissingSessionId => "missing Codex session ID"@,
            RecordError::NoVisibleMessages => "no visible messages"@,
        }
    }

    /// What the error says.
    pub fn message(&self) -> (r: &'static str)
        ensures
            r@ == self.said(),
    {
        match self {
            RecordError::NotUtf8 => "JSONL is not UTF-8",
            RecordError::LineTooLong => "JSONL line exceeds the import limit",
            RecordError::InvalidLine => "invalid JSONL line",
            RecordError::DuplicateMetadata => "duplicate session metadata",
            RecordError::MissingSessionId => "missing Codex session ID",
            RecordError::NoVisibleMessages => "no visible messages",
        }
    }
}

/// Who wrote a message.
#[derive(Debug, Clone, Copy, PartialEq, Eq, Structural)]
pub enum Role {
    User,
    Assistant,
}

impl Role {
    /// The name of the role.
    pub open spec fn name(self) -> Seq<char> {
        match self {
            Role::User => "user"@,
            Role::Assistant => "assistant"@,
        }
    }

    /// The name of the role.
    pub fn as_str(&self) -> (r: &'static str)
        ensures
            r@ == self.name(),
    {
        match self {
            Role::User => "user",
            Role::Assistant => "assistant",
        }
    }
}

/// A visible message.
#[derive(Debug)]
pub struct ImportedMessage {
    pub role: Role,
    pub content: String,
    pub timestamp: String,
}

/// What a message holds.
#[verifier::ext_equal]
pub struct MessageModel {
    pub role: Role,
    pub content: Seq<char>,
    pub timestamp: Seq<char>,
}

impl View for ImportedMessage {
    type V = MessageModel;

    open spec fn view(&self) -> MessageModel {
        MessageModel { role: self.role, content: self.content@, timestamp: self.timestamp@ }
    }
}

/// What the messages hold.
pub open spec fn messages_model(messages: Seq<ImportedMessage>) -> Seq<MessageModel> {
    messages.map_values(|message: ImportedMessage| message@)
}

/// The conversation in a session file.
#[derive(Debug)]
pub struct ImportedRecord {
    pub source_id: String,
    pub created_at: String,
    pub updated_at: String,
    pub title: String,
    pub messages: Vec<ImportedMessage>,
    pub hash: String,
    pub unsupported_content: usize,
}

/// What a record holds.
#[verifier::ext_equal]
pub struct RecordModel {
    pub source_id: Seq<char>,
    pub created_at: Seq<char>,
    pub updated_at: Seq<char>,
    pub title: Seq<char>,
    pub messages: Seq<MessageModel>,
    pub hash: Seq<char>,
    pub unsupported_content: nat,
}

impl View for ImportedRecord {
    type V = RecordModel;

    open spec fn view(&self) -> RecordModel {
        RecordModel {
            source_id: self.source_id@,
            created_at: self.created_at@,
            updated_at: self.updated_at@,
            title: self.title@,
            messages: messages_model(self.messages@),
            hash: self.hash@,
            unsupported_content: self.unsupported_content as nat,
        }
    }
}

/// What has been read of a session file so far.
#[derive(Debug)]
pub struct Transcript {
    pub source_id: Option<String>,
    pub seen_metadata: bool,
    pub created_at: Option<String>,
    pub messages: Vec<ImportedMessage>,
    pub unsupported_content: usize,
    pub last_timestamp: Option<String>,
}

/// What a transcript holds.
#[verifier::ext_equal]
pub struct TranscriptModel {
    pub source_id: Option<Seq<char>>,
    pub seen_metadata: bool,
    pub created_at: Option<Seq<char>>,
    pub messages: Seq<MessageModel>,
    pub unsupported_content: nat,
    pub last_timestamp: Option<Seq<char>>,
}

impl View for Transcript {
    type V = TranscriptModel;

    open spec fn view(&self) -> TranscriptModel {
        TranscriptModel {
            source_id: text::optional_chars(self.source_id),
            seen_metadata: self.seen_metadata,
            created_at: text::optional_chars(self.created_at),
            messages: messages_model(self.messages@),
            unsupported_content: self.unsupported_content as nat,
            last_timestamp: text::optional_chars(self.last_timestamp),
        }
    }
}

/// A transcript of nothing.
pub open spec fn nothing_read() -> TranscriptModel {
    TranscriptModel {
        source_id: None,
        seen_metadata: false,
        created_at: None,
        messages: Seq::empty(),
        unsupported_content: 0,
        last_timestamp: None,
    }
}

// ---------------------------------------------------------------------------
// The parts of a message
// ---------------------------------------------------------------------------

/// Whether a content part of type `kind` holds text.
pub open spec fn text_kind(kind: Seq<char>) -> bool {
    kind == "input_text"@ || kind == "output_text"@
}

/// What is shown of a text that `role` wrote: all of it, but for the runtime
/// envelopes in front of what a user wrote; nothing where nothing is left.
pub open spec fn shown(role: Role, chars: Seq<char>) -> Option<Seq<char>> {
    match role {
        Role::User => if text::blank(envelope::past_envelopes(chars)) {
            None
        } else {
            Some(envelope::past_envelopes(chars))
        },
        Role::Assistant => if chars.len() == 0 {
            None
        } else {
            Some(chars)
        },
    }
}

/// The text that `part` of a message by `role` shows, if it shows one.
pub open spec fn visible_part(role: Role, part: JsonModel) -> Option<Seq<char>> {
    match part.member("type"@).text() {
        Some(kind) => if text_kind(kind) {
            match part.member("text"@).text() {
                Some(chars) => shown(role, chars),
                None => None,
            }
        } else {
            None
        },
        None => None,
    }
}

/// Whether `part` is of a type that is not imported.
pub open spec fn unsupported_part(part: JsonModel) -> bool {
    part.member("type"@).text() matches Some(kind) && !text_kind(kind)
}

/// The texts that `parts` of a message by `role` show, in their order.
pub open spec fn visible_parts(role: Role, parts: Seq<JsonModel>) -> Seq<Seq<char>>
    decreases parts.len(),
{
    if parts.len() == 0 {
        Seq::empty()
    } else {
        let before = visible_parts(role, parts.drop_last());
        match visible_part(role, parts.last()) {
            Some(chars) => before.push(chars),
            None => before,
        }
    }
}

/// How many of `parts` are of a type that is not imported.
pub open spec fn unsupported_parts(parts: Seq<JsonModel>) -> nat
    decreases parts.len(),
{
    if parts.len() == 0 {
        0
    } else {
        unsupported_parts(parts.drop_last()) + if unsupported_part(parts.last()) {
            1nat
        } else {
            0nat
        }
    }
}

/// The text that `part` of a message by `role` shows.
fn show_part(role: Role, part: &Json) -> (r: Option<&str>)
    ensures
        match r {
            Some(chars) => visible_part(role, part@) == Some(chars@),
            None => visible_part(role, part@) is None,
        },
{
    let Some(kind) = part.get_str("type") else {
        return None;
    };
    if !is_text_kind(kind) {
        return None;
    }
    let Some(chars) = part.get_str("text") else {
        return None;
    };
    match role {
        Role::User => envelope::visible_user_text(chars),
        Role::Assistant => if chars.is_empty() {
            None
        } else {
            Some(chars)
        },
    }
}

/// Whether a content part of type `kind` holds text.
fn is_text_kind(kind: &str) -> (r: bool)
    ensures
        r == text_kind(kind@),
{
    text::str_eq(kind, "input_text") || text::str_eq(kind, "output_text")
}

/// Whether `part` is of a type that is not imported.
fn is_unsupported(part: &Json) -> (r: bool)
    ensures
        r == unsupported_part(part@),
{
    match part.get_str("type") {
        Some(kind) => !is_text_kind(kind),
        None => false,
    }
}

/// The texts that `parts` of a message by `role` show, one behind the other,
/// if any of them shows one; and `count` with those added that are of a type
/// that is not imported.
fn show_parts(role: Role, parts: &Vec<Json>, count: usize) -> (r: (Option<String>, usize))
    ensures
        ({
            let models = json::items_model(parts@);
            let shown = visible_parts(role, models);
            &&& match r.0 {
                Some(content) => shown.len() > 0 && content@ == text::joined(shown, "\n\n"@),
                None => shown.len() == 0,
            }
            &&& r.1 == report::counted(count as nat, unsupported_parts(models))
        }),
{
    let mut found: Vec<&str> = Vec::new();
    let mut unsupported: usize = count;
    let ghost models = json::items_model(parts@);
    let mut i: usize = 0;
    while i < parts.len()
        invariant
            i <= parts@.len(),
            models == json::items_model(parts@),
            text::views(found@) == visible_parts(role, models.take(i as int)),
            unsupported == report::counted(count as nat, unsupported_parts(models.take(i as int))),
        decreases parts@.len() - i,
    {
        let part = &parts[i];
        proof {
            assert(models.take(i + 1).drop_last() =~= models.take(i as int));
            assert(models.take(i + 1).last() == part@);
        }
        let ghost before = found@;
        if let Some(chars) = show_part(role, part) {
            found.push(chars);
            assert(text::views(found@) =~= text::views(before).push(chars@));
        }
        if is_unsupported(part) {
            unsupported = unsupported.saturating_add(1);
        }
        i += 1;
    }
    assert(models.take(i as int) =~= models);
    if found.is_empty() {
        (None, unsupported)
    } else {
        (Some(text::join(&found, "\n\n")), unsupported)
    }
}

// ---------------------------------------------------------------------------
// Entries
// ---------------------------------------------------------------------------

/// What an entry is to the import.
pub enum EntryKind {
    /// The metadata of the session.
    Metadata,
    /// A message that a user or an assistant wrote.
    Message(Role),
    /// Anything else.
    Hidden,
}

/// The role called `name`, where its messages are imported.
pub open spec fn role_named(name: Seq<char>) -> Option<Role> {
    if name == "user"@ {
        Some(Role::User)
    } else if name == "assistant"@ {
        Some(Role::Assistant)
    } else {
        None
    }
}

/// What `entry` is to the import. A message counts as one only where it has a
/// list of content parts.
pub open spec fn entry_kind(entry: JsonModel) -> EntryKind {
    let payload = entry.member("payload"@);
    if entry.member("type"@).text() == Some("session_meta"@) {
        EntryKind::Metadata
    } else if entry.member("type"@).text() == Some("response_item"@) && payload.member(
        "type"@,
    ).text() == Some("message"@) {
        match payload.member("role"@).text() {
            Some(name) => match role_named(name) {
                Some(role) => if payload.member("content"@).items() is Some {
                    EntryKind::Message(role)
                } else {
                    EntryKind::Hidden
                },
                None => EntryKind::Hidden,
            },
            None => EntryKind::Hidden,
        }
    } else {
        EntryKind::Hidden
    }
}

/// Whether `id` can be the id of a session: some characters, not too many, and
/// no control characters.
pub open spec fn acceptable_id(id: Seq<char>) -> bool {
    &&& id.len() > 0
    &&& encode_utf8(id).len() <= MAX_ID_BYTES
    &&& forall|i: int| 0 <= i < id.len() ==> !text::control(#[trigger] id[i])
}

/// The session id in the metadata `entry`, where it can be one.
pub open spec fn metadata_id(entry: JsonModel) -> Option<Seq<char>> {
    match entry.member("payload"@).member("id"@).text() {
        Some(id) => if acceptable_id(id) {
            Some(id)
        } else {
            None
        },
        None => None,
    }
}

/// The timestamp that an entry of kind `kind` gets where its own is not valid:
/// for a message, that of the message before it, or that of the session.
pub open spec fn fallback(so_far: TranscriptModel, kind: EntryKind) -> Seq<char> {
    match kind {
        EntryKind::Metadata => EPOCH_TIMESTAMP@,
        _ => match so_far.last_timestamp {
            Some(last) => last,
            None => match so_far.created_at {
                Some(created) => created,
                None => EPOCH_TIMESTAMP@,
            },
        },
    }
}

/// A transcript with `entry` read into it, whose timestamp is `stamp`.
pub open spec fn absorbed(
    so_far: TranscriptModel,
    entry: JsonModel,
    stamp: Seq<char>,
) -> Result<TranscriptModel, RecordError> {
    match entry_kind(entry) {
        EntryKind::Hidden => Ok(so_far),
        EntryKind::Metadata => if so_far.seen_metadata {
            Err(RecordError::DuplicateMetadata)
        } else {
            Ok(
                TranscriptModel {
                    seen_metadata: true,
                    source_id: metadata_id(entry),
                    created_at: Some(stamp),
                    ..so_far
                },
            )
        },
        EntryKind::Message(role) => {
            let parts = entry.member("payload"@).member("content"@).items()->0;
            let shown = visible_parts(role, parts);
            let unsupported_content = report::counted(
                so_far.unsupported_content,
                unsupported_parts(parts),
            );
            if shown.len() == 0 {
                Ok(TranscriptModel { unsupported_content, ..so_far })
            } else {
                Ok(
                    TranscriptModel {
                        unsupported_content,
                        messages: so_far.messages.push(
                            MessageModel {
                                role,
                                content: text::joined(shown, "\n\n"@),
                                timestamp: stamp,
                            },
                        ),
                        last_timestamp: Some(stamp),
                        ..so_far
                    },
                )
            }
        },
    }
}

/// The timestamp of `entry`: its own where that is valid.
pub open spec fn entry_timestamp(so_far: TranscriptModel, entry: JsonModel) -> Seq<char> {
    timestamp::normalized(
        entry.member("timestamp"@).text(),
        fallback(so_far, entry_kind(entry)),
    )
}

/// A transcript with `line` read into it. Blank lines are passed over.
pub open spec fn line_read(so_far: TranscriptModel, line: Seq<char>) -> Result<
    TranscriptModel,
    RecordError,
> {
    if encode_utf8(line).len() > MAX_LINE_BYTES {
        Err(RecordError::LineTooLong)
    } else if text::blank(line) {
        Ok(so_far)
    } else {
        match json_text::read_json(line) {
            None => Err(RecordError::InvalidLine),
            Some(entry) => absorbed(so_far, entry, entry_timestamp(so_far, entry)),
        }
    }
}

/// A transcript with `lines` read into it, one after the other, up to the first
/// that gives an error.
pub open spec fn lines_read(so_far: TranscriptModel, lines: Seq<Seq<char>>) -> Result<
    TranscriptModel,
    RecordError,
>
    decreases lines.len(),
{
    if lines.len() == 0 {
        Ok(so_far)
    } else {
        match line_read(so_far, lines[0]) {
            Ok(next) => lines_read(next, lines.drop_first()),
            Err(error) => Err(error),
        }
    }
}

/// What `entry` is to the import, and the content parts of a message.
fn classify(entry: &Json) -> (r: (EntryKind, Option<&Vec<Json>>))
    ensures
        r.0 == entry_kind(entry@),
        r.0 is Message ==> r.1 is Some,
        r.1 matches Some(parts) ==> entry@.member("payload"@).member("content"@).items() == Some(
            json::items_model(parts@),
        ),
{
    let Some(kind) = entry.get_str("type") else {
        return (EntryKind::Hidden, None);
    };
    if text::str_eq(kind, "session_meta") {
        return (EntryKind::Metadata, None);
    }
    if !text::str_eq(kind, "response_item") {
        return (EntryKind::Hidden, None);
    }
    let Some(payload) = entry.get("payload") else {
        return (EntryKind::Hidden, None);
    };
    match payload.get_str("type") {
        Some(payload_kind) if text::str_eq(payload_kind, "message") => {},
        _ => {
            return (EntryKind::Hidden, None);
        },
    }
    let Some(name) = payload.get_str("role") else {
        return (EntryKind::Hidden, None);
    };
    let role = if text::str_eq(name, "user") {
        Role::User
    } else if text::str_eq(name, "assistant") {
        Role::Assistant
    } else {
        return (EntryKind::Hidden, None);
    };
    let Some(content) = payload.get("content") else {
        return (EntryKind::Hidden, None);
    };
    match content.as_array() {
        Some(parts) => (EntryKind::Message(role), Some(parts)),
        None => (EntryKind::Hidden, None),
    }
}

/// The session id in the metadata `entry`, where it can be one.
fn read_metadata_id(entry: &Json) -> (r: Option<String>)
    ensures
        text::optional_chars(r) == metadata_id(entry@),
{
    let Some(payload) = entry.get("payload") else {
        return None;
    };
    let Some(id) = payload.get_str("id") else {
        return None;
    };
    if id.is_empty() || text::byte_len(id) > MAX_ID_BYTES || text::has_control(id) {
        return None;
    }
    Some(id.to_owned())
}

impl Transcript {
    /// A transcript of nothing.
    pub fn new() -> (r: Self)
        ensures
            r@ == nothing_read(),
    {
        let r = Transcript {
            source_id: None,
            seen_metadata: false,
            created_at: None,
            messages: Vec::new(),
            unsupported_content: 0,
            last_timestamp: None,
        };
        assert(r@.messages =~= Seq::empty());
        r
    }

    /// The timestamp that `entry` gets where its own is not valid.
    pub fn fallback_timestamp(&self, entry: &Json) -> (r: &str)
        ensures
            r@ == fallback(self@, entry_kind(entry@)),
    {
        if let EntryKind::Metadata = classify(entry).0 {
            return EPOCH_TIMESTAMP;
        }
        match &self.last_timestamp {
            Some(last) => last.as_str(),
            None => match &self.created_at {
                Some(created) => created.as_str(),
                None => EPOCH_TIMESTAMP,
            },
        }
    }

    /// Reads `entry`, whose timestamp is `stamp`. On an error nothing changes.
    pub fn absorb(&mut self, entry: &Json, stamp: String) -> (r: Result<(), RecordError>)
        ensures
            match absorbed(old(self)@, entry@, stamp@) {
                Ok(next) => r is Ok && final(self)@ == next,
                Err(error) => r == Err::<(), RecordError>(error) && final(self)@ == old(self)@,
            },
    {
        match classify(entry) {
            (EntryKind::Metadata, _) => {
                if self.seen_metadata {
                    return Err(RecordError::DuplicateMetadata);
                }
                self.seen_metadata = true;
                self.source_id = read_metadata_id(entry);
                self.created_at = Some(stamp);
                Ok(())
            },
            (EntryKind::Message(role), Some(parts)) => {
                let (content, unsupported) = show_parts(role, parts, self.unsupported_content);
                self.unsupported_content = unsupported;
                let Some(content) = content else {
                    return Ok(());
                };
                let ghost before = self.messages@;
                let ghost stamped = stamp@;
                let ghost said = content@;
                self.last_timestamp = Some(stamp.clone());
                self.messages.push(ImportedMessage { role, content, timestamp: stamp });
                proof {
                    assert(messages_model(self.messages@) =~= messages_model(before).push(
                        MessageModel { role, content: said, timestamp: stamped },
                    ));
                }
                Ok(())
            },
            _ => Ok(()),
        }
    }

    /// Reads `line`. On an error nothing changes.
    pub fn read_line(&mut self, line: &str) -> (r: Result<(), RecordError>)
        ensures
            match line_read(old(self)@, line@) {
                Ok(next) => r is Ok && final(self)@ == next,
                Err(error) => r == Err::<(), RecordError>(error) && final(self)@ == old(self)@,
            },
    {
        if text::byte_len(line) > MAX_LINE_BYTES {
            return Err(RecordError::LineTooLong);
        }
        if text::is_blank(line) {
            return Ok(());
        }
        let Ok(entry) = json_text::parse_json(line) else {
            return Err(RecordError::InvalidLine);
        };
        let stamp = timestamp::normalized_timestamp(
            entry.get_str("timestamp"),
            self.fallback_timestamp(&entry),
        );
        self.absorb(&entry, stamp)
    }
}

/// Reads `lines` up to the first that gives an error.
fn read_lines(lines: &Vec<&str>) -> (r: Result<Transcript, RecordError>)
    ensures
        match r {
            Ok(transcript) => lines_read(nothing_read(), text::views(lines@)) == Ok::<
                TranscriptModel,
                RecordError,
            >(transcript@),
            Err(error) => lines_read(nothing_read(), text::views(lines@)) == Err::<
                TranscriptModel,
                RecordError,
            >(error),
        },
{
    let mut transcript = Transcript::new();
    let ghost all = text::views(lines@);
    let mut i: usize = 0;
    assert(all.skip(0) =~= all);
    while i < lines.len()
        invariant
            i <= lines@.len(),
            all == text::views(lines@),
            lines_read(nothing_read(), all) == lines_read(transcript@, all.skip(i as int)),
        decreases lines@.len() - i,
    {
        assert(all.skip(i as int)[0] == lines@[i as int]@);
        assert(all.skip(i as int).drop_first() =~= all.skip(i + 1));
        transcript.read_line(lines[i])?;
        i += 1;
    }
    Ok(transcript)
}

// ---------------------------------------------------------------------------
// Records
// ---------------------------------------------------------------------------

/// The first of `lines` that is not blank; nothing where there is none.
pub open spec fn first_visible(lines: Seq<Seq<char>>) -> Seq<char>
    decreases lines.len(),
{
    if lines.len() == 0 {
        Seq::empty()
    } else if !text::blank(lines[0]) {
        lines[0]
    } else {
        first_visible(lines.drop_first())
    }
}

/// What the first message of a user is headed with; `None` where there is no
/// such message.
pub open spec fn user_headline(messages: Seq<MessageModel>) -> Option<Seq<char>>
    decreases messages.len(),
{
    if messages.len() == 0 {
        None
    } else if messages[0].role == Role::User {
        Some(first_visible(text::lines(messages[0].content)))
    } else {
        user_headline(messages.drop_first())
    }
}

/// The title of a conversation.
pub open spec fn titled(messages: Seq<MessageModel>) -> Seq<char> {
    let headline = match user_headline(messages) {
        Some(line) => line,
        None => DEFAULT_TITLE@,
    };
    let title = text::at_most(text::trimmed(headline), MAX_TITLE_CHARS as nat);
    if title.len() == 0 {
        DEFAULT_TITLE@
    } else {
        title
    }
}

/// The record of a file that was read as `transcript` and whose content has the
/// hash `hash`.
pub open spec fn finished(transcript: TranscriptModel, hash: Seq<char>) -> Result<
    RecordModel,
    RecordError,
> {
    match transcript.source_id {
        None => Err(RecordError::MissingSessionId),
        Some(source_id) => if transcript.messages.len() == 0 {
            Err(RecordError::NoVisibleMessages)
        } else {
            let created_at = match transcript.created_at {
                Some(created) => created,
                None => EPOCH_TIMESTAMP@,
            };
            Ok(
                RecordModel {
                    source_id,
                    created_at,
                    updated_at: match transcript.last_timestamp {
                        Some(last) => last,
                        None => created_at,
                    },
                    title: titled(transcript.messages),
                    messages: transcript.messages,
                    hash,
                    unsupported_content: transcript.unsupported_content,
                },
            )
        },
    }
}

/// The lowercase hexadecimal digits of `blake3::hash` of `bytes`.
pub uninterp spec fn blake3_hex(bytes: Seq<u8>) -> Seq<char>;

/// The record in a file with the content `bytes`.
pub open spec fn recorded(bytes: Seq<u8>) -> Result<RecordModel, RecordError> {
    if !valid_utf8(bytes) {
        Err(RecordError::NotUtf8)
    } else {
        match lines_read(nothing_read(), text::lines(decode_utf8(bytes))) {
            Ok(transcript) => finished(transcript, blake3_hex(bytes)),
            Err(error) => Err(error),
        }
    }
}

/// Calls `blake3::hash`, and `to_hex` of the hash. Claimed of them: the digits
/// depend on the bytes alone, and [`blake3_hex`] names them.
#[verifier::external_body]
fn content_hash(bytes: &[u8]) -> (r: String)
    ensures
        r@ == blake3_hex(bytes@),
{
    blake3::hash(bytes).to_hex().to_string()
}

/// The first of `lines` that is not blank.
fn find_first_visible<'a>(lines: &Vec<&'a str>) -> (r: &'a str)
    ensures
        r@ == first_visible(text::views(lines@)),
{
    let ghost all = text::views(lines@);
    let mut i: usize = 0;
    assert(all.skip(0) =~= all);
    while i < lines.len()
        invariant
            i <= lines@.len(),
            all == text::views(lines@),
            first_visible(all) == first_visible(all.skip(i as int)),
        decreases lines@.len() - i,
    {
        assert(all.skip(i as int)[0] == lines@[i as int]@);
        assert(all.skip(i as int).drop_first() =~= all.skip(i + 1));
        if !text::is_blank(lines[i]) {
            return lines[i];
        }
        i += 1;
    }
    proof {
        reveal_strlit("");
        assert(""@ =~= Seq::empty());
    }
    ""
}

/// What the first message of a user is headed with.
fn find_user_headline(messages: &Vec<ImportedMessage>) -> (r: Option<&str>)
    ensures
        match r {
            Some(line) => user_headline(messages_model(messages@)) == Some(line@),
            None => user_headline(messages_model(messages@)) is None,
        },
{
    let ghost all = messages_model(messages@);
    let mut i: usize = 0;
    assert(all.skip(0) =~= all);
    while i < messages.len()
        invariant
            i <= messages@.len(),
            all == messages_model(messages@),
            user_headline(all) == user_headline(all.skip(i as int)),
        decreases messages@.len() - i,
    {
        assert(all.skip(i as int)[0] == messages@[i as int]@);
        assert(all.skip(i as int).drop_first() =~= all.skip(i + 1));
        if messages[i].role == Role::User {
            let lines = text::split_lines(messages[i].content.as_str());
            return Some(find_first_visible(&lines));
        }
        i += 1;
    }
    None
}

/// The title of a conversation: the first visible line that a user wrote.
pub fn conversation_title(messages: &Vec<ImportedMessage>) -> (r: String)
    ensures
        r@ == titled(messages_model(messages@)),
{
    let headline = match find_user_headline(messages) {
        Some(line) => line,
        None => DEFAULT_TITLE,
    };
    let title = text::take_chars(text::trim(headline), MAX_TITLE_CHARS);
    if title.is_empty() {
        DEFAULT_TITLE.to_owned()
    } else {
        title.to_owned()
    }
}

impl Transcript {
    /// The record of the file that was read, whose content has the hash `hash`.
    pub fn finish(self, hash: String) -> (r: Result<ImportedRecord, RecordError>)
        ensures
            match r {
                Ok(record) => finished(self@, hash@) == Ok::<RecordModel, RecordError>(record@),
                Err(error) => finished(self@, hash@) == Err::<RecordModel, RecordError>(error),
            },
    {
        let Some(source_id) = self.source_id else {
            return Err(RecordError::MissingSessionId);
        };
        if self.messages.is_empty() {
            return Err(RecordError::NoVisibleMessages);
        }
        let created_at = match self.created_at {
            Some(created) => created,
            None => EPOCH_TIMESTAMP.to_owned(),
        };
        let updated_at = match self.last_timestamp {
            Some(last) => last,
            None => created_at.clone(),
        };
        Ok(
            ImportedRecord {
                source_id,
                created_at,
                updated_at,
                title: conversation_title(&self.messages),
                messages: self.messages,
                hash,
                unsupported_content: self.unsupported_content,
            },
        )
    }
}

/// Reads the record in a session file with the content `bytes`.
pub fn parse_record(bytes: &[u8]) -> (r: Result<ImportedRecord, RecordError>)
    ensures
        match r {
            Ok(record) => recorded(bytes@) == Ok::<RecordModel, RecordError>(record@),
            Err(error) => recorded(bytes@) == Err::<RecordModel, RecordError>(error),
        },
{
    let Some(chars) = text::decode(bytes) else {
        return Err(RecordError::NotUtf8);
    };
    let transcript = read_lines(&text::split_lines(chars))?;
    transcript.finish(content_hash(bytes))
}

} // verus!
