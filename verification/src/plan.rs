//! What an import writes to the session ledger.
//!
//! The ledger knows each imported session by its source id, with the hash of
//! the content that was imported last. A record whose content has not changed
//! writes nothing; a changed one replaces the messages of its session.

use vstd::prelude::*;
use crate::record::{ImportedMessage, ImportedRecord, MessageModel, RecordModel, Role};
use crate::record;
use crate::report::ImportOutcome;
use crate::text;

verus! {

/// Where a session comes from.
#[derive(Debug)]
pub struct SessionOrigin {
    pub kind: String,
    pub id: String,
    pub label: String,
}

/// What an origin says.
#[verifier::ext_equal]
pub struct OriginModel {
    pub kind: Seq<char>,
    pub id: Seq<char>,
    pub label: Seq<char>,
}

impl View for SessionOrigin {
    type V = OriginModel;

    open spec fn view(&self) -> OriginModel {
        OriginModel { kind: self.kind@, id: self.id@, label: self.label@ }
    }
}

/// The origin of the Codex session `id`.
pub open spec fn codex_origin_of(id: Seq<char>) -> OriginModel {
    OriginModel { kind: "codex"@, id, label: "Codex"@ }
}

/// One write to the ledger. The writes of an import happen together or not at
/// all.
#[derive(Debug)]
pub enum LedgerWrite {
    /// Removes the messages of the session.
    DeleteMessages { session_id: String },
    /// Brings the session up to date: its title, unless it was named by hand,
    /// its time and its origin; what was derived from its messages is dropped.
    UpdateSession { session_id: String, title: String, updated_at: String, origin: SessionOrigin },
    /// Makes the session.
    InsertSession {
        session_id: String,
        title: String,
        created_at: String,
        updated_at: String,
        origin: SessionOrigin,
    },
    /// Notes the source of a new session.
    InsertSource { source_id: String, session_id: String, content_hash: String, imported_at: String },
    /// Puts a message behind those of the session.
    InsertMessage { session_id: String, role: Role, content: String, timestamp: String },
    /// Marks the session as read up to the message that was inserted last.
    MarkRead { session_id: String },
    /// Notes the new content of a known source.
    UpdateSource { source_id: String, content_hash: String, imported_at: String },
}

/// What a write says.
#[verifier::ext_equal]
pub enum WriteModel {
    DeleteMessages { session_id: Seq<char> },
    UpdateSession {
        session_id: Seq<char>,
        title: Seq<char>,
        updated_at: Seq<char>,
        origin: OriginModel,
    },
    InsertSession {
        session_id: Seq<char>,
        title: Seq<char>,
        created_at: Seq<char>,
        updated_at: Seq<char>,
        origin: OriginModel,
    },
    InsertSource {
        source_id: Seq<char>,
        session_id: Seq<char>,
        content_hash: Seq<char>,
        imported_at: Seq<char>,
    },
    InsertMessage { session_id: Seq<char>, message: MessageModel },
    MarkRead { session_id: Seq<char> },
    UpdateSource { source_id: Seq<char>, content_hash: Seq<char>, imported_at: Seq<char> },
}

impl View for LedgerWrite {
    type V = WriteModel;

    open spec fn view(&self) -> WriteModel {
        match self {
            LedgerWrite::DeleteMessages { session_id } => WriteModel::DeleteMessages {
                session_id: session_id@,
            },
            LedgerWrite::UpdateSession {
                session_id,
                title,
                updated_at,
                origin,
            } => WriteModel::UpdateSession {
                session_id: session_id@,
                title: title@,
                updated_at: updated_at@,
                origin: origin@,
            },
            LedgerWrite::InsertSession {
                session_id,
                title,
                created_at,
                updated_at,
                origin,
            } => WriteModel::InsertSession {
                session_id: session_id@,
                title: title@,
                created_at: created_at@,
                updated_at: updated_at@,
                origin: origin@,
            },
            LedgerWrite::InsertSource {
                source_id,
                session_id,
                content_hash,
                imported_at,
            } => WriteModel::InsertSource {
                source_id: source_id@,
                session_id: session_id@,
                content_hash: content_hash@,
                imported_at: imported_at@,
            },
            LedgerWrite::InsertMessage {
                session_id,
                role,
                content,
                timestamp,
            } => WriteModel::InsertMessage {
                session_id: session_id@,
                message: MessageModel { role: *role, content: content@, timestamp: timestamp@ },
            },
            LedgerWrite::MarkRead { session_id } => WriteModel::MarkRead {
                session_id: session_id@,
            },
            LedgerWrite::UpdateSource {
                source_id,
                content_hash,
                imported_at,
            } => WriteModel::UpdateSource {
                source_id: source_id@,
                content_hash: content_hash@,
                imported_at: imported_at@,
            },
        }
    }
}

/// What writes say.
pub open spec fn writes_model(writes: Seq<LedgerWrite>) -> Seq<WriteModel> {
    writes.map_values(|write: LedgerWrite| write@)
}

/// What the ledger knows of a source: the session and the hash of the content.
#[derive(Debug)]
pub struct KnownSource {
    pub session_id: String,
    pub content_hash: String,
}

/// What is known of a source.
#[verifier::ext_equal]
pub struct SourceModel {
    pub session_id: Seq<char>,
    pub content_hash: Seq<char>,
}

impl View for KnownSource {
    type V = SourceModel;

    open spec fn view(&self) -> SourceModel {
        SourceModel { session_id: self.session_id@, content_hash: self.content_hash@ }
    }
}

/// What is known of a source, if anything is.
pub open spec fn known(existing: Option<KnownSource>) -> Option<SourceModel> {
    match existing {
        Some(source) => Some(source@),
        None => None,
    }
}

/// What the import of a record writes, and what it is reported as.
#[derive(Debug)]
pub struct ImportPlan {
    pub outcome: ImportOutcome,
    pub writes: Vec<LedgerWrite>,
}

/// What a plan holds.
#[verifier::ext_equal]
pub struct PlanModel {
    pub outcome: ImportOutcome,
    pub writes: Seq<WriteModel>,
}

impl View for ImportPlan {
    type V = PlanModel;

    open spec fn view(&self) -> PlanModel {
        PlanModel { outcome: self.outcome, writes: writes_model(self.writes@) }
    }
}

/// What the import of a record comes to, by what is known of its source.
pub open spec fn outcome_of(existing: Option<SourceModel>, hash: Seq<char>) -> ImportOutcome {
    match existing {
        None => ImportOutcome::Created,
        Some(source) => if source.content_hash == hash {
            ImportOutcome::Unchanged
        } else {
            ImportOutcome::Updated
        },
    }
}

/// The writes that insert `messages` into the session.
pub open spec fn message_writes(session_id: Seq<char>, messages: Seq<MessageModel>) -> Seq<
    WriteModel,
> {
    messages.map_values(|message: MessageModel| WriteModel::InsertMessage { session_id, message })
}

/// What the import of `record` writes at the time `now`, where a session that
/// is new gets the id `fresh_id`.
pub open spec fn planned(
    existing: Option<SourceModel>,
    record: RecordModel,
    fresh_id: Seq<char>,
    now: Seq<char>,
) -> PlanModel {
    let outcome = outcome_of(existing, record.hash);
    let origin = codex_origin_of(record.source_id);
    PlanModel {
        outcome,
        writes: match outcome {
            ImportOutcome::Unchanged => Seq::empty(),
            ImportOutcome::Updated => {
                let session_id = existing->0.session_id;
                seq![
                    WriteModel::DeleteMessages { session_id },
                    WriteModel::UpdateSession {
                        session_id,
                        title: record.title,
                        updated_at: record.updated_at,
                        origin,
                    },
                ] + message_writes(session_id, record.messages) + seq![
                    WriteModel::MarkRead { session_id },
                    WriteModel::UpdateSource {
                        source_id: record.source_id,
                        content_hash: record.hash,
                        imported_at: now,
                    },
                ]
            },
            ImportOutcome::Created => {
                let session_id = fresh_id;
                seq![
                    WriteModel::InsertSession {
                        session_id,
                        title: record.title,
                        created_at: record.created_at,
                        updated_at: record.updated_at,
                        origin,
                    },
                    WriteModel::InsertSource {
                        source_id: record.source_id,
                        session_id,
                        content_hash: record.hash,
                        imported_at: now,
                    },
                ] + message_writes(session_id, record.messages) + seq![
                    WriteModel::MarkRead { session_id },
                ]
            },
        },
    }
}

/// The origin of the Codex session `id`.
fn codex_origin(id: &str) -> (r: SessionOrigin)
    ensures
        r@ == codex_origin_of(id@),
{
    SessionOrigin { kind: "codex".to_owned(), id: id.to_owned(), label: "Codex".to_owned() }
}

/// Adds the writes that insert `messages` into the session.
fn write_messages(writes: &mut Vec<LedgerWrite>, session_id: &str, messages: Vec<ImportedMessage>)
    ensures
        writes_model(final(writes)@) == writes_model(old(writes)@) + message_writes(
            session_id@,
            record::messages_model(messages@),
        ),
{
    let ghost start = writes_model(writes@);
    let ghost all = message_writes(session_id@, record::messages_model(messages@));
    for message in iter: messages
        invariant
            iter.seq() == messages@,
            all == message_writes(session_id@, record::messages_model(messages@)),
            writes_model(writes@) == start + all.take(iter.index()),
    {
        let ghost n = iter.index();
        let ghost before = writes@;
        let ImportedMessage { role, content, timestamp } = message;
        writes.push(
            LedgerWrite::InsertMessage {
                session_id: session_id.to_owned(),
                role,
                content,
                timestamp,
            },
        );
        proof {
            assert(writes_model(writes@) =~= writes_model(before).push(all[n]));
            assert(start + all.take(n + 1) =~= (start + all.take(n)).push(all[n]));
        }
    }
    proof {
        assert(all.take(all.len() as int) =~= all);
    }
}

/// What the import of `record` writes at the time `now`, where a session that
/// is new gets the id `fresh_id`.
pub fn plan_import_at(
    existing: Option<KnownSource>,
    record: ImportedRecord,
    fresh_id: String,
    now: String,
) -> (r: ImportPlan)
    ensures
        r@ == planned(known(existing), record@, fresh_id@, now@),
{
    let ImportedRecord {
        source_id,
        created_at,
        updated_at,
        title,
        messages,
        hash,
        unsupported_content: _,
    } = record;
    let origin = codex_origin(source_id.as_str());
    let ghost plan = planned(known(existing), record@, fresh_id@, now@);
    let ghost listed = record::messages_model(messages@);
    let mut writes: Vec<LedgerWrite> = Vec::new();
    match existing {
        Some(source) => {
            if text::str_eq(source.content_hash.as_str(), hash.as_str()) {
                proof {
                    assert(writes_model(writes@) =~= Seq::empty());
                }
                return ImportPlan { outcome: ImportOutcome::Unchanged, writes };
            }
            let session_id = source.session_id;
            writes.push(LedgerWrite::DeleteMessages { session_id: session_id.clone() });
            writes.push(
                LedgerWrite::UpdateSession {
                    session_id: session_id.clone(),
                    title,
                    updated_at,
                    origin,
                },
            );
            let ghost head = writes_model(writes@);
            assert(head =~= plan.writes.take(2));
            let ghost inserts = message_writes(session_id@, listed);
            write_messages(&mut writes, session_id.as_str(), messages);
            let ghost body = writes@;
            writes.push(LedgerWrite::MarkRead { session_id });
            writes.push(
                LedgerWrite::UpdateSource { source_id, content_hash: hash, imported_at: now },
            );
            proof {
                assert(writes_model(body) =~= plan.writes.take(2int + inserts.len()));
                let read = WriteModel::MarkRead { session_id: existing->0.session_id@ };
                let noted = WriteModel::UpdateSource {
                    source_id: record.source_id@,
                    content_hash: record.hash@,
                    imported_at: now@,
                };
                assert(writes_model(writes@) =~= writes_model(body).push(read).push(noted));
                assert(plan.writes =~= plan.writes.take(2int + inserts.len()).push(read).push(
                    noted,
                ));
            }
            ImportPlan { outcome: ImportOutcome::Updated, writes }
        },
        None => {
            writes.push(
                LedgerWrite::InsertSession {
                    session_id: fresh_id.clone(),
                    title,
                    created_at,
                    updated_at,
                    origin,
                },
            );
            writes.push(
                LedgerWrite::InsertSource {
                    source_id,
                    session_id: fresh_id.clone(),
                    content_hash: hash,
                    imported_at: now,
                },
            );
            let ghost head = writes_model(writes@);
            assert(head =~= plan.writes.take(2));
            let ghost inserts = message_writes(fresh_id@, listed);
            write_messages(&mut writes, fresh_id.as_str(), messages);
            let ghost body = writes@;
            writes.push(LedgerWrite::MarkRead { session_id: fresh_id });
            proof {
                assert(writes_model(body) =~= plan.writes.take(2int + inserts.len()));
                let read = WriteModel::MarkRead { session_id: fresh_id@ };
                assert(writes_model(writes@) =~= writes_model(body).push(read));
                assert(plan.writes =~= plan.writes.take(2int + inserts.len()).push(read));
            }
            ImportPlan { outcome: ImportOutcome::Created, writes }
        },
    }
}

/// Whether `chars` are a random UUID in its usual notation: groups of lowercase
/// hexadecimal digits with hyphens between them, and among them the digit of
/// version 4 and one of the digits of the usual variant.
pub open spec fn random_uuid(chars: Seq<char>) -> bool {
    &&& chars.len() == 36
    &&& chars[14] == '4'
    &&& chars[19] == '8' || chars[19] == '9' || chars[19] == 'a' || chars[19] == 'b'
    &&& forall|i: int|
        0 <= i < 36 ==> if i == 8 || i == 13 || i == 18 || i == 23 {
            #[trigger] chars[i] == '-'
        } else {
            '0' <= chars[i] <= '9' || 'a' <= chars[i] <= 'f'
        }
}

/// Calls `uuid::Uuid::new_v4`, and displays the UUID. Claimed of them: the
/// notation of a UUID of version 4, whichever it is. Where the system gives no
/// random bytes the call does not return.
#[verifier::external_body]
fn fresh_session_id() -> (r: String)
    ensures
        random_uuid(r@),
{
    uuid::Uuid::new_v4().to_string()
}

/// Whether `chars` end as a date and time in UTC does, and have the length of
/// one: four digits of the year or more, and a fraction of the second or none.
pub open spec fn utc_timestamp(chars: Seq<char>) -> bool {
    chars.len() >= 25 && chars.subrange(chars.len() - 6, chars.len() as int) == "+00:00"@
}

/// Calls `chrono::Utc::now`, and `to_rfc3339` of the time. Claimed of them: the
/// length and the offset of a time in UTC, whichever time it is. Where the clock
/// stands before 1970 the call does not return.
#[verifier::external_body]
fn current_timestamp() -> (r: String)
    ensures
        utc_timestamp(r@),
{
    chrono::Utc::now().to_rfc3339()
}

/// What the import of `record` writes now. A session that is new gets a random
/// id.
pub fn plan_import(existing: Option<KnownSource>, record: ImportedRecord) -> (r: ImportPlan)
    ensures
        exists|fresh_id: Seq<char>, now: Seq<char>|
            {
                &&& r@ == #[trigger] planned(known(existing), record@, fresh_id, now)
                &&& existing is None ==> random_uuid(fresh_id)
                &&& outcome_of(known(existing), record@.hash) != ImportOutcome::Unchanged
                    ==> utc_timestamp(now)
            },
{
    let unchanged = match &existing {
        Some(source) => text::str_eq(source.content_hash.as_str(), record.hash.as_str()),
        None => false,
    };
    let now = if unchanged {
        String::new()
    } else {
        current_timestamp()
    };
    let fresh_id = match &existing {
        Some(_) => String::new(),
        None => fresh_session_id(),
    };
    plan_import_at(existing, record, fresh_id, now)
}

// ---------------------------------------------------------------------------
// Laws
// ---------------------------------------------------------------------------

/// A session in the ledger, apart from its messages.
#[verifier::ext_equal]
pub struct SessionModel {
    pub title: Seq<char>,
    /// Whether the session was named by hand.
    pub named: bool,
    pub created_at: Seq<char>,
    pub updated_at: Seq<char>,
    pub origin: OriginModel,
}

/// What the ledger holds of one source: what it knows of it, when that was
/// noted, its session, the messages of the session, and how many of them are
/// marked as read.
#[verifier::ext_equal]
pub struct LedgerModel {
    pub source: Option<SourceModel>,
    pub imported_at: Option<Seq<char>>,
    pub session: Option<SessionModel>,
    pub messages: Seq<MessageModel>,
    pub read: nat,
}

/// What the ledger holds of a source that it does not know.
pub open spec fn unknown_source() -> LedgerModel {
    LedgerModel {
        source: None,
        imported_at: None,
        session: None,
        messages: Seq::empty(),
        read: 0,
    }
}

/// A session that is brought up to date.
pub open spec fn updated(
    session: SessionModel,
    title: Seq<char>,
    updated_at: Seq<char>,
    origin: OriginModel,
) -> SessionModel {
    SessionModel {
        title: if session.named {
            session.title
        } else {
            title
        },
        updated_at,
        origin,
        ..session
    }
}

/// The ledger after a write.
pub open spec fn written(ledger: LedgerModel, write: WriteModel) -> LedgerModel {
    match write {
        WriteModel::DeleteMessages { .. } => LedgerModel { messages: Seq::empty(), ..ledger },
        WriteModel::UpdateSession { title, updated_at, origin, .. } => match ledger.session {
            Some(session) => LedgerModel {
                session: Some(updated(session, title, updated_at, origin)),
                read: 0,
                ..ledger
            },
            None => ledger,
        },
        WriteModel::InsertSession { title, created_at, updated_at, origin, .. } => LedgerModel {
            session: Some(
                SessionModel { title, named: false, created_at, updated_at, origin },
            ),
            messages: Seq::empty(),
            read: 0,
            ..ledger
        },
        WriteModel::InsertSource { session_id, content_hash, imported_at, .. } => LedgerModel {
            source: Some(SourceModel { session_id, content_hash }),
            imported_at: Some(imported_at),
            ..ledger
        },
        WriteModel::InsertMessage { message, .. } => LedgerModel {
            messages: ledger.messages.push(message),
            ..ledger
        },
        WriteModel::MarkRead { .. } => LedgerModel { read: ledger.messages.len(), ..ledger },
        WriteModel::UpdateSource { content_hash, imported_at, .. } => match ledger.source {
            Some(source) => LedgerModel {
                source: Some(SourceModel { content_hash, ..source }),
                imported_at: Some(imported_at),
                ..ledger
            },
            None => ledger,
        },
    }
}

/// The ledger after all of `writes`.
pub open spec fn all_written(ledger: LedgerModel, writes: Seq<WriteModel>) -> LedgerModel
    decreases writes.len(),
{
    if writes.len() == 0 {
        ledger
    } else {
        written(all_written(ledger, writes.drop_last()), writes.last())
    }
}

proof fn lemma_written_in_order(ledger: LedgerModel, first: Seq<WriteModel>, more: Seq<WriteModel>)
    ensures
        all_written(ledger, first + more) == all_written(all_written(ledger, first), more),
    decreases more.len(),
{
    if more.len() == 0 {
        assert(first + more =~= first);
    } else {
        assert((first + more).drop_last() =~= first + more.drop_last());
        lemma_written_in_order(ledger, first, more.drop_last());
    }
}

proof fn lemma_messages_written(
    ledger: LedgerModel,
    session_id: Seq<char>,
    messages: Seq<MessageModel>,
)
    ensures
        all_written(ledger, message_writes(session_id, messages)) == (LedgerModel {
            messages: ledger.messages + messages,
            ..ledger
        }),
    decreases messages.len(),
{
    let writes = message_writes(session_id, messages);
    if messages.len() == 0 {
        assert(ledger.messages + messages =~= ledger.messages);
    } else {
        assert(writes.drop_last() =~= message_writes(session_id, messages.drop_last()));
        lemma_messages_written(ledger, session_id, messages.drop_last());
        assert((ledger.messages + messages.drop_last()).push(messages.last()) =~= ledger.messages
            + messages);
    }
}

/// An import of a record that is new or has changed leaves the ledger with the
/// hash of its content and the time of the import, with its messages and no
/// others, in their order, and with all of them marked as read. A new session
/// has the title, the times and the origin of the record. That of a known source
/// keeps its id and when it was created, and its title where it was named by
/// hand; the rest of it is from the record.
pub proof fn an_import_leaves_the_record(
    ledger: LedgerModel,
    record: RecordModel,
    fresh_id: Seq<char>,
    now: Seq<char>,
)
    requires
        outcome_of(ledger.source, record.hash) != ImportOutcome::Unchanged,
    ensures
        all_written(ledger, planned(ledger.source, record, fresh_id, now).writes) == (LedgerModel {
            source: Some(
                SourceModel {
                    session_id: match ledger.source {
                        Some(source) => source.session_id,
                        None => fresh_id,
                    },
                    content_hash: record.hash,
                },
            ),
            imported_at: Some(now),
            session: match (ledger.source, ledger.session) {
                (None, _) => Some(
                    SessionModel {
                        title: record.title,
                        named: false,
                        created_at: record.created_at,
                        updated_at: record.updated_at,
                        origin: codex_origin_of(record.source_id),
                    },
                ),
                (Some(_), Some(session)) => Some(
                    updated(
                        session,
                        record.title,
                        record.updated_at,
                        codex_origin_of(record.source_id),
                    ),
                ),
                (Some(_), None) => None,
            },
            messages: record.messages,
            read: record.messages.len(),
        }),
{
    reveal_with_fuel(all_written, 3);
    let writes = planned(ledger.source, record, fresh_id, now).writes;
    let session_id = match ledger.source {
        Some(source) => source.session_id,
        None => fresh_id,
    };
    let inserts = message_writes(session_id, record.messages);
    let head = writes.take(2);
    let tail = writes.skip(2int + inserts.len());
    assert(writes =~= (head + inserts) + tail);
    lemma_written_in_order(ledger, head + inserts, tail);
    lemma_written_in_order(ledger, head, inserts);
    assert(head.drop_last() =~= writes.take(1));
    assert(writes.take(1).drop_last() =~= Seq::empty());
    let opened = all_written(ledger, head);
    assert(opened == written(written(ledger, writes[0]), writes[1]));
    lemma_messages_written(opened, session_id, record.messages);
    let filled = all_written(opened, inserts);
    assert(filled.messages =~= record.messages);
    if ledger.source is None {
        assert(tail =~= seq![WriteModel::MarkRead { session_id }]);
        assert(tail.drop_last() =~= Seq::empty());
    } else {
        assert(tail.drop_last() =~= seq![WriteModel::MarkRead { session_id }]);
        assert(tail.drop_last().drop_last() =~= Seq::empty());
    }
}

/// To import the same content again changes nothing: the record is reported as
/// unchanged and writes nothing.
pub proof fn importing_again_changes_nothing(
    ledger: LedgerModel,
    record: RecordModel,
    fresh_id: Seq<char>,
    now: Seq<char>,
    other_id: Seq<char>,
    later: Seq<char>,
)
    ensures
        ({
            let after = all_written(ledger, planned(ledger.source, record, fresh_id, now).writes);
            let again = planned(after.source, record, other_id, later);
            again.outcome == ImportOutcome::Unchanged && all_written(after, again.writes) == after
        }),
{
    if outcome_of(ledger.source, record.hash) != ImportOutcome::Unchanged {
        an_import_leaves_the_record(ledger, record, fresh_id, now);
    }
}

/// Whether a write concerns the session and the source of an import, and no
/// other.
pub open spec fn concerns(write: WriteModel, session: Seq<char>, source: Seq<char>) -> bool {
    match write {
        WriteModel::DeleteMessages { session_id } => session_id == session,
        WriteModel::UpdateSession { session_id, .. } => session_id == session,
        WriteModel::InsertSession { session_id, .. } => session_id == session,
        WriteModel::InsertSource { source_id, session_id, .. } => session_id == session && source_id
            == source,
        WriteModel::InsertMessage { session_id, .. } => session_id == session,
        WriteModel::MarkRead { session_id } => session_id == session,
        WriteModel::UpdateSource { source_id, .. } => source_id == source,
    }
}

/// An import writes to its own session and its own source only.
pub proof fn an_import_keeps_to_its_session(
    existing: Option<SourceModel>,
    record: RecordModel,
    fresh_id: Seq<char>,
    now: Seq<char>,
)
    ensures
        forall|i: int|
            0 <= i < planned(existing, record, fresh_id, now).writes.len() ==> concerns(
                #[trigger] planned(existing, record, fresh_id, now).writes[i],
                match existing {
                    Some(source) => source.session_id,
                    None => fresh_id,
                },
                record.source_id,
            ),
{
}

/// A record of an unknown source is created; one of a known source is unchanged
/// exactly where its hash is the one that is known.
pub proof fn the_hash_decides_what_changed(source: SourceModel, hash: Seq<char>)
    ensures
        outcome_of(None, hash) == ImportOutcome::Created,
        outcome_of(Some(source), hash) == ImportOutcome::Unchanged <==> source.content_hash == hash,
        outcome_of(Some(source), hash) == ImportOutcome::Updated <==> source.content_hash != hash,
{
}

/// The import of a record of an unknown source makes its session, notes the
/// source, inserts every message in its order, and marks them as read; and it
/// writes nothing else.
pub proof fn new_records_are_written_in_full(
    record: RecordModel,
    fresh_id: Seq<char>,
    now: Seq<char>,
    i: int,
)
    ensures
        ({
            let plan = planned(None, record, fresh_id, now);
            let n = record.messages.len() as int;
            &&& plan.outcome == ImportOutcome::Created
            &&& plan.writes.len() == n + 3
            &&& plan.writes[0] == WriteModel::InsertSession {
                session_id: fresh_id,
                title: record.title,
                created_at: record.created_at,
                updated_at: record.updated_at,
                origin: OriginModel { kind: "codex"@, id: record.source_id, label: "Codex"@ },
            }
            &&& plan.writes[1] == WriteModel::InsertSource {
                source_id: record.source_id,
                session_id: fresh_id,
                content_hash: record.hash,
                imported_at: now,
            }
            &&& 0 <= i < n ==> plan.writes[2 + i] == WriteModel::InsertMessage {
                session_id: fresh_id,
                message: record.messages[i],
            }
            &&& plan.writes[2 + n] == WriteModel::MarkRead { session_id: fresh_id }
        }),
{
}

/// The import of a changed record of a known source deletes the messages of its
/// session, brings the session up to date, inserts every message in its order,
/// marks them as read, and notes the new content; and it writes nothing else. An
/// unchanged record writes nothing.
pub proof fn changed_records_are_written_in_full(
    source: SourceModel,
    record: RecordModel,
    fresh_id: Seq<char>,
    now: Seq<char>,
    i: int,
)
    ensures
        source.content_hash == record.hash ==> planned(
            Some(source),
            record,
            fresh_id,
            now,
        ).writes.len() == 0 && planned(Some(source), record, fresh_id, now).outcome
            == ImportOutcome::Unchanged,
        source.content_hash != record.hash ==> {
            let plan = planned(Some(source), record, fresh_id, now);
            let n = record.messages.len() as int;
            let session_id = source.session_id;
            &&& plan.outcome == ImportOutcome::Updated
            &&& plan.writes.len() == n + 4
            &&& plan.writes[0] == WriteModel::DeleteMessages { session_id }
            &&& plan.writes[1] == WriteModel::UpdateSession {
                session_id,
                title: record.title,
                updated_at: record.updated_at,
                origin: OriginModel { kind: "codex"@, id: record.source_id, label: "Codex"@ },
            }
            &&& 0 <= i < n ==> plan.writes[2 + i] == WriteModel::InsertMessage {
                session_id,
                message: record.messages[i],
            }
            &&& plan.writes[2 + n] == WriteModel::MarkRead { session_id }
            &&& plan.writes[3 + n] == WriteModel::UpdateSource {
                source_id: record.source_id,
                content_hash: record.hash,
                imported_at: now,
            }
        },
{
}

/// What a plan says is said write by write, in their order.
pub proof fn plans_say_all_that_they_hold(plan: ImportPlan, i: int)
    requires
        0 <= i < plan.writes@.len(),
    ensures
        plan@.outcome == plan.outcome,
        plan@.writes.len() == plan.writes@.len(),
        plan@.writes[i] == plan.writes@[i]@,
{
}

/// A write says all that it holds.
pub proof fn writes_say_all_that_they_hold(write: LedgerWrite)
    ensures
        match write {
            LedgerWrite::DeleteMessages { session_id } => write@ == (WriteModel::DeleteMessages {
                session_id: session_id@,
            }),
            LedgerWrite::UpdateSession { session_id, title, updated_at, origin } => write@ == (
            WriteModel::UpdateSession {
                session_id: session_id@,
                title: title@,
                updated_at: updated_at@,
                origin: OriginModel { kind: origin.kind@, id: origin.id@, label: origin.label@ },
            }),
            LedgerWrite::InsertSession { session_id, title, created_at, updated_at, origin } =>
            write@ == (WriteModel::InsertSession {
                session_id: session_id@,
                title: title@,
                created_at: created_at@,
                updated_at: updated_at@,
                origin: OriginModel { kind: origin.kind@, id: origin.id@, label: origin.label@ },
            }),
            LedgerWrite::InsertSource { source_id, session_id, content_hash, imported_at } => write@
                == (WriteModel::InsertSource {
                source_id: source_id@,
                session_id: session_id@,
                content_hash: content_hash@,
                imported_at: imported_at@,
            }),
            LedgerWrite::InsertMessage { session_id, role, content, timestamp } => write@ == (
            WriteModel::InsertMessage {
                session_id: session_id@,
                message: MessageModel { role, content: content@, timestamp: timestamp@ },
            }),
            LedgerWrite::MarkRead { session_id } => write@ == (WriteModel::MarkRead {
                session_id: session_id@,
            }),
            LedgerWrite::UpdateSource { source_id, content_hash, imported_at } => write@ == (
            WriteModel::UpdateSource {
                source_id: source_id@,
                content_hash: content_hash@,
                imported_at: imported_at@,
            }),
        },
{
}

/// What is known of a source is its session and the hash of its content.
pub proof fn known_sources_say_all_that_they_hold(source: KnownSource)
    ensures
        known(Some(source)) == Some(
            SourceModel { session_id: source.session_id@, content_hash: source.content_hash@ },
        ),
        known(None) is None,
{
}

} // verus!
