use ha_core::plan::{plan_import, plan_import_at, ImportPlan, KnownSource, LedgerWrite};
use ha_core::record::{parse_record, ImportedRecord, Role};
use ha_core::report::ImportOutcome;

const FIRST: &str = "{\"type\":\"session_meta\",\"timestamp\":\"2026-01-01T00:00:00Z\",\"payload\":{\"id\":\"source-1\"}}\n{\"type\":\"response_item\",\"timestamp\":\"2026-01-01T00:00:01Z\",\"payload\":{\"type\":\"message\",\"role\":\"user\",\"content\":[{\"type\":\"input_text\",\"text\":\"Question\"}]}}\n";
const SECOND: &str = "{\"type\":\"response_item\",\"timestamp\":\"2026-01-01T00:00:02Z\",\"payload\":{\"type\":\"message\",\"role\":\"assistant\",\"content\":[{\"type\":\"output_text\",\"text\":\"Answer\"}]}}\n";

fn record(content: &str) -> ImportedRecord {
    parse_record(content.as_bytes()).unwrap()
}

/// What a ledger holds of one source.
struct Ledger {
    source: Option<(String, String)>,
    session: Option<Session>,
    messages: Vec<(Role, String, String)>,
    read: usize,
}

#[derive(Debug, Clone, PartialEq)]
struct Session {
    title: String,
    named: bool,
    created_at: String,
    updated_at: String,
    origin_id: String,
}

impl Ledger {
    fn new() -> Self {
        Ledger {
            source: None,
            session: None,
            messages: Vec::new(),
            read: 0,
        }
    }

    fn known(&self) -> Option<KnownSource> {
        self.source
            .clone()
            .map(|(session_id, content_hash)| KnownSource {
                session_id,
                content_hash,
            })
    }

    fn import(&mut self, content: &str) -> ImportOutcome {
        let plan = plan_import(self.known(), record(content));
        for write in plan.writes {
            match write {
                LedgerWrite::DeleteMessages { .. } => self.messages.clear(),
                LedgerWrite::UpdateSession {
                    title,
                    updated_at,
                    origin,
                    ..
                } => {
                    let session = self.session.as_mut().unwrap();
                    if !session.named {
                        session.title = title;
                    }
                    session.updated_at = updated_at;
                    session.origin_id = origin.id;
                    self.read = 0;
                }
                LedgerWrite::InsertSession {
                    title,
                    created_at,
                    updated_at,
                    origin,
                    ..
                } => {
                    self.session = Some(Session {
                        title,
                        named: false,
                        created_at,
                        updated_at,
                        origin_id: origin.id,
                    })
                }
                LedgerWrite::InsertSource {
                    session_id,
                    content_hash,
                    ..
                } => self.source = Some((session_id, content_hash)),
                LedgerWrite::InsertMessage {
                    role,
                    content,
                    timestamp,
                    ..
                } => self.messages.push((role, content, timestamp)),
                LedgerWrite::MarkRead { .. } => self.read = self.messages.len(),
                LedgerWrite::UpdateSource { content_hash, .. } => {
                    self.source.as_mut().unwrap().1 = content_hash
                }
            }
        }
        plan.outcome
    }
}

#[test]
fn reimport_keeps_the_session_and_replaces_its_messages() {
    let mut ledger = Ledger::new();
    assert_eq!(ledger.import(FIRST).as_str(), "created");
    let (session_id, hash) = ledger.source.clone().unwrap();
    assert_eq!(hash, record(FIRST).hash);
    assert_eq!(ledger.messages.len(), 1);
    assert_eq!(ledger.read, 1);
    assert_eq!(ledger.import(FIRST).as_str(), "unchanged");
    assert_eq!(ledger.messages.len(), 1);

    let changed = format!("{FIRST}{SECOND}");
    assert_eq!(ledger.import(&changed).as_str(), "updated");
    assert_eq!(ledger.source.clone().unwrap().0, session_id);
    assert_eq!(ledger.source.clone().unwrap().1, record(&changed).hash);
    assert_eq!(ledger.messages.len(), 2);
    assert_eq!(ledger.messages[0].1, "Question");
    assert_eq!(ledger.messages[1].1, "Answer");
    assert_eq!(ledger.read, 2);
    assert_eq!(ledger.import(&changed).as_str(), "unchanged");
    assert_eq!(ledger.import(FIRST).as_str(), "updated");
    assert_eq!(ledger.messages.len(), 1);
}

#[test]
fn imports_bring_the_session_up_to_date() {
    let mut ledger = Ledger::new();
    ledger.import(FIRST);
    let session = Session {
        title: "Question".to_string(),
        named: false,
        created_at: "2026-01-01T00:00:00Z".to_string(),
        updated_at: "2026-01-01T00:00:01Z".to_string(),
        origin_id: "source-1".to_string(),
    };
    assert_eq!(ledger.session, Some(session.clone()));
    let renamed = FIRST.replace("Question", "Another question");
    ledger.import(&format!("{renamed}{SECOND}"));
    let updated = Session {
        title: "Another question".to_string(),
        updated_at: "2026-01-01T00:00:02Z".to_string(),
        ..session
    };
    assert_eq!(ledger.session, Some(updated.clone()));
    ledger.session.as_mut().unwrap().named = true;
    ledger.import(FIRST);
    assert_eq!(
        ledger.session,
        Some(Session {
            named: true,
            updated_at: "2026-01-01T00:00:01Z".to_string(),
            ..updated
        })
    );
}

#[test]
fn new_sessions_get_random_ids() {
    let fresh = || match &plan_import(None, record(FIRST)).writes[0] {
        LedgerWrite::InsertSession { session_id, .. } => session_id.clone(),
        _ => panic!("a new session is inserted first"),
    };
    let (a, b) = (fresh(), fresh());
    assert_ne!(a, b);
    for id in [a, b] {
        assert_eq!(id.len(), 36);
        for (i, c) in id.chars().enumerate() {
            match i {
                8 | 13 | 18 | 23 => assert_eq!(c, '-'),
                14 => assert_eq!(c, '4'),
                19 => assert!("89ab".contains(c)),
                _ => assert!(c.is_ascii_digit() || ('a'..='f').contains(&c)),
            }
        }
    }
}

#[test]
fn imports_are_noted_with_the_time() {
    let known = KnownSource {
        session_id: "kept".to_string(),
        content_hash: "old".to_string(),
    };
    for existing in [None, Some(known)] {
        let plan = plan_import(existing, record(FIRST));
        let noted: Vec<&String> = plan
            .writes
            .iter()
            .filter_map(|write| match write {
                LedgerWrite::InsertSource { imported_at, .. } => Some(imported_at),
                LedgerWrite::UpdateSource { imported_at, .. } => Some(imported_at),
                _ => None,
            })
            .collect();
        assert_eq!(noted.len(), 1);
        assert!(noted[0].len() >= 25);
        assert!(noted[0].ends_with("+00:00"));
        assert!(chrono::DateTime::parse_from_rfc3339(noted[0]).is_ok());
    }
}

fn planned(existing: Option<(&str, &str)>) -> ImportPlan {
    plan_import_at(
        existing.map(|(session_id, content_hash)| KnownSource {
            session_id: session_id.to_string(),
            content_hash: content_hash.to_string(),
        }),
        record(FIRST),
        "fresh".to_string(),
        "now".to_string(),
    )
}

#[test]
fn a_new_source_makes_a_session() {
    let plan = planned(None);
    assert_eq!(plan.outcome, ImportOutcome::Created);
    assert_eq!(plan.writes.len(), 4);
    match &plan.writes[0] {
        LedgerWrite::InsertSession {
            session_id,
            title,
            created_at,
            updated_at,
            origin,
        } => {
            assert_eq!(session_id, "fresh");
            assert_eq!(title, "Question");
            assert_eq!(created_at, "2026-01-01T00:00:00Z");
            assert_eq!(updated_at, "2026-01-01T00:00:01Z");
            assert_eq!(origin.kind, "codex");
            assert_eq!(origin.id, "source-1");
            assert_eq!(origin.label, "Codex");
        }
        other => panic!("unexpected {other:?}"),
    }
    match &plan.writes[1] {
        LedgerWrite::InsertSource {
            source_id,
            session_id,
            content_hash,
            imported_at,
        } => {
            assert_eq!(source_id, "source-1");
            assert_eq!(session_id, "fresh");
            assert_eq!(content_hash, &record(FIRST).hash);
            assert_eq!(imported_at, "now");
        }
        other => panic!("unexpected {other:?}"),
    }
    match &plan.writes[2] {
        LedgerWrite::InsertMessage {
            session_id,
            role,
            content,
            timestamp,
        } => {
            assert_eq!(session_id, "fresh");
            assert_eq!(*role, Role::User);
            assert_eq!(content, "Question");
            assert_eq!(timestamp, "2026-01-01T00:00:01Z");
        }
        other => panic!("unexpected {other:?}"),
    }
    assert!(
        matches!(&plan.writes[3], LedgerWrite::MarkRead { session_id } if session_id == "fresh")
    );
}

#[test]
fn a_changed_source_updates_its_session() {
    let plan = planned(Some(("kept", "old")));
    assert_eq!(plan.outcome, ImportOutcome::Updated);
    assert_eq!(plan.writes.len(), 5);
    assert!(
        matches!(&plan.writes[0], LedgerWrite::DeleteMessages { session_id } if session_id == "kept")
    );
    match &plan.writes[1] {
        LedgerWrite::UpdateSession {
            session_id,
            title,
            updated_at,
            origin,
        } => {
            assert_eq!(session_id, "kept");
            assert_eq!(title, "Question");
            assert_eq!(updated_at, "2026-01-01T00:00:01Z");
            assert_eq!(origin.id, "source-1");
        }
        other => panic!("unexpected {other:?}"),
    }
    assert!(
        matches!(&plan.writes[2], LedgerWrite::InsertMessage { session_id, .. } if session_id == "kept")
    );
    assert!(
        matches!(&plan.writes[3], LedgerWrite::MarkRead { session_id } if session_id == "kept")
    );
    match &plan.writes[4] {
        LedgerWrite::UpdateSource {
            source_id,
            content_hash,
            imported_at,
        } => {
            assert_eq!(source_id, "source-1");
            assert_eq!(content_hash, &record(FIRST).hash);
            assert_eq!(imported_at, "now");
        }
        other => panic!("unexpected {other:?}"),
    }
}

#[test]
fn an_unchanged_source_writes_nothing() {
    let hash = record(FIRST).hash;
    let plan = planned(Some(("kept", &hash)));
    assert_eq!(plan.outcome, ImportOutcome::Unchanged);
    assert!(plan.writes.is_empty());
}
