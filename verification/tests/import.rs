use std::collections::BTreeMap;

use ha_core::import_run::ImportRun;
use ha_core::plan::{plan_import, KnownSource, LedgerWrite};
use ha_core::report::CodexImportReport;
use ha_core::scan::{DirectoryEntry, Scan, ScanStep, MAX_DEPTH};
use ha_core::selection::Candidate;

fn content(id: &str, words: &str) -> String {
    format!(
        "{{\"type\":\"session_meta\",\"payload\":{{\"id\":\"{id}\"}}}}\n{{\"type\":\"response_item\",\"payload\":{{\"type\":\"message\",\"role\":\"user\",\"content\":[{{\"type\":\"input_text\",\"text\":\"{words}\"}},{{\"type\":\"image\"}}]}}}}\n"
    )
}

/// What a ledger holds of a source.
#[derive(Debug, Clone, Default, PartialEq)]
struct Entry {
    source: Option<(String, String)>,
    messages: Vec<String>,
}

type Ledger = BTreeMap<String, Entry>;

/// The files on disk: their names, times and contents.
type Disk = Vec<(&'static str, i128, String)>;

fn import(disk: &Disk, limit: usize, backwards: bool, ledger: &mut Ledger) -> CodexImportReport {
    let mut met: Vec<&(&str, i128, String)> = disk.iter().collect();
    if backwards {
        met.reverse();
    }
    let mut scan = Scan::new(limit);
    assert_eq!(
        scan.enter_directory(Some(true), MAX_DEPTH + 1),
        Ok(ScanStep::Pass)
    );
    for (name, modified, _) in met {
        let name = name.as_bytes().to_vec();
        if scan.meet(&DirectoryEntry::File(name.clone())) == ScanStep::OfferFile {
            scan.offer(Candidate {
                modified: *modified,
                path: vec![name],
            });
        }
    }
    let Scan { files, report } = scan;
    let mut run = ImportRun::new(report);
    for file in files.into_reading_order() {
        let (_, _, content) = disk
            .iter()
            .find(|(name, _, _)| name.as_bytes() == file.path[0])
            .unwrap();
        if !run.consider(true, content.len() as u64) {
            continue;
        }
        let Some(record) = run.read_record(content.as_bytes()) else {
            continue;
        };
        let entry = ledger.entry(record.source_id.clone()).or_default();
        let existing = entry
            .source
            .clone()
            .map(|(session_id, content_hash)| KnownSource {
                session_id,
                content_hash,
            });
        let plan = plan_import(existing, record);
        for write in plan.writes {
            match write {
                LedgerWrite::DeleteMessages { .. } => entry.messages.clear(),
                LedgerWrite::InsertSource {
                    session_id,
                    content_hash,
                    ..
                } => entry.source = Some((session_id, content_hash)),
                LedgerWrite::InsertMessage { content, .. } => entry.messages.push(content),
                LedgerWrite::UpdateSource { content_hash, .. } => {
                    entry.source.as_mut().unwrap().1 = content_hash
                }
                _ => {}
            }
        }
        run.settle(plan.outcome);
    }
    run.into_report()
}

fn disk() -> Disk {
    vec![
        ("old.jsonl", 1, content("a", "old words")),
        ("new.jsonl", 5, content("a", "new words")),
        ("b.jsonl", 3, content("b", "more words")),
        ("c.jsonl", 4, content("c", "other words")),
        ("oldest.jsonl", 0, content("d", "lost words")),
        ("notes.txt", 9, String::new()),
    ]
}

#[test]
fn sessions_are_imported_from_their_newest_file() {
    for backwards in [false, true] {
        let mut ledger = Ledger::new();
        let report = import(&disk(), 4, backwards, &mut ledger);
        assert_eq!(ledger["a"].messages, ["new words"]);
        assert!(!ledger.contains_key("d"));
        assert_eq!(report.scanned, 5);
        assert_eq!(report.created, 3);
        assert_eq!(report.skipped, 3);
        assert_eq!(report.failed, 0);
        assert_eq!(report.unsupported_content, 3);
    }
}

#[test]
fn of_files_of_one_age_the_first_path_is_imported() {
    for backwards in [false, true] {
        let files = vec![
            ("z.jsonl", 2, content("a", "last path")),
            ("m.jsonl", 2, content("a", "first path")),
            ("a.jsonl", 1, content("a", "older")),
        ];
        let mut ledger = Ledger::new();
        let report = import(&files, 10, backwards, &mut ledger);
        assert_eq!(ledger["a"].messages, ["first path"]);
        assert_eq!((report.created, report.skipped), (1, 3));
    }
}

#[test]
fn a_second_import_leaves_the_ledger_unchanged() {
    let mut ledger = Ledger::new();
    import(&vec![("b.jsonl", 1, content("b", "first words"))], 4, false, &mut ledger);
    let first = import(&disk(), 4, false, &mut ledger);
    assert_eq!((first.created, first.updated, first.unchanged), (2, 1, 0));
    let before = ledger.clone();
    let second = import(&disk(), 4, true, &mut ledger);
    assert_eq!(ledger, before);
    assert_eq!((second.created, second.updated, second.unchanged), (0, 0, 3));
    assert_eq!(second.scanned, first.scanned);
    assert_eq!(second.skipped, first.skipped);
    assert_eq!(second.failed, 0);
    assert_eq!(second.unsupported_content, first.unsupported_content);
}

#[test]
fn every_scanned_file_comes_to_a_result() {
    let mut files = disk();
    files.push(("broken.jsonl", 8, "{".to_string()));
    let report = import(&files, 5, false, &mut Ledger::new());
    assert_eq!(report.failed, 1);
    assert_eq!(report.scanned, 6);
    assert_eq!(
        report.created + report.updated + report.unchanged + report.skipped + report.failed,
        report.scanned + 1
    );
}
