use ha_core::import_run::{
    check_opened, check_read, check_size, FileStamp, ImportRun, ReadError, MAX_FILE_BYTES,
    MAX_TOTAL_BYTES,
};
use ha_core::report::{CodexImportReport, ImportOutcome};
use ha_core::scan::{
    codex_home, is_session_file_name, CodexHome, DirectoryEntry, Scan, ScanError, ScanStep,
    MAX_DEPTH, MAX_FILES,
};
use ha_core::selection::{Candidate, NewestFiles, Offer};

const SECOND: i128 = 1_000_000_000;

fn file(path: &[&str], modified: i128) -> Candidate {
    Candidate {
        modified,
        path: path.iter().map(|name| name.as_bytes().to_vec()).collect(),
    }
}

fn names(files: &[Candidate]) -> Vec<String> {
    files
        .iter()
        .map(|file| String::from_utf8(file.path.last().unwrap().clone()).unwrap())
        .collect()
}

#[test]
fn file_limit_skips_excess_without_discarding_the_batch() {
    let mut scan = Scan::new(2);
    assert_eq!(scan.enter_directory(Some(true), 0), Ok(ScanStep::ReadDirectory));
    for (name, seconds) in [("a.jsonl", 1), ("b.jsonl", 3), ("c.jsonl", 2)] {
        let entry = DirectoryEntry::File(name.as_bytes().to_vec());
        assert_eq!(scan.meet(&entry), ScanStep::OfferFile);
        scan.offer(file(&[name], seconds * SECOND));
    }
    let Scan { files, report } = scan;
    assert_eq!(report.scanned, 3);
    assert_eq!(report.skipped, 1);
    assert_eq!(files.len(), 2);
    let selected = names(&files.into_reading_order());
    assert!(!selected.contains(&"a.jsonl".into()));
}

#[test]
fn the_newest_files_are_kept_in_any_order() {
    for order in [[1, 2, 3, 4], [4, 3, 2, 1], [2, 4, 1, 3], [3, 1, 4, 2]] {
        let mut files = NewestFiles::new(2);
        for seconds in order {
            files.offer(file(&[&format!("{seconds}")], seconds * SECOND));
        }
        assert_eq!(names(&files.into_reading_order()), ["4", "3"]);
    }
}

#[test]
fn offers_say_what_became_of_the_file() {
    let mut files = NewestFiles::new(1);
    assert!(matches!(files.offer(file(&["a"], 2)), Offer::Kept));
    assert!(matches!(files.offer(file(&["b"], 1)), Offer::Dropped));
    assert!(
        matches!(files.offer(file(&["c"], 3)), Offer::Replaced(out) if out.path == vec![b"a".to_vec()])
    );
    assert!(matches!(NewestFiles::new(0).offer(file(&["a"], 1)), Offer::Dropped));
}

#[test]
fn files_of_one_age_give_way_by_their_paths() {
    let mut files = NewestFiles::new(1);
    files.offer(file(&["b"], 1));
    assert!(matches!(files.offer(file(&["a"], 1)), Offer::Dropped));
    assert!(matches!(files.offer(file(&["c"], 1)), Offer::Replaced(_)));
    assert!(matches!(files.offer(file(&["c"], 1)), Offer::Dropped));
}

#[test]
fn files_are_read_from_the_newest_and_then_by_path() {
    let mut files = NewestFiles::new(10);
    for (path, modified) in [
        (vec!["sessions", "b"], 1),
        (vec!["sessions", "a"], 1),
        (vec!["archived_sessions", "z"], 1),
        (vec!["sessions", "c"], -1),
        (vec!["sessions", "n"], 2),
        (vec!["sessions", "a", "x"], 1),
    ] {
        files.offer(file(&path, modified));
    }
    assert_eq!(files.len(), 6);
    assert_eq!(
        names(&files.into_reading_order()),
        ["n", "z", "a", "x", "b", "c"]
    );
}

#[test]
fn candidates_are_ordered_as_tuples_of_time_and_path() {
    let files: Vec<(i128, Vec<&str>)> = vec![
        (1, vec!["a"]),
        (1, vec!["a", "b"]),
        (1, vec!["ab"]),
        (1, vec![]),
        (2, vec!["a"]),
        (0, vec!["z"]),
        (1, vec!["é"]),
    ];
    for left in &files {
        for right in &files {
            let (a, b) = (file(&left.1, left.0), file(&right.1, right.0));
            assert_eq!(a.is_older(&b), left < right);
            assert_eq!(
                a.is_read_before(&b),
                (-left.0, &left.1) < (-right.0, &right.1)
            );
        }
    }
}

#[test]
fn the_scan_meets_each_kind_of_entry() {
    let mut scan = Scan::new(MAX_FILES);
    assert_eq!(scan.meet(&DirectoryEntry::Symlink), ScanStep::Pass);
    assert_eq!(scan.meet(&DirectoryEntry::Other), ScanStep::Pass);
    assert_eq!(scan.meet(&DirectoryEntry::Directory), ScanStep::ReadDirectory);
    assert_eq!(
        scan.meet(&DirectoryEntry::File(b"a.json".to_vec())),
        ScanStep::Pass
    );
    assert_eq!(scan.report.failed, 0);
    assert_eq!(scan.meet(&DirectoryEntry::Unreadable), ScanStep::Pass);
    assert_eq!(scan.report.failed, 1);
    assert_eq!(scan.report.scanned, 0);
}

#[test]
fn directories_are_entered_up_to_a_depth() {
    let mut scan = Scan::new(MAX_FILES);
    assert_eq!(scan.enter_directory(None, 0), Ok(ScanStep::Pass));
    assert_eq!(
        scan.enter_directory(Some(false), 0),
        Err(ScanError::NotADirectory)
    );
    assert_eq!(
        scan.enter_directory(Some(true), MAX_DEPTH),
        Ok(ScanStep::ReadDirectory)
    );
    assert_eq!(scan.report.skipped, 0);
    assert_eq!(
        scan.enter_directory(Some(true), MAX_DEPTH + 1),
        Ok(ScanStep::Pass)
    );
    assert_eq!(scan.report.skipped, 1);
    assert_eq!(MAX_DEPTH, 8);
    assert_eq!(MAX_FILES, 5_000);
}

#[test]
fn an_unreadable_root_ends_the_scan() {
    let mut scan = Scan::new(MAX_FILES);
    assert!(scan.unreadable_directory(0));
    assert_eq!(scan.report.failed, 0);
    assert!(!scan.unreadable_directory(1));
    assert_eq!(scan.report.failed, 1);
}

#[test]
fn session_files_are_told_by_their_extension() {
    for name in [
        "a.jsonl", ".jsonl", "jsonl", "a.JSONL", "a.jsonl ", "a.jsonl.bak", "..jsonl", "", "a.b.jsonl",
        "ajsonl",
    ] {
        assert_eq!(
            is_session_file_name(&name.as_bytes().to_vec()),
            std::path::Path::new(name)
                .extension()
                .is_some_and(|extension| extension == "jsonl")
        );
    }
}

#[test]
fn the_home_is_configured_or_found() {
    assert_eq!(codex_home(Some(true), false), Ok(CodexHome::Configured));
    assert_eq!(codex_home(Some(false), true), Err(ScanError::RelativeHome));
    assert_eq!(codex_home(None, true), Ok(CodexHome::InHomeDirectory));
    assert_eq!(codex_home(None, false), Err(ScanError::NoHome));
    assert_eq!(
        ScanError::NotADirectory.message(),
        "Codex session root must be a directory, not a symlink"
    );
    assert_eq!(
        ScanError::RelativeHome.message(),
        "CODEX_HOME must be an absolute path"
    );
    assert_eq!(
        ScanError::NoHome.message(),
        "home directory is unavailable"
    );
}

// ---------------------------------------------------------------------------
// Runs
// ---------------------------------------------------------------------------

fn content(id: &str, words: &str) -> String {
    format!(
        "{{\"type\":\"session_meta\",\"payload\":{{\"id\":\"{id}\"}}}}\n{{\"type\":\"response_item\",\"payload\":{{\"type\":\"message\",\"role\":\"user\",\"content\":[{{\"type\":\"input_text\",\"text\":\"{words}\"}},{{\"type\":\"image\"}}]}}}}\n"
    )
}

#[test]
fn a_run_counts_each_file_once() {
    let mut run = ImportRun::new(CodexImportReport {
        scanned: 7,
        ..CodexImportReport::default()
    });
    assert!(!run.consider(false, 1));
    assert!(run.consider(true, 10));
    run.fail();
    for (id, outcome) in [
        ("a", ImportOutcome::Created),
        ("b", ImportOutcome::Updated),
        ("c", ImportOutcome::Unchanged),
    ] {
        assert!(run.consider(true, 10));
        let record = run.read_record(content(id, "first").as_bytes()).unwrap();
        assert_eq!(record.source_id, id);
        run.settle(outcome);
    }
    assert!(run.consider(true, 10));
    assert!(run.read_record(content("a", "second").as_bytes()).is_none());
    assert!(run.consider(true, 10));
    assert!(run.read_record(b"{").is_none());
    let report = run.into_report();
    assert_eq!(report.scanned, 7);
    assert_eq!(report.created, 1);
    assert_eq!(report.updated, 1);
    assert_eq!(report.unchanged, 1);
    assert_eq!(report.skipped, 2);
    assert_eq!(report.failed, 2);
    assert_eq!(report.unsupported_content, 3);
    assert_eq!(ImportOutcome::Created.as_str(), "created");
    assert_eq!(ImportOutcome::Updated.as_str(), "updated");
    assert_eq!(ImportOutcome::Unchanged.as_str(), "unchanged");
}

#[test]
fn a_run_keeps_its_budget() {
    let mut run = ImportRun::new(CodexImportReport::default());
    assert_eq!(MAX_FILE_BYTES, 64 * 1024 * 1024);
    assert_eq!(MAX_TOTAL_BYTES, 512 * 1024 * 1024);
    assert!(!run.consider(true, MAX_FILE_BYTES + 1));
    assert!(!run.consider(true, u64::MAX));
    for _ in 0..8 {
        assert!(run.consider(true, MAX_FILE_BYTES));
    }
    assert!(run.consider(true, 0));
    assert!(!run.consider(true, 1));
    assert_eq!(run.into_report().skipped, 3);
}

#[test]
fn sessions_are_claimed_once() {
    let mut run = ImportRun::new(CodexImportReport::default());
    assert!(run.claim("a", 2));
    assert!(run.claim("b", 3));
    assert!(!run.claim("a", 5));
    let report = run.into_report();
    assert_eq!(report.unsupported_content, 5);
    assert_eq!(report.skipped, 1);
}

#[test]
fn counters_end_at_the_largest_number() {
    let mut report = CodexImportReport {
        skipped: usize::MAX,
        unsupported_content: usize::MAX - 1,
        ..CodexImportReport::default()
    };
    report.count_skipped();
    report.count_unsupported(5);
    report.count_scanned();
    report.count_failed();
    report.count_outcome(ImportOutcome::Created);
    assert_eq!(report.skipped, usize::MAX);
    assert_eq!(report.unsupported_content, usize::MAX);
    assert_eq!((report.scanned, report.failed, report.created), (1, 1, 1));
}

#[test]
fn files_that_change_are_not_used() {
    let before = FileStamp {
        is_file: true,
        len: 5,
        modified: 9,
    };
    assert_eq!(check_opened(before, before), Ok(()));
    assert_eq!(check_read(before, before, 5), Ok(()));
    assert_eq!(check_read(before, before, 4), Err(ReadError::Changed));
    for now in [
        FileStamp {
            is_file: false,
            ..before
        },
        FileStamp { len: 6, ..before },
        FileStamp {
            modified: 10,
            ..before
        },
    ] {
        assert_eq!(check_opened(before, now), Err(ReadError::Changed));
        assert_eq!(check_read(before, now, 5), Err(ReadError::Changed));
    }
    assert_eq!(check_size(MAX_FILE_BYTES), Ok(()));
    assert_eq!(check_size(MAX_FILE_BYTES + 1), Err(ReadError::TooLarge));
    assert_eq!(
        ReadError::Changed.message(),
        "Codex session changed during import"
    );
    assert_eq!(
        ReadError::TooLarge.message(),
        "Codex session exceeds the import limit"
    );
}
