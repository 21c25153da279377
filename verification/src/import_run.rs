//! One run of an import over the files that a scan has kept.
//!
//! A run reads each file at most once, within a budget of bytes, and imports
//! each session once: from the first file that holds it, which is the newest.

use vstd::prelude::*;
use crate::record::ImportedRecord;
use crate::record;
use crate::report::{CodexImportReport, ImportOutcome};
use crate::scan::Meeting;
use crate::scan;
use crate::selection::CandidateModel;
use crate::selection;
use crate::text;

verus! {

/// The largest file that is read, in bytes.
pub const MAX_FILE_BYTES: u64 = 67108864;

/// How many bytes one run reads at most.
pub const MAX_TOTAL_BYTES: u64 = 536870912;

/// Why the content of a file is not used.
#[derive(Debug, Clone, Copy, PartialEq, Eq, Structural)]
pub enum ReadError {
    Changed,
    TooLarge,
}

impl ReadError {
    /// What the error says.
    pub open spec fn said(self) -> Seq<char> {
        match self {
            ReadError::Changed => "Codex session changed during import"@,
            ReadError::TooLarge => "Codex session exceeds the import limit"@,
        }
    }

    /// What the error says.
    pub fn message(&self) -> (r: &'static str)
        ensures
            r@ == self.said(),
    {
        match self {
            ReadError::Changed => "Codex session changed during import",
            ReadError::TooLarge => "Codex session exceeds the import limit",
        }
    }
}

/// What the file system says of a file at one time.
#[derive(Debug, Clone, Copy)]
pub struct FileStamp {
    pub is_file: bool,
    pub len: u64,
    /// When the file was modified, in nanoseconds since the epoch.
    pub modified: i128,
}

/// Whether `now` is a file that shows no change since `before`.
pub open spec fn unchanged_since(before: FileStamp, now: FileStamp) -> bool {
    now.is_file && now.len == before.len && now.modified == before.modified
}

/// Checks a file that has been opened against what was said of it before.
pub fn check_opened(before: FileStamp, opened: FileStamp) -> (r: Result<(), ReadError>)
    ensures
        r == (if unchanged_since(before, opened) {
            Ok(())
        } else {
            Err(ReadError::Changed)
        }),
{
    if !opened.is_file || before.len != opened.len || before.modified != opened.modified {
        return Err(ReadError::Changed);
    }
    Ok(())
}

/// Checks the size of what was read.
pub fn check_size(read: u64) -> (r: Result<(), ReadError>)
    ensures
        r == (if read > MAX_FILE_BYTES {
            Err(ReadError::TooLarge)
        } else {
            Ok(())
        }),
{
    if read > MAX_FILE_BYTES {
        return Err(ReadError::TooLarge);
    }
    Ok(())
}

/// Checks a file of which `read` bytes have been read against what was said of
/// it before.
pub fn check_read(before: FileStamp, after: FileStamp, read: u64) -> (r: Result<(), ReadError>)
    ensures
        r == (if unchanged_since(before, after) && read == before.len {
            Ok(())
        } else {
            Err(ReadError::Changed)
        }),
{
    if !after.is_file || before.len != after.len || before.modified != after.modified || read
        != before.len {
        return Err(ReadError::Changed);
    }
    Ok(())
}

/// Whether a file of `len` bytes is read, where `spent` bytes of the budget are
/// spent.
pub open spec fn admitted(is_file: bool, len: nat, spent: nat) -> bool {
    is_file && len <= MAX_FILE_BYTES && spent + len <= MAX_TOTAL_BYTES
}

/// A run of an import.
#[derive(Debug)]
pub struct ImportRun {
    report: CodexImportReport,
    seen_ids: Vec<String>,
    read_bytes: u64,
}

/// What a run has done so far.
#[verifier::ext_equal]
pub struct RunModel {
    pub report: CodexImportReport,
    pub seen_ids: Seq<Seq<char>>,
    pub read_bytes: nat,
}

/// The characters of each string.
pub open spec fn ids(strings: Seq<String>) -> Seq<Seq<char>> {
    strings.map_values(|id: String| id@)
}

impl View for ImportRun {
    type V = RunModel;

    closed spec fn view(&self) -> RunModel {
        RunModel {
            report: self.report,
            seen_ids: ids(self.seen_ids@),
            read_bytes: self.read_bytes as nat,
        }
    }
}

impl RunModel {
    /// No session was imported twice, and the budget is kept.
    pub open spec fn well_formed(self) -> bool {
        self.seen_ids.no_duplicates() && self.read_bytes <= MAX_TOTAL_BYTES
    }

    /// The run after it has come to a file.
    pub open spec fn after_file(self, is_file: bool, len: nat) -> RunModel {
        if admitted(is_file, len, self.read_bytes) {
            RunModel { read_bytes: self.read_bytes + len, ..self }
        } else {
            RunModel { report: self.report.with_skipped(), ..self }
        }
    }

    /// The run after it has come to a record of the session `id`, which leaves
    /// out `unsupported` content parts.
    pub open spec fn after_record(self, id: Seq<char>, unsupported: nat) -> RunModel {
        if self.seen_ids.contains(id) {
            RunModel { report: self.report.with_skipped(), ..self }
        } else {
            RunModel {
                report: self.report.with_unsupported(unsupported),
                seen_ids: self.seen_ids.push(id),
                ..self
            }
        }
    }

    /// The run after a file or the import of a record has failed.
    pub open spec fn after_failure(self) -> RunModel {
        RunModel { report: self.report.with_failed(), ..self }
    }

    /// The run after a record has been imported.
    pub open spec fn after_import(self, outcome: ImportOutcome) -> RunModel {
        RunModel { report: self.report.with_outcome(outcome), ..self }
    }
}

impl ImportRun {
    /// A run that goes on with the report of a scan.
    pub fn new(report: CodexImportReport) -> (r: Self)
        ensures
            r@ == begun(report),
            r@.well_formed(),
    {
        let r = ImportRun { report, seen_ids: Vec::new(), read_bytes: 0 };
        assert(r@.seen_ids =~= Seq::empty());
        r
    }

    /// Comes to a file of `len` bytes. Returns whether it is to be read; if it
    /// is not, it is skipped.
    pub fn consider(&mut self, is_file: bool, len: u64) -> (r: bool)
        requires
            old(self)@.well_formed(),
        ensures
            r == admitted(is_file, len as nat, old(self)@.read_bytes),
            final(self)@ == old(self)@.after_file(is_file, len as nat),
            final(self)@.well_formed(),
    {
        if !is_file || len > MAX_FILE_BYTES || self.read_bytes.saturating_add(len)
            > MAX_TOTAL_BYTES {
            self.report.count_skipped();
            return false;
        }
        self.read_bytes = self.read_bytes + len;
        true
    }

    /// Comes to a record of the session `source_id`. Returns whether it is to
    /// be imported; if the session has been seen before, it is skipped.
    pub fn claim(&mut self, source_id: &str, unsupported: usize) -> (r: bool)
        requires
            old(self)@.well_formed(),
        ensures
            r == !old(self)@.seen_ids.contains(source_id@),
            final(self)@ == old(self)@.after_record(source_id@, unsupported as nat),
            final(self)@.well_formed(),
    {
        let mut i: usize = 0;
        while i < self.seen_ids.len()
            invariant
                i <= self.seen_ids@.len(),
                *self == *old(self),
                self@.well_formed(),
                forall|j: int| 0 <= j < i ==> #[trigger] self@.seen_ids[j] != source_id@,
            decreases self.seen_ids@.len() - i,
        {
            if text::str_eq(self.seen_ids[i].as_str(), source_id) {
                assert(self@.seen_ids[i as int] == source_id@);
                self.report.count_skipped();
                return false;
            }
            i += 1;
        }
        let ghost before = self@.seen_ids;
        self.report.count_unsupported(unsupported);
        self.seen_ids.push(source_id.to_owned());
        proof {
            assert(self@.seen_ids =~= before.push(source_id@));
        }
        true
    }

    /// Comes to the content of a file. Returns the record in it, where that is
    /// to be imported; a file without a record is a failure.
    pub fn read_record(&mut self, bytes: &[u8]) -> (r: Option<ImportedRecord>)
        requires
            old(self)@.well_formed(),
        ensures
            match record::recorded(bytes@) {
                Ok(found) => {
                    &&& final(self)@ == old(self)@.after_record(
                        found.source_id,
                        found.unsupported_content,
                    )
                    &&& match r {
                        Some(record) => !old(self)@.seen_ids.contains(found.source_id) && record@
                            == found,
                        None => old(self)@.seen_ids.contains(found.source_id),
                    }
                },
                Err(_) => r is None && final(self)@ == old(self)@.after_failure(),
            },
            final(self)@.well_formed(),
    {
        match record::parse_record(bytes) {
            Ok(found) => {
                if self.claim(found.source_id.as_str(), found.unsupported_content) {
                    Some(found)
                } else {
                    None
                }
            },
            Err(_) => {
                self.fail();
                None
            },
        }
    }

    /// Counts a file, or the import of a record, that failed.
    pub fn fail(&mut self)
        ensures
            final(self)@ == old(self)@.after_failure(),
    {
        self.report.count_failed();
    }

    /// Counts a record that was imported.
    pub fn settle(&mut self, outcome: ImportOutcome)
        ensures
            final(self)@ == old(self)@.after_import(outcome),
    {
        self.report.count_outcome(outcome);
    }

    /// The report of the run.
    pub fn into_report(self) -> (r: CodexImportReport)
        ensures
            r == self@.report,
    {
        self.report
    }
}

// ---------------------------------------------------------------------------
// Laws
// ---------------------------------------------------------------------------

/// What a file came to in a run.
pub enum Fate {
    /// Nothing could be learnt of it.
    Missing,
    /// It was not read.
    NotAdmitted { is_file: bool, len: nat },
    /// It was admitted, and it could not be read, or held no record.
    Unreadable { len: nat },
    /// It held a record of a session that had been seen.
    Repeated { len: nat, id: Seq<char>, unsupported: nat },
    /// It held a record that could not be imported.
    NotImported { len: nat, id: Seq<char>, unsupported: nat },
    /// It held a record that was imported.
    Imported { len: nat, id: Seq<char>, unsupported: nat, outcome: ImportOutcome },
}

impl RunModel {
    /// Whether `fate` can be the next of a file in this run.
    pub open spec fn can_meet(self, fate: Fate) -> bool {
        match fate {
            Fate::Missing => true,
            Fate::NotAdmitted { is_file, len } => !admitted(is_file, len, self.read_bytes),
            Fate::Unreadable { len } => admitted(true, len, self.read_bytes),
            Fate::Repeated { len, id, .. } => admitted(true, len, self.read_bytes)
                && self.seen_ids.contains(id),
            Fate::NotImported { len, id, .. } => admitted(true, len, self.read_bytes)
                && !self.seen_ids.contains(id),
            Fate::Imported { len, id, .. } => admitted(true, len, self.read_bytes)
                && !self.seen_ids.contains(id),
        }
    }

    /// The run after a file has met its fate.
    pub open spec fn after(self, fate: Fate) -> RunModel {
        match fate {
            Fate::Missing => self.after_failure(),
            Fate::NotAdmitted { is_file, len } => self.after_file(is_file, len),
            Fate::Unreadable { len } => self.after_file(true, len).after_failure(),
            Fate::Repeated { len, id, unsupported } => self.after_file(true, len).after_record(
                id,
                unsupported,
            ),
            Fate::NotImported { len, id, unsupported } => self.after_file(true, len).after_record(
                id,
                unsupported,
            ).after_failure(),
            Fate::Imported { len, id, unsupported, outcome } => self.after_file(
                true,
                len,
            ).after_record(id, unsupported).after_import(outcome),
        }
    }

    /// Whether `fates` can be those of the next files in this run.
    pub open spec fn can_meet_all(self, fates: Seq<Fate>) -> bool
        decreases fates.len(),
    {
        fates.len() > 0 ==> self.can_meet(fates[0]) && self.after(fates[0]).can_meet_all(
            fates.drop_first(),
        )
    }

    /// The run after files have met their fates.
    pub open spec fn after_all(self, fates: Seq<Fate>) -> RunModel
        decreases fates.len(),
    {
        if fates.len() == 0 {
            self
        } else {
            self.after(fates[0]).after_all(fates.drop_first())
        }
    }
}

/// Whatever becomes of the files, the report counts each of them once, among
/// the created, updated, unchanged, skipped or failed; and the run stays within
/// its budget and imports no session twice.
pub proof fn every_file_is_counted_once(run: RunModel, fates: Seq<Fate>)
    requires
        run.well_formed(),
        run.can_meet_all(fates),
        run.report.results() + fates.len() <= usize::MAX,
    ensures
        run.after_all(fates).well_formed(),
        run.after_all(fates).report.results() == run.report.results() + fates.len(),
        run.after_all(fates).report.scanned == run.report.scanned,
        run.after_all(fates).read_bytes <= MAX_TOTAL_BYTES,
    decreases fates.len(),
{
    if fates.len() > 0 {
        every_file_is_counted_once(run.after(fates[0]), fates.drop_first());
    }
}

/// A run that goes on with the report of a scan.
pub open spec fn begun(report: CodexImportReport) -> RunModel {
    RunModel { report, seen_ids: Seq::empty(), read_bytes: 0 }
}

/// Every session file that a scan finds comes to a result: once the run has gone
/// through the files that were kept, the report counts as many results as the
/// scan had meetings, and as many as there were session files where it met
/// nothing else.
pub proof fn every_scanned_file_has_a_result(limit: nat, meetings: Seq<Meeting>, fates: Seq<Fate>)
    requires
        meetings.len() <= usize::MAX,
        fates.len() == scan::after_meetings(limit, meetings).kept.len(),
        begun(scan::after_meetings(limit, meetings).report).can_meet_all(fates),
    ensures
        ({
            let run = begun(scan::after_meetings(limit, meetings).report);
            let report = run.after_all(fates).report;
            &&& report.scanned == scan::files_in(meetings).len()
            &&& report.results() == meetings.len()
            &&& report.results() == report.scanned + scan::deep_in(meetings) + scan::unreadable_in(
                meetings,
            )
        }),
{
    scan::scanned_files_are_kept_or_skipped(limit, meetings);
    every_file_is_counted_once(begun(scan::after_meetings(limit, meetings).report), fates);
}

/// The session of the record that a file held, where it held one.
pub open spec fn session_in(fate: Fate) -> Option<Seq<char>> {
    match fate {
        Fate::Missing => None,
        Fate::NotAdmitted { .. } => None,
        Fate::Unreadable { .. } => None,
        Fate::Repeated { id, .. } => Some(id),
        Fate::NotImported { id, .. } => Some(id),
        Fate::Imported { id, .. } => Some(id),
    }
}

proof fn lemma_seen_ids(run: RunModel, fates: Seq<Fate>, id: Seq<char>)
    requires
        run.can_meet_all(fates),
    ensures
        run.after_all(fates).seen_ids.contains(id) <==> run.seen_ids.contains(id) || exists|i: int|
            0 <= i < fates.len() && session_in(#[trigger] fates[i]) == Some(id),
    decreases fates.len(),
{
    if fates.len() > 0 {
        let next = run.after(fates[0]);
        let rest = fates.drop_first();
        lemma_seen_ids(next, rest, id);
        assert(next.seen_ids.contains(id) <==> run.seen_ids.contains(id) || session_in(fates[0])
            == Some(id)) by {
            if let Some(first) = session_in(fates[0]) {
                if !run.seen_ids.contains(first) {
                    let grown = run.seen_ids.push(first);
                    assert(next.seen_ids == grown);
                    assert(grown[run.seen_ids.len() as int] == first);
                    assert forall|other: Seq<char>| run.seen_ids.contains(other) implies grown.contains(
                        other,
                    ) by {
                        let k = choose|k: int|
                            0 <= k < run.seen_ids.len() && run.seen_ids[k] == other;
                        assert(grown[k] == other);
                    }
                }
            }
        }
        if exists|i: int| 0 <= i < rest.len() && session_in(#[trigger] rest[i]) == Some(id) {
            let i = choose|i: int| 0 <= i < rest.len() && session_in(#[trigger] rest[i]) == Some(id);
            assert(session_in(fates[i + 1]) == Some(id));
        }
        if exists|i: int| 0 <= i < fates.len() && session_in(#[trigger] fates[i]) == Some(id) {
            let i = choose|i: int|
                0 <= i < fates.len() && session_in(#[trigger] fates[i]) == Some(id);
            if i > 0 {
                assert(session_in(rest[i - 1]) == Some(id));
            }
        }
    }
}

proof fn lemma_meets(run: RunModel, fates: Seq<Fate>, at: int)
    requires
        run.can_meet_all(fates),
        0 <= at < fates.len(),
    ensures
        run.can_meet_all(fates.take(at)),
        run.after_all(fates.take(at)).can_meet(fates[at]),
    decreases at,
{
    if at == 0 {
        assert(fates.take(0) =~= Seq::empty());
    } else {
        lemma_meets(run.after(fates[0]), fates.drop_first(), at - 1);
        assert(fates.take(at).drop_first() =~= fates.drop_first().take(at - 1));
        assert(fates.take(at)[0] == fates[0]);
    }
}

/// A session is imported from the first file that holds it, and every later
/// file that holds it is skipped.
pub proof fn sessions_come_from_their_first_file(run: RunModel, fates: Seq<Fate>, at: int)
    requires
        run.can_meet_all(fates),
        0 <= at < fates.len(),
        session_in(fates[at]) is Some,
    ensures
        fates[at] is Repeated <==> run.seen_ids.contains(session_in(fates[at])->0) || exists|i: int|
            0 <= i < at && session_in(#[trigger] fates[i]) == session_in(fates[at]),
{
    let id = session_in(fates[at])->0;
    lemma_meets(run, fates, at);
    let before = fates.take(at);
    let seen = run.after_all(before);
    lemma_seen_ids(run, before, id);
    if exists|i: int| 0 <= i < at && session_in(#[trigger] fates[i]) == Some(id) {
        let i = choose|i: int| 0 <= i < at && session_in(#[trigger] fates[i]) == Some(id);
        assert(session_in(before[i]) == Some(id));
    }
    if exists|i: int| 0 <= i < before.len() && session_in(#[trigger] before[i]) == Some(id) {
        let i = choose|i: int| 0 <= i < before.len() && session_in(#[trigger] before[i]) == Some(id);
        assert(session_in(fates[i]) == Some(id));
    }
}

/// A session comes from the newest file: where a run goes through files in their
/// reading order, the file whose record of a session is taken is at least as new
/// as every other file that holds the session, and of files of one age it is the
/// one whose path sorts first.
pub proof fn sessions_come_from_their_newest_file(
    run: RunModel,
    files: Seq<CandidateModel>,
    fates: Seq<Fate>,
    at: int,
    other: int,
)
    requires
        selection::by_reading(files),
        fates.len() == files.len(),
        run.can_meet_all(fates),
        0 <= at < fates.len(),
        0 <= other < fates.len(),
        session_in(fates[at]) is Some,
        !(fates[at] is Repeated),
        session_in(fates[other]) == session_in(fates[at]),
    ensures
        files[at].modified >= files[other].modified,
        !selection::read_before(files[other], files[at]),
{
    sessions_come_from_their_first_file(run, fates, at);
    if at < other {
        selection::newer_files_are_read_first(files, at, other);
    } else {
        selection::candidates_are_ordered(files[at], files[at], files[at]);
    }
}

/// A file shows no change exactly where it is a file of the same length and the
/// same time of modification.
pub proof fn unchanged_files_agree_in_all(before: FileStamp, now: FileStamp)
    ensures
        unchanged_since(before, now) <==> now.is_file && before.len == now.len && before.modified
            == now.modified,
{
}

/// A file is read exactly where it is one, has at most 64 MiB, and leaves the run
/// within 512 MiB; it is then counted against that, and a file that is not read
/// is counted as skipped.
pub proof fn files_are_read_within_the_limits(run: RunModel, is_file: bool, len: nat)
    ensures
        admitted(is_file, len, run.read_bytes) <==> is_file && len <= 64 * 1024 * 1024
            && run.read_bytes + len <= 512 * 1024 * 1024,
        admitted(is_file, len, run.read_bytes) ==> run.after_file(is_file, len) == (RunModel {
            report: run.report,
            seen_ids: run.seen_ids,
            read_bytes: run.read_bytes + len,
        }),
        !admitted(is_file, len, run.read_bytes) ==> run.after_file(is_file, len) == (RunModel {
            report: run.report.with_skipped(),
            seen_ids: run.seen_ids,
            read_bytes: run.read_bytes,
        }),
{
}

/// A record of a session that was not seen is noted, and what it leaves out is
/// counted; a record of one that was seen is counted as skipped, and nothing else
/// of it.
pub proof fn each_session_is_noted_once(run: RunModel, id: Seq<char>, unsupported: nat)
    ensures
        run.seen_ids.contains(id) ==> run.after_record(id, unsupported) == (RunModel {
            report: run.report.with_skipped(),
            seen_ids: run.seen_ids,
            read_bytes: run.read_bytes,
        }),
        !run.seen_ids.contains(id) ==> run.after_record(id, unsupported) == (RunModel {
            report: run.report.with_unsupported(unsupported),
            seen_ids: run.seen_ids.push(id),
            read_bytes: run.read_bytes,
        }),
{
}

/// A failure and the outcome of an import are counted, and change nothing else; a
/// run begins with the report of its scan and nothing seen or read.
pub proof fn failures_and_outcomes_are_counted(
    run: RunModel,
    report: CodexImportReport,
    outcome: ImportOutcome,
)
    ensures
        run.after_failure() == (RunModel {
            report: run.report.with_failed(),
            seen_ids: run.seen_ids,
            read_bytes: run.read_bytes,
        }),
        run.after_import(outcome) == (RunModel {
            report: run.report.with_outcome(outcome),
            seen_ids: run.seen_ids,
            read_bytes: run.read_bytes,
        }),
        begun(report).report == report,
        begun(report).seen_ids.len() == 0,
        begun(report).read_bytes == 0,
{
}

} // verus!
