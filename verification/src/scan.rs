//! The scan for session files.
//!
//! The scan walks directories; what it does with each thing that it meets
//! there is decided here.

use vstd::prelude::*;
use vstd::multiset::Multiset;
use crate::report::CodexImportReport;
use crate::report;
use crate::selection::{Candidate, CandidateModel, NewestFiles, Offer};
use crate::selection;

verus! {

/// How many directories below its roots the scan goes.
pub const MAX_DEPTH: usize = 8;

/// How many files an import reads at most.
pub const MAX_FILES: usize = 5000;

/// Why a scan ends.
#[derive(Debug, Clone, Copy, PartialEq, Eq, Structural)]
pub enum ScanError {
    NotADirectory,
    RelativeHome,
    NoHome,
}

impl ScanError {
    /// What the error says.
    pub open spec fn said(self) -> Seq<char> {
        match self {
            ScanError::NotADirectory => "Codex session root must be a directory, not a symlink"@,
            ScanError::RelativeHome => "CODEX_HOME must be an absolute path"@,
            ScanError::NoHome => "home directory is unavailable"@,
        }
    }

    /// What the error says.
    pub fn message(&self) -> (r: &'static str)
        ensures
            r@ == self.said(),
    {
        match self {
            ScanError::NotADirectory => "Codex session root must be a directory, not a symlink",
            ScanError::RelativeHome => "CODEX_HOME must be an absolute path",
            ScanError::NoHome => "home directory is unavailable",
        }
    }
}

/// Where the Codex files are.
#[derive(Debug, Clone, Copy, PartialEq, Eq, Structural)]
pub enum CodexHome {
    /// Where `CODEX_HOME` says.
    Configured,
    /// In `.codex` in the home directory.
    InHomeDirectory,
}

/// Where the Codex files are: `configured` says whether `CODEX_HOME`, where it
/// is set, is an absolute path, and `home_known` whether there is a home
/// directory.
pub fn codex_home(configured: Option<bool>, home_known: bool) -> (r: Result<CodexHome, ScanError>)
    ensures
        r == (match configured {
            Some(absolute) => if absolute {
                Ok(CodexHome::Configured)
            } else {
                Err(ScanError::RelativeHome)
            },
            None => if home_known {
                Ok(CodexHome::InHomeDirectory)
            } else {
                Err(ScanError::NoHome)
            },
        }),
{
    match configured {
        Some(absolute) => if absolute {
            Ok(CodexHome::Configured)
        } else {
            Err(ScanError::RelativeHome)
        },
        None => if home_known {
            Ok(CodexHome::InHomeDirectory)
        } else {
            Err(ScanError::NoHome)
        },
    }
}

/// What the scan meets in a directory.
#[derive(Debug)]
pub enum DirectoryEntry {
    /// Something that cannot be read.
    Unreadable,
    /// A symbolic link.
    Symlink,
    Directory,
    /// A file of that name.
    File(Vec<u8>),
    /// Anything else.
    Other,
}

/// What the scan does next.
#[derive(Debug, Clone, Copy, PartialEq, Eq, Structural)]
pub enum ScanStep {
    /// It goes on.
    Pass,
    /// It reads the directory.
    ReadDirectory,
    /// It offers the file for import.
    OfferFile,
}

/// Whether a file called `name` has the extension `jsonl`: a dot and these
/// letters at the end, and something before the dot.
pub open spec fn session_file_name(name: Seq<u8>) -> bool {
    name.len() > 6 && name.subrange(name.len() - 6, name.len() as int) == seq![
        0x2eu8,
        0x6au8,
        0x73u8,
        0x6fu8,
        0x6eu8,
        0x6cu8,
    ]
}

/// Whether a file called `name` has the extension `jsonl`.
pub fn is_session_file_name(name: &Vec<u8>) -> (r: bool)
    ensures
        r == session_file_name(name@),
{
    let n: usize = name.len();
    if n <= 6 {
        return false;
    }
    let ghost end = name@.subrange(n - 6, n as int);
    let ghost extension = seq![0x2eu8, 0x6au8, 0x73u8, 0x6fu8, 0x6eu8, 0x6cu8];
    let r = name[n - 6] == 0x2e && name[n - 5] == 0x6a && name[n - 4] == 0x73 && name[n - 3] == 0x6f
        && name[n - 2] == 0x6e && name[n - 1] == 0x6c;
    proof {
        if r {
            assert(end =~= extension);
        } else if end == extension {
            assert(end[0] == 0x2e && end[1] == 0x6a && end[2] == 0x73 && end[3] == 0x6f && end[4]
                == 0x6e && end[5] == 0x6c);
        }
    }
    r
}

/// What a scan does at a directory `depth` levels below its root: `found` says
/// whether it is a directory and no symbolic link, where it exists.
pub open spec fn directory_step(found: Option<bool>, depth: nat) -> Result<ScanStep, ScanError> {
    match found {
        None => Ok(ScanStep::Pass),
        Some(is_directory) => if !is_directory {
            Err(ScanError::NotADirectory)
        } else if depth > MAX_DEPTH {
            Ok(ScanStep::Pass)
        } else {
            Ok(ScanStep::ReadDirectory)
        },
    }
}

/// What a scan does at an entry of a directory.
pub open spec fn entry_step(entry: DirectoryEntry) -> ScanStep {
    match entry {
        DirectoryEntry::Directory => ScanStep::ReadDirectory,
        DirectoryEntry::File(name) => if session_file_name(name@) {
            ScanStep::OfferFile
        } else {
            ScanStep::Pass
        },
        _ => ScanStep::Pass,
    }
}

/// A scan: the files it has kept, and the report so far.
#[derive(Debug)]
pub struct Scan {
    pub files: NewestFiles,
    pub report: CodexImportReport,
}

impl Scan {
    /// A scan that keeps at most `limit` files.
    pub fn new(limit: usize) -> (r: Self)
        ensures
            r.files.well_formed(),
            r.files.limit() == limit,
            r.files.kept() == Multiset::<CandidateModel>::empty(),
            r.report == report::nothing_done(),
    {
        Scan { files: NewestFiles::new(limit), report: CodexImportReport::default() }
    }

    /// Comes to a directory. One that lies too deep is skipped.
    pub fn enter_directory(&mut self, found: Option<bool>, depth: usize) -> (r: Result<
        ScanStep,
        ScanError,
    >)
        ensures
            r == directory_step(found, depth as nat),
            final(self).files == old(self).files,
            final(self).report == (if found == Some(true) && depth > MAX_DEPTH {
                old(self).report.with_skipped()
            } else {
                old(self).report
            }),
    {
        match found {
            None => Ok(ScanStep::Pass),
            Some(is_directory) => {
                if !is_directory {
                    return Err(ScanError::NotADirectory);
                }
                if depth > MAX_DEPTH {
                    self.report.count_skipped();
                    return Ok(ScanStep::Pass);
                }
                Ok(ScanStep::ReadDirectory)
            },
        }
    }

    /// Fails to read a directory. That ends the scan at a root of it, and is a
    /// failure further down. Returns whether the scan ends.
    pub fn unreadable_directory(&mut self, depth: usize) -> (r: bool)
        ensures
            r == (depth == 0),
            final(self).files == old(self).files,
            final(self).report == (if depth == 0 {
                old(self).report
            } else {
                old(self).report.with_failed()
            }),
    {
        if depth == 0 {
            return true;
        }
        self.report.count_failed();
        false
    }

    /// Comes to an entry of a directory.
    pub fn meet(&mut self, entry: &DirectoryEntry) -> (r: ScanStep)
        ensures
            r == entry_step(*entry),
            final(self).files == old(self).files,
            final(self).report == (match *entry {
                DirectoryEntry::Unreadable => old(self).report.with_failed(),
                _ => if entry_step(*entry) == ScanStep::OfferFile {
                    old(self).report.with_scanned()
                } else {
                    old(self).report
                },
            }),
    {
        match entry {
            DirectoryEntry::Unreadable => {
                self.report.count_failed();
                ScanStep::Pass
            },
            DirectoryEntry::Symlink => ScanStep::Pass,
            DirectoryEntry::Directory => ScanStep::ReadDirectory,
            DirectoryEntry::File(name) => {
                if is_session_file_name(name) {
                    self.report.count_scanned();
                    ScanStep::OfferFile
                } else {
                    ScanStep::Pass
                }
            },
            DirectoryEntry::Other => ScanStep::Pass,
        }
    }

    /// Offers a file. One of two files is skipped where there is no room for
    /// both.
    pub fn offer(&mut self, file: Candidate) -> (r: Offer)
        requires
            old(self).files.well_formed(),
        ensures
            final(self).files.well_formed(),
            final(self).files.limit() == old(self).files.limit(),
            final(self).files.kept() == selection::after_offer(
                old(self).files.limit(),
                old(self).files.kept(),
                file@,
            ),
            match r {
                Offer::Kept => old(self).files.kept().len() < old(self).files.limit()
                    && final(self).report == old(self).report,
                Offer::Replaced(out) => selection::pushes_out(
                    old(self).files.limit(),
                    old(self).files.kept(),
                    file@,
                ) && out@ == selection::oldest(old(self).files.kept()) && final(self).report == old(
                    self,
                ).report.with_skipped(),
                Offer::Dropped => old(self).files.kept().len() >= old(self).files.limit()
                    && !selection::pushes_out(
                    old(self).files.limit(),
                    old(self).files.kept(),
                    file@,
                ) && final(self).report == old(self).report.with_skipped(),
            },
    {
        let r = self.files.offer(file);
        match &r {
            Offer::Kept => {},
            _ => {
                self.report.count_skipped();
            },
        }
        r
    }
}

// ---------------------------------------------------------------------------
// Laws
// ---------------------------------------------------------------------------

/// What a scan has come to: the files it has kept, and the report so far.
#[verifier::ext_equal]
pub struct ScanModel {
    pub kept: Multiset<CandidateModel>,
    pub report: CodexImportReport,
}

/// What a scan meets that counts.
pub enum Meeting {
    /// A session file, which is offered.
    SessionFile(CandidateModel),
    /// A directory that lies too deep.
    TooDeep,
    /// An entry, or a directory below a root, that cannot be read.
    Unreadable,
}

/// A scan that keeps at most `limit` files, after a meeting.
pub open spec fn after_meeting(limit: nat, scan: ScanModel, meeting: Meeting) -> ScanModel {
    match meeting {
        Meeting::SessionFile(file) => ScanModel {
            kept: selection::after_offer(limit, scan.kept, file),
            report: if scan.kept.len() < limit {
                scan.report.with_scanned()
            } else {
                scan.report.with_scanned().with_skipped()
            },
        },
        Meeting::TooDeep => ScanModel { report: scan.report.with_skipped(), ..scan },
        Meeting::Unreadable => ScanModel { report: scan.report.with_failed(), ..scan },
    }
}

/// A scan that keeps at most `limit` files, after all of `meetings`.
pub open spec fn after_meetings(limit: nat, meetings: Seq<Meeting>) -> ScanModel
    decreases meetings.len(),
{
    if meetings.len() == 0 {
        ScanModel { kept: Multiset::empty(), report: report::nothing_done() }
    } else {
        after_meeting(limit, after_meetings(limit, meetings.drop_last()), meetings.last())
    }
}

/// The session files among `meetings`, in their order.
pub open spec fn files_in(meetings: Seq<Meeting>) -> Seq<CandidateModel>
    decreases meetings.len(),
{
    if meetings.len() == 0 {
        Seq::empty()
    } else {
        match meetings.last() {
            Meeting::SessionFile(file) => files_in(meetings.drop_last()).push(file),
            _ => files_in(meetings.drop_last()),
        }
    }
}

/// How many of `meetings` are with directories that lie too deep.
pub open spec fn deep_in(meetings: Seq<Meeting>) -> nat
    decreases meetings.len(),
{
    if meetings.len() == 0 {
        0
    } else {
        deep_in(meetings.drop_last()) + if meetings.last() is TooDeep {
            1nat
        } else {
            0nat
        }
    }
}

/// How many of `meetings` are with what cannot be read.
pub open spec fn unreadable_in(meetings: Seq<Meeting>) -> nat
    decreases meetings.len(),
{
    if meetings.len() == 0 {
        0
    } else {
        unreadable_in(meetings.drop_last()) + if meetings.last() is Unreadable {
            1nat
        } else {
            0nat
        }
    }
}

/// The limit discards single files, never the batch: every session file is
/// counted as scanned, and is kept or counted as skipped; the files that are
/// kept are the newest; and besides them the directories that lie too deep are
/// counted as skipped, and what cannot be read as failed.
pub proof fn scanned_files_are_kept_or_skipped(limit: nat, meetings: Seq<Meeting>)
    ensures
        ({
            let scan = after_meetings(limit, meetings);
            let files = files_in(meetings);
            &&& scan.kept == selection::after_offers(limit, files)
            &&& scan.kept.len() <= files.len()
            &&& scan.kept.len() <= limit
            &&& scan.report.scanned == report::counted(0, files.len())
            &&& scan.report.skipped == report::counted(
                0,
                (files.len() - scan.kept.len() + deep_in(meetings)) as nat,
            )
            &&& scan.report.failed == report::counted(0, unreadable_in(meetings))
            &&& scan.report == (CodexImportReport {
                scanned: scan.report.scanned,
                skipped: scan.report.skipped,
                failed: scan.report.failed,
                ..report::nothing_done()
            })
            &&& files.len() + deep_in(meetings) + unreadable_in(meetings) == meetings.len()
        }),
    decreases meetings.len(),
{
    let files = files_in(meetings);
    selection::the_newest_are_kept(limit, files);
    if meetings.len() > 0 {
        let earlier = meetings.drop_last();
        scanned_files_are_kept_or_skipped(limit, earlier);
        selection::the_newest_are_kept(limit, files_in(earlier));
        if let Meeting::SessionFile(file) = meetings.last() {
            assert(files.drop_last() =~= files_in(earlier));
        }
    }
}

/// A session file is called something with `.jsonl` at its end.
pub proof fn session_files_end_in_jsonl(stem: Seq<u8>, name: Seq<u8>)
    ensures
        session_file_name(stem + seq![0x2eu8, 0x6au8, 0x73u8, 0x6fu8, 0x6eu8, 0x6cu8])
            <==> stem.len() > 0,
        session_file_name(name) ==> name.len() > 6 && name == name.take(name.len() - 6) + seq![
            0x2eu8,
            0x6au8,
            0x73u8,
            0x6fu8,
            0x6eu8,
            0x6cu8,
        ],
{
    let extension = seq![0x2eu8, 0x6au8, 0x73u8, 0x6fu8, 0x6eu8, 0x6cu8];
    let whole = stem + extension;
    assert(whole.subrange(whole.len() - 6, whole.len() as int) =~= extension);
    if session_file_name(name) {
        assert(name =~= name.take(name.len() - 6) + name.subrange(
            name.len() - 6,
            name.len() as int,
        ));
    }
}

/// A directory is read where it exists, is no symbolic link and lies at most
/// eight levels deep; what is none, or a symbolic link, ends the scan.
pub proof fn directories_are_read_to_a_depth(depth: nat)
    ensures
        directory_step(None, depth) == Ok::<ScanStep, ScanError>(ScanStep::Pass),
        directory_step(Some(false), depth) == Err::<ScanStep, ScanError>(ScanError::NotADirectory),
        depth <= 8 ==> directory_step(Some(true), depth) == Ok::<ScanStep, ScanError>(
            ScanStep::ReadDirectory,
        ),
        depth > 8 ==> directory_step(Some(true), depth) == Ok::<ScanStep, ScanError>(ScanStep::Pass),
{
}

/// Of the entries of a directory, directories are read and session files are
/// offered, and all others are passed.
pub proof fn entries_are_followed_by_their_kind(entry: DirectoryEntry)
    ensures
        entry_step(entry) == ScanStep::ReadDirectory <==> entry is Directory,
        entry_step(entry) == ScanStep::OfferFile <==> (entry matches DirectoryEntry::File(name)
            && session_file_name(name@)),
{
}

} // verus!
