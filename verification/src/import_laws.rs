//! What holds of whole imports: the scan, the run over the files that it keeps,
//! and the ledger together.

use vstd::prelude::*;
use crate::import_run::{Fate, RunModel};
use crate::import_run;
use crate::plan::LedgerModel;
use crate::plan;
use crate::record;
use crate::report::{CodexImportReport, ImportOutcome};
use crate::scan::Meeting;
use crate::scan;
use crate::selection::CandidateModel;
use crate::selection;

verus! {

/// A file on disk.
pub struct FileModel {
    pub is_file: bool,
    pub len: nat,
    pub content: Seq<u8>,
}

/// What an import of one file meets outside: what goes wrong, and the id and the
/// time that it would be given.
pub struct Chance {
    /// Nothing can be learnt of the file.
    pub missing: bool,
    /// The file cannot be read, or changes while it is read.
    pub unreadable: bool,
    /// The ledger cannot be written.
    pub unwritable: bool,
    pub fresh_id: Seq<char>,
    pub now: Seq<char>,
}

impl Chance {
    /// Whether nothing goes wrong.
    pub open spec fn fair(self) -> bool {
        !self.missing && !self.unreadable && !self.unwritable
    }
}

/// What the ledger, which holds its entries by source, holds of one of them;
/// nothing where it does not know the source.
pub open spec fn entry(ledger: Map<Seq<char>, LedgerModel>, source_id: Seq<char>) -> LedgerModel {
    if ledger.dom().contains(source_id) {
        ledger[source_id]
    } else {
        plan::unknown_source()
    }
}

/// An import: the run, and the ledger.
#[verifier::ext_equal]
pub struct ImportModel {
    pub run: RunModel,
    pub ledger: Map<Seq<char>, LedgerModel>,
}

impl ImportModel {
    /// What becomes of a file.
    pub open spec fn fate(self, file: FileModel, chance: Chance) -> Fate {
        let len = file.len;
        if chance.missing {
            Fate::Missing
        } else if !import_run::admitted(file.is_file, len, self.run.read_bytes) {
            Fate::NotAdmitted { is_file: file.is_file, len }
        } else if chance.unreadable {
            Fate::Unreadable { len }
        } else {
            match record::recorded(file.content) {
                Err(_) => Fate::Unreadable { len },
                Ok(found) => {
                    let id = found.source_id;
                    let unsupported = found.unsupported_content;
                    if self.run.seen_ids.contains(id) {
                        Fate::Repeated { len, id, unsupported }
                    } else if chance.unwritable {
                        Fate::NotImported { len, id, unsupported }
                    } else {
                        Fate::Imported {
                            len,
                            id,
                            unsupported,
                            outcome: plan::outcome_of(entry(self.ledger, id).source, found.hash),
                        }
                    }
                },
            }
        }
    }

    /// The import after a file: the run counts what became of it, and a record
    /// that is imported is written as planned.
    pub open spec fn after(self, file: FileModel, chance: Chance) -> ImportModel {
        let fate = self.fate(file, chance);
        ImportModel {
            run: self.run.after(fate),
            ledger: if fate is Imported {
                let found = record::recorded(file.content)->Ok_0;
                let known = entry(self.ledger, found.source_id);
                let writes = plan::planned(
                    known.source,
                    found,
                    chance.fresh_id,
                    chance.now,
                ).writes;
                if writes.len() == 0 {
                    self.ledger
                } else {
                    self.ledger.insert(found.source_id, plan::all_written(known, writes))
                }
            } else {
                self.ledger
            },
        }
    }

    /// The import after `files`.
    pub open spec fn after_all(self, files: Seq<FileModel>, chances: Seq<Chance>) -> ImportModel
        decreases files.len(),
    {
        if files.len() == 0 {
            self
        } else {
            self.after_all(files.drop_last(), chances.drop_last()).after(
                files.last(),
                chances.last(),
            )
        }
    }
}

/// What becomes of `files` in an import, in their order.
pub open spec fn fates(import: ImportModel, files: Seq<FileModel>, chances: Seq<Chance>) -> Seq<Fate>
    decreases files.len(),
{
    if files.len() == 0 {
        Seq::empty()
    } else {
        let (earlier, met) = (files.drop_last(), chances.drop_last());
        fates(import, earlier, met).push(
            import.after_all(earlier, met).fate(files.last(), chances.last()),
        )
    }
}

/// Whether a file gave nothing to write: it held no record that was taken, or
/// the record was unchanged.
pub open spec fn unwritten(fate: Fate) -> bool {
    fate matches Fate::Imported { outcome, .. } ==> outcome == ImportOutcome::Unchanged
}

/// An import that begins after what a scan met.
pub open spec fn started(
    limit: nat,
    meetings: Seq<Meeting>,
    ledger: Map<Seq<char>, LedgerModel>,
) -> ImportModel {
    ImportModel { run: import_run::begun(scan::after_meetings(limit, meetings).report), ledger }
}

/// A whole import over what a scan met, with the files that it kept in the order
/// in which they are read.
pub open spec fn imported(
    limit: nat,
    meetings: Seq<Meeting>,
    order: Seq<CandidateModel>,
    disk: spec_fn(CandidateModel) -> FileModel,
    chances: Seq<Chance>,
    ledger: Map<Seq<char>, LedgerModel>,
) -> ImportModel {
    started(limit, meetings, ledger).after_all(order.map_values(disk), chances)
}

/// Whether `order` are the files that the scan kept, in their reading order.
pub open spec fn reading_order(
    limit: nat,
    meetings: Seq<Meeting>,
    order: Seq<CandidateModel>,
) -> bool {
    selection::by_reading(order) && order.to_multiset() == scan::after_meetings(
        limit,
        meetings,
    ).kept
}

/// What holds of every run holds of every import: its files meet fates that can
/// be met, one for each file, and its run is the one after these.
pub proof fn imports_are_runs(import: ImportModel, files: Seq<FileModel>, chances: Seq<Chance>)
    ensures
        fates(import, files, chances).len() == files.len(),
        import.run.can_meet_all(fates(import, files, chances)),
        import.run.after_all(fates(import, files, chances)) == import.after_all(files, chances).run,
    decreases files.len(),
{
    if files.len() > 0 {
        let (earlier, met) = (files.drop_last(), chances.drop_last());
        imports_are_runs(import, earlier, met);
        lemma_one_more_fate(
            import.run,
            fates(import, earlier, met),
            import.after_all(earlier, met).fate(files.last(), chances.last()),
        );
    }
}

proof fn lemma_one_more_fate(run: RunModel, met: Seq<Fate>, fate: Fate)
    requires
        run.can_meet_all(met),
        run.after_all(met).can_meet(fate),
    ensures
        run.can_meet_all(met.push(fate)),
        run.after_all(met.push(fate)) == run.after_all(met).after(fate),
    decreases met.len(),
{
    let all = met.push(fate);
    if met.len() == 0 {
        assert(all.drop_first() =~= Seq::empty());
        assert(run.after(fate).can_meet_all(all.drop_first()));
        assert(run.after(fate).after_all(all.drop_first()) == run.after(fate));
    } else {
        assert(all.drop_first() =~= met.drop_first().push(fate));
        lemma_one_more_fate(run.after(met[0]), met.drop_first(), fate);
    }
}

/// A file that fails is counted, and a count of failures never falls.
proof fn lemma_no_failure(import: ImportModel, file: FileModel, chance: Chance)
    requires
        import.after(file, chance).run.report.failed == 0,
    ensures
        import.run.report.failed == 0,
        !(import.fate(file, chance) is Missing),
        !(import.fate(file, chance) is Unreadable),
        !(import.fate(file, chance) is NotImported),
{
}

/// Where one import of `files` fails nowhere, an import that finds what the first
/// one left of each session that it took goes through the files in the same way,
/// finds every record unchanged and writes nothing.
proof fn lemma_second_run(
    first: ImportModel,
    second: ImportModel,
    files: Seq<FileModel>,
    chances: Seq<Chance>,
    others: Seq<Chance>,
)
    requires
        first.run.seen_ids.len() == 0,
        first.run == second.run,
        chances.len() == files.len(),
        others.len() == files.len(),
        first.after_all(files, chances).run.report.failed == 0,
        forall|i: int| 0 <= i < others.len() ==> (#[trigger] others[i]).fair(),
        forall|id: Seq<char>| #[trigger]
            first.after_all(files, chances).run.seen_ids.contains(id) ==> entry(
                second.ledger,
                id,
            ).source == entry(first.after_all(files, chances).ledger, id).source,
        first.run.report.created + first.run.report.updated + first.run.report.unchanged
            + files.len() <= usize::MAX,
    ensures
        ({
            let a = first.after_all(files, chances);
            let b = second.after_all(files, others);
            &&& b.ledger == second.ledger
            &&& forall|i: int|
                0 <= i < files.len() ==> unwritten(#[trigger] fates(second, files, others)[i])
            &&& b.run.seen_ids == a.run.seen_ids
            &&& b.run.read_bytes == a.run.read_bytes
            &&& a.run.report.created + a.run.report.updated + a.run.report.unchanged
                <= first.run.report.created + first.run.report.updated + first.run.report.unchanged
                + files.len()
            &&& a.run.report.created + a.run.report.updated + a.run.report.unchanged
                == b.run.report.unchanged + first.run.report.created + first.run.report.updated
            &&& b.run.report == (CodexImportReport {
                created: first.run.report.created,
                updated: first.run.report.updated,
                unchanged: b.run.report.unchanged,
                ..a.run.report
            })
            &&& forall|id: Seq<char>| #[trigger]
                a.run.seen_ids.contains(id) ==> entry(a.ledger, id).source is Some
        }),
    decreases files.len(),
{
    if files.len() > 0 {
        let (f, c, o) = (files.drop_last(), chances.drop_last(), others.drop_last());
        let (file, chance, other) = (files.last(), chances.last(), others.last());
        let a = first.after_all(f, c);
        let a_next = a.after(file, chance);
        lemma_no_failure(a, file, chance);
        let fate = a.fate(file, chance);
        assert(other == others[others.len() - 1]);
        assert forall|i: int| 0 <= i < o.len() implies (#[trigger] o[i]).fair() by {
            assert(others[i].fair());
        }
        lemma_seen_grows(a, file, chance);
        assert forall|id: Seq<char>| #[trigger] a.run.seen_ids.contains(id) implies entry(
            second.ledger,
            id,
        ).source == entry(a.ledger, id).source by {
            assert(a_next.run.seen_ids.contains(id));
        }
        lemma_second_run(first, second, f, c, o);
        let b = second.after_all(f, o);
        if let Fate::Imported { id, .. } = fate {
            let found = record::recorded(file.content)->Ok_0;
            let known = entry(a.ledger, id);
            if plan::outcome_of(known.source, found.hash) != ImportOutcome::Unchanged {
                plan::an_import_leaves_the_record(known, found, chance.fresh_id, chance.now);
            }
            assert(entry(a_next.ledger, id).source matches Some(source) && source.content_hash
                == found.hash);
            assert(a_next.run.seen_ids.contains(id));
            assert(entry(second.ledger, id).source == entry(a_next.ledger, id).source);
        }
        assert(b.fate(file, other) == (match fate {
            Fate::Imported { len, id, unsupported, .. } => Fate::Imported {
                len,
                id,
                unsupported,
                outcome: ImportOutcome::Unchanged,
            },
            _ => fate,
        }));
        let b_fates = fates(second, files, others);
        imports_are_runs(second, f, o);
        assert forall|i: int| 0 <= i < files.len() implies unwritten(#[trigger] b_fates[i]) by {
            if i < f.len() {
                assert(b_fates[i] == fates(second, f, o)[i]);
            }
        }
    }
}

/// A file adds at most its own session to those that were seen, and changes what
/// the ledger holds of no other.
proof fn lemma_seen_grows(import: ImportModel, file: FileModel, chance: Chance)
    ensures
        ({
            let next = import.after(file, chance);
            &&& forall|id: Seq<char>|
                import.run.seen_ids.contains(id) ==> #[trigger] next.run.seen_ids.contains(id)
            &&& forall|id: Seq<char>| #[trigger]
                import.run.seen_ids.contains(id) ==> entry(next.ledger, id) == entry(
                    import.ledger,
                    id,
                )
            &&& forall|id: Seq<char>| #[trigger]
                next.run.seen_ids.contains(id) ==> import.run.seen_ids.contains(id)
                    || import_run::session_in(import.fate(file, chance)) == Some(id)
            &&& import.fate(file, chance) matches Fate::Imported { id, .. }
                ==> next.run.seen_ids.contains(id)
        }),
{
    let next = import.after(file, chance);
    let seen = import.run.seen_ids;
    if let Some(own) = import_run::session_in(import.fate(file, chance)) {
        if !seen.contains(own) {
            let grown = seen.push(own);
            assert(next.run.seen_ids == grown);
            assert(grown[seen.len() as int] == own);
            assert forall|id: Seq<char>| seen.contains(id) implies #[trigger] grown.contains(id) by {
                let k = choose|k: int| 0 <= k < seen.len() && seen[k] == id;
                assert(grown[k] == id);
            }
        }
    }
}

/// A second import changes nothing: after an import in which nothing failed, with
/// the same files on disk and the ledger as it was left, and where nothing goes
/// wrong, an import writes nothing and leaves the ledger as it is. It reports
/// every record that the first one took as unchanged, and the same numbers of
/// files that were scanned and skipped and of content parts that were left out.
/// The scan may meet the files in another order.
pub proof fn a_second_import_changes_nothing(
    max_files: usize,
    disk: spec_fn(CandidateModel) -> FileModel,
    ledger: Map<Seq<char>, LedgerModel>,
    meetings: Seq<Meeting>,
    order: Seq<CandidateModel>,
    chances: Seq<Chance>,
    later_meetings: Seq<Meeting>,
    later_order: Seq<CandidateModel>,
    later_chances: Seq<Chance>,
)
    requires
        reading_order(max_files as nat, meetings, order),
        chances.len() == order.len(),
        imported(max_files as nat, meetings, order, disk, chances, ledger).run.report.failed == 0,
        scan::files_in(later_meetings).to_multiset() == scan::files_in(meetings).to_multiset(),
        scan::deep_in(later_meetings) == scan::deep_in(meetings),
        scan::unreadable_in(later_meetings) == 0,
        reading_order(max_files as nat, later_meetings, later_order),
        later_chances.len() == later_order.len(),
        forall|i: int| 0 <= i < later_chances.len() ==> (#[trigger] later_chances[i]).fair(),
    ensures
        ({
            let first = imported(max_files as nat, meetings, order, disk, chances, ledger);
            let second = imported(
                max_files as nat,
                later_meetings,
                later_order,
                disk,
                later_chances,
                first.ledger,
            );
            let (r, s) = (first.run.report, second.run.report);
            &&& second.ledger == first.ledger
            &&& forall|i: int|
                0 <= i < later_order.len() ==> unwritten(
                    #[trigger] fates(
                        started(max_files as nat, later_meetings, first.ledger),
                        later_order.map_values(disk),
                        later_chances,
                    )[i],
                )
            &&& s.created == 0
            &&& s.updated == 0
            &&& s.unchanged == r.created + r.updated + r.unchanged
            &&& s.scanned == r.scanned
            &&& s.skipped == r.skipped
            &&& s.failed == 0
            &&& s.unsupported_content == r.unsupported_content
        }),
{
    broadcast use vstd::seq_lib::group_to_multiset_ensures;

    let (met, later_met) = (
        scan::after_meetings(max_files as nat, meetings),
        scan::after_meetings(max_files as nat, later_meetings),
    );
    let (found, later_found) = (scan::files_in(meetings), scan::files_in(later_meetings));
    scan::scanned_files_are_kept_or_skipped(max_files as nat, meetings);
    scan::scanned_files_are_kept_or_skipped(max_files as nat, later_meetings);
    selection::the_order_of_offers_does_not_matter(max_files as nat, found, later_found);
    selection::the_reading_order_is_unique(order, later_order);
    assert(found.len() == found.to_multiset().len());
    assert(later_found.len() == later_found.to_multiset().len());
    assert(order.len() == order.to_multiset().len());
    let files = order.map_values(disk);
    let start = started(max_files as nat, meetings, ledger);
    let first = start.after_all(files, chances);
    lemma_failures_only_grow(start, files, chances);
    assert(met.report == later_met.report);
    let again = started(max_files as nat, later_meetings, first.ledger);
    lemma_second_run(start, again, files, chances, later_chances);
}

proof fn lemma_failures_only_grow(import: ImportModel, files: Seq<FileModel>, chances: Seq<Chance>)
    ensures
        import.after_all(files, chances).run.report.failed >= import.run.report.failed,
    decreases files.len(),
{
    if files.len() > 0 {
        lemma_failures_only_grow(import, files.drop_last(), chances.drop_last());
    }
}

} // verus!
