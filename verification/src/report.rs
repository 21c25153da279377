//! The report of an import.

use vstd::prelude::*;

verus! {

/// `count` with `more` added, where a counter ends at the largest `usize`.
pub open spec fn counted(count: nat, more: nat) -> nat {
    if count + more <= usize::MAX {
        count + more
    } else {
        usize::MAX as nat
    }
}

/// What an import did.
#[derive(Debug)]
pub struct CodexImportReport {
    /// The session files that the scan found.
    pub scanned: usize,
    pub created: usize,
    pub updated: usize,
    pub unchanged: usize,
    pub skipped: usize,
    pub failed: usize,
    /// The content parts that were left out because of their type.
    pub unsupported_content: usize,
}

impl Default for CodexImportReport {
    fn default() -> (r: Self)
        ensures
            r == nothing_done(),
    {
        CodexImportReport {
            scanned: 0,
            created: 0,
            updated: 0,
            unchanged: 0,
            skipped: 0,
            failed: 0,
            unsupported_content: 0,
        }
    }
}

/// The report of an import that did nothing.
pub open spec fn nothing_done() -> CodexImportReport {
    CodexImportReport {
        scanned: 0,
        created: 0,
        updated: 0,
        unchanged: 0,
        skipped: 0,
        failed: 0,
        unsupported_content: 0,
    }
}

/// What became of the import of one record.
#[derive(Debug, Clone, Copy, PartialEq, Eq, Structural)]
pub enum ImportOutcome {
    Created,
    Updated,
    Unchanged,
}

impl ImportOutcome {
    /// The name of the outcome.
    pub open spec fn name(self) -> Seq<char> {
        match self {
            ImportOutcome::Created => "created"@,
            ImportOutcome::Updated => "updated"@,
            ImportOutcome::Unchanged => "unchanged"@,
        }
    }

    /// The name of the outcome.
    pub fn as_str(&self) -> (r: &'static str)
        ensures
            r@ == self.name(),
    {
        match self {
            ImportOutcome::Created => "created",
            ImportOutcome::Updated => "updated",
            ImportOutcome::Unchanged => "unchanged",
        }
    }
}

impl CodexImportReport {
    /// This report with one more file that the scan found.
    pub open spec fn with_scanned(self) -> Self {
        CodexImportReport { scanned: counted(self.scanned as nat, 1) as usize, ..self }
    }

    /// This report with one more skip.
    pub open spec fn with_skipped(self) -> Self {
        CodexImportReport { skipped: counted(self.skipped as nat, 1) as usize, ..self }
    }

    /// This report with one more failure.
    pub open spec fn with_failed(self) -> Self {
        CodexImportReport { failed: counted(self.failed as nat, 1) as usize, ..self }
    }

    /// This report with one more record of that outcome.
    pub open spec fn with_outcome(self, outcome: ImportOutcome) -> Self {
        match outcome {
            ImportOutcome::Created => CodexImportReport {
                created: counted(self.created as nat, 1) as usize,
                ..self
            },
            ImportOutcome::Updated => CodexImportReport {
                updated: counted(self.updated as nat, 1) as usize,
                ..self
            },
            ImportOutcome::Unchanged => CodexImportReport {
                unchanged: counted(self.unchanged as nat, 1) as usize,
                ..self
            },
        }
    }

    /// This report with `more` content parts that were left out.
    pub open spec fn with_unsupported(self, more: nat) -> Self {
        CodexImportReport {
            unsupported_content: counted(self.unsupported_content as nat, more) as usize,
            ..self
        }
    }

    /// How many files the report has a result for.
    pub open spec fn results(self) -> nat {
        self.created as nat + self.updated as nat + self.unchanged as nat + self.skipped as nat
            + self.failed as nat
    }

    /// Counts a file that the scan found.
    pub fn count_scanned(&mut self)
        ensures
            *final(self) == old(self).with_scanned(),
    {
        self.scanned = self.scanned.saturating_add(1);
    }

    /// Counts a skip.
    pub fn count_skipped(&mut self)
        ensures
            *final(self) == old(self).with_skipped(),
    {
        self.skipped = self.skipped.saturating_add(1);
    }

    /// Counts a failure.
    pub fn count_failed(&mut self)
        ensures
            *final(self) == old(self).with_failed(),
    {
        self.failed = self.failed.saturating_add(1);
    }

    /// Counts a record of that outcome.
    pub fn count_outcome(&mut self, outcome: ImportOutcome)
        ensures
            *final(self) == old(self).with_outcome(outcome),
    {
        match outcome {
            ImportOutcome::Created => {
                self.created = self.created.saturating_add(1);
            },
            ImportOutcome::Updated => {
                self.updated = self.updated.saturating_add(1);
            },
            ImportOutcome::Unchanged => {
                self.unchanged = self.unchanged.saturating_add(1);
            },
        }
    }

    /// Counts content parts that were left out.
    pub fn count_unsupported(&mut self, more: usize)
        ensures
            *final(self) == old(self).with_unsupported(more as nat),
    {
        self.unsupported_content = self.unsupported_content.saturating_add(more);
    }
}

/// Each count adds one to its own number, or what it is told to add, as far as
/// that can be counted, and touches no other.
pub proof fn each_count_adds_to_its_own_number(
    report: CodexImportReport,
    outcome: ImportOutcome,
    more: nat,
)
    ensures
        report.scanned < usize::MAX ==> report.with_scanned() == (CodexImportReport {
            scanned: (report.scanned + 1) as usize,
            ..report
        }),
        report.skipped < usize::MAX ==> report.with_skipped() == (CodexImportReport {
            skipped: (report.skipped + 1) as usize,
            ..report
        }),
        report.failed < usize::MAX ==> report.with_failed() == (CodexImportReport {
            failed: (report.failed + 1) as usize,
            ..report
        }),
        report.created < usize::MAX ==> report.with_outcome(ImportOutcome::Created) == (
        CodexImportReport { created: (report.created + 1) as usize, ..report }),
        report.updated < usize::MAX ==> report.with_outcome(ImportOutcome::Updated) == (
        CodexImportReport { updated: (report.updated + 1) as usize, ..report }),
        report.unchanged < usize::MAX ==> report.with_outcome(ImportOutcome::Unchanged) == (
        CodexImportReport { unchanged: (report.unchanged + 1) as usize, ..report }),
        report.unsupported_content + more <= usize::MAX ==> report.with_unsupported(more) == (
        CodexImportReport {
            unsupported_content: (report.unsupported_content + more) as usize,
            ..report
        }),
        nothing_done().scanned == 0 && nothing_done().skipped == 0 && nothing_done().failed == 0,
        nothing_done().results() == 0 && nothing_done().unsupported_content == 0,
{
}

/// A counter counts all that it can hold, and then stays at the largest number.
pub proof fn counters_end_at_the_largest_number(count: nat, more: nat)
    ensures
        count + more <= usize::MAX ==> counted(count, more) == count + more,
        count + more > usize::MAX ==> counted(count, more) == usize::MAX,
{
}

} // verus!
