//! An indexing run: which directories are scanned, which files are skipped,
//! added or re-indexed, the counters kept on the way, and the progress
//! messages reported to the user.

use vstd::prelude::*;
use crate::config::AppConfig;
use crate::errors::AppError;
use crate::rag::IndexingProgressPayload;
use crate::strvec::{copy_str, lists};
use crate::text::{decimal, push_decimal};

verus! {

/// A progress message with this level, text and percentage.
pub open spec fn payload_is(p: IndexingProgressPayload, level: Seq<char>, message: Seq<char>, progress: u8) -> bool {
    p.level@ == level && p.message@ == message && p.progress == progress
}

fn payload(level: &str, message: String, progress: u8) -> (p: IndexingProgressPayload)
    ensures
        payload_is(p, level@, message@, progress),
{
    IndexingProgressPayload { level: String::from_str(level), message, progress }
}

/// The message that opens a run over `vault`.
pub fn scan_started(vault: &str) -> (p: IndexingProgressPayload)
    ensures
        payload_is(p, "INIT"@, "[START] Commencing directory scan at \""@ + vault@ + "\""@, 0),
{
    let mut m = String::from_str("[START] Commencing directory scan at \"");
    m.append(vault);
    m.append("\"");
    payload("INIT", m, 0)
}

/// What is done with the sandbox directory at the start of a run.
pub enum VaultScan {
    /// List its folders.
    Scan,
    /// Report that it is missing and go on without it.
    Missing,
    /// Go on without it, silently (no sandbox directory given).
    Skip,
}

/// Decides how the sandbox directory is used: scanned when given and
/// present, reported when given but missing, ignored when not given.
pub fn vault_scan(vault: &str, exists: bool) -> (r: VaultScan)
    ensures
        vault@.len() == 0 ==> r is Skip,
        vault@.len() > 0 && !exists ==> r is Missing,
        vault@.len() > 0 && exists ==> r is Scan,
{
    if vault.unicode_len() == 0 {
        VaultScan::Skip
    } else if !exists {
        VaultScan::Missing
    } else {
        VaultScan::Scan
    }
}

/// The message for a sandbox directory that does not exist.
pub fn vault_missing(vault: &str) -> (p: IndexingProgressPayload)
    ensures
        payload_is(p, "INDEX"@, "[INDEX] Vault path not found, skipping: "@ + vault@, 0),
{
    let mut m = String::from_str("[INDEX] Vault path not found, skipping: ");
    m.append(vault);
    payload("INDEX", m, 0)
}

/// Whether a folder of the sandbox directory is indexed: unless it is excluded.
pub fn includes_folder(config: &AppConfig, name: &str) -> (r: bool)
    ensures
        r == !lists(config.rag_exclusions@, name@),
{
    !config.is_rag_excluded(name)
}

/// The message for a configured RAG directory that is not a directory.
pub fn rag_dir_missing(dir: &str) -> (p: IndexingProgressPayload)
    ensures
        payload_is(p, "INDEX"@, "[INDEX] Indexed dir missing, skipping: "@ + dir@, 0),
{
    let mut m = String::from_str("[INDEX] Indexed dir missing, skipping: ");
    m.append(dir);
    payload("INDEX", m, 0)
}

/// The message for a file too large to index.
pub fn oversized_skipped(file: &str) -> (p: IndexingProgressPayload)
    ensures
        payload_is(p, "INDEX"@, "[INDEX] Skipping oversized file (>50 MB): "@ + file@, 0),
{
    let mut m = String::from_str("[INDEX] Skipping oversized file (>50 MB): ");
    m.append(file);
    payload("INDEX", m, 0)
}

/// The name shown for a directory: its last component, or `unknown`.
pub open spec fn shown_name(name: Option<&str>) -> Seq<char> {
    match name {
        Some(n) => n@,
        None => "unknown"@,
    }
}

/// The message announcing how many files of a directory are indexed.
pub fn group_announced(name: Option<&str>, files: usize) -> (p: IndexingProgressPayload)
    ensures
        payload_is(
            p,
            "INDEX"@,
            "[INDEX] Indexing "@ + shown_name(name) + ": "@ + decimal(files as nat) + " files"@,
            0,
        ),
{
    let mut m = String::from_str("[INDEX] Indexing ");
    match name {
        Some(n) => m.append(n),
        None => m.append("unknown"),
    }
    m.append(": ");
    push_decimal(&mut m, files as u64);
    m.append(" files");
    payload("INDEX", m, 0)
}

/// Message of the error of a run that found nothing to index.
pub open spec fn nothing_to_index() -> Seq<char> {
    "no indexable files found"@
}

/// The message of a run that found nothing to index.
pub fn nothing_found() -> (p: IndexingProgressPayload)
    ensures
        payload_is(p, "ERROR"@, nothing_to_index(), 0),
{
    payload("ERROR", String::from_str("no indexable files found"), 0)
}

/// The message announcing that the index is being saved.
pub fn optimizing() -> (p: IndexingProgressPayload)
    ensures
        payload_is(p, "OPTIMIZE"@, "[OPTIMIZE] Persisting vector index to disk..."@, 95),
{
    payload("OPTIMIZE", String::from_str("[OPTIMIZE] Persisting vector index to disk..."), 95)
}

/// Message of the error of a run whose index could not be saved.
pub open spec fn save_failed_message(err: Seq<char>) -> Seq<char> {
    "failed to save vector index: "@ + err
}

/// The message and the error of a run whose index could not be saved.
pub fn save_failed(err: &str) -> (r: (IndexingProgressPayload, AppError))
    ensures
        payload_is(r.0, "ERROR"@, save_failed_message(err@), 95),
        r.1 is SystemError && r.1.message() == save_failed_message(err@),
{
    let mut m = String::from_str("failed to save vector index: ");
    m.append(err);
    let e = copy_str(m.as_str());
    (payload("ERROR", m, 95), AppError::SystemError(e))
}

/// What is done with one file.
#[derive(Debug, Clone, Copy, PartialEq, Eq, Structural)]
pub enum FileAction {
    /// Unchanged since it was indexed: counted, not read.
    Skip,
    /// Never indexed: added.
    Add,
    /// Indexed before, or the run is forced: indexed again.
    Reindex,
}

/// The action for a file given when it was last indexed (its stored
/// modification time) and its modification time now.
pub open spec fn action_for(force: bool, stored: Option<u64>, current: Option<u64>) -> FileAction {
    if !force && stored is Some && current is Some && current->0 <= stored->0 {
        FileAction::Skip
    } else if force || stored is Some {
        FileAction::Reindex
    } else {
        FileAction::Add
    }
}

/// The modification time to remember for a file after it was processed:
/// its current one, when it was indexed successfully and the time is known.
pub fn mtime_to_store(indexed: bool, current: Option<u64>) -> (r: Option<u64>)
    ensures
        r == if indexed {
            current
        } else {
            None
        },
{
    if indexed {
        current
    } else {
        None
    }
}

/// The message of a file that could not be indexed.
pub open spec fn failure_message(file: Seq<char>, err: Seq<char>) -> Seq<char> {
    "[INDEX] Failed to index "@ + file + ": "@ + err + " \u{2014} skipping"@
}

/// The closing message of a run with its counters.
pub open spec fn summary_message(new: u64, reindexed: u64, skipped: u64, failed: u64) -> Seq<char> {
    "[SUCCESS] Ingestion completed. New: "@ + decimal(new as nat) + ", Reindexed: "@ + decimal(
        reindexed as nat,
    ) + ", Skipped: "@ + decimal(skipped as nat) + ", Failed: "@ + decimal(failed as nat)
}

/// The counters of an indexing run and the last percentage reported.
pub struct IndexingRun {
    total: usize,
    force: bool,
    done: usize,
    last_pct: u8,
    newly_indexed: u64,
    reindexed: u64,
    skipped: u64,
    failed: u64,
}

impl IndexingRun {
    /// Files the run goes through.
    pub closed spec fn files_total(self) -> nat {
        self.total as nat
    }

    /// Whether every file is indexed again, changed or not.
    pub closed spec fn forced(self) -> bool {
        self.force
    }

    /// Files processed so far.
    pub closed spec fn files_done(self) -> nat {
        self.done as nat
    }

    /// The last percentage reported.
    pub closed spec fn progress(self) -> u8 {
        self.last_pct
    }

    /// Files added for the first time.
    pub closed spec fn added(self) -> u64 {
        self.newly_indexed
    }

    /// Files indexed again.
    pub closed spec fn updated(self) -> u64 {
        self.reindexed
    }

    /// Files left as they were.
    pub closed spec fn unchanged(self) -> u64 {
        self.skipped
    }

    /// Files that could not be indexed.
    pub closed spec fn failures(self) -> u64 {
        self.failed
    }

    /// Every processed file is counted once, no more files are processed
    /// than were queued, the reported percentage stays at or below 90, and a
    /// forced run neither adds nor skips a file.
    pub open spec fn wf(self) -> bool {
        &&& self.added() + self.updated() + self.unchanged() + self.failures() == self.files_done()
        &&& self.files_done() <= self.files_total()
        &&& self.progress() <= 90
        &&& self.files_total() > 0
        &&& self.forced() ==> self.added() == 0 && self.unchanged() == 0
    }

    /// Whether every queued file has been processed.
    pub fn is_complete(&self) -> (r: bool)
        ensures
            r == (self.files_done() == self.files_total()),
    {
        self.done == self.total
    }

    /// The last percentage reported.
    pub fn last_progress(&self) -> (r: u8)
        ensures
            r == self.progress(),
    {
        self.last_pct
    }

    /// Starts a run over `total_files` files; a run with no file fails.
    pub fn start(total_files: usize, force: bool) -> (r: Result<IndexingRun, AppError>)
        ensures
            r is Ok <==> total_files > 0,
            r matches Err(e) ==> e is SystemError && e.message() == nothing_to_index(),
            r matches Ok(run) ==> {
                &&& run.wf()
                &&& run.files_total() == total_files
                &&& run.forced() == force
                &&& run.files_done() == 0
                &&& run.progress() == 0
            },
    {
        if total_files == 0 {
            return Err(AppError::SystemError(String::from_str("no indexable files found")));
        }
        Ok(
            IndexingRun {
                total: total_files,
                force,
                done: 0,
                last_pct: 0,
                newly_indexed: 0,
                reindexed: 0,
                skipped: 0,
                failed: 0,
            },
        )
    }

    /// The action for a file: skipped when unchanged since it was indexed
    /// (unless the run is forced), otherwise re-indexed when it was indexed
    /// before or the run is forced, otherwise added.
    pub fn action(&self, stored: Option<u64>, current: Option<u64>) -> (a: FileAction)
        ensures
            a == action_for(self.forced(), stored, current),
    {
        if !self.force {
            match (stored, current) {
                (Some(s), Some(c)) => {
                    if c <= s {
                        return FileAction::Skip;
                    }
                },
                _ => {},
            }
        }
        if self.force || stored.is_some() {
            FileAction::Reindex
        } else {
            FileAction::Add
        }
    }

    /// Counts one more processed file and reports the percentage `pct` when it
    /// differs from the last one, capped at 90.
    fn advance(&mut self, pct: u8) -> (p: Option<IndexingProgressPayload>)
        requires
            old(self).done < usize::MAX,
            old(self).last_pct <= 90,
        ensures
            final(self).done == old(self).done + 1,
            final(self).total == old(self).total,
            final(self).force == old(self).force,
            final(self).newly_indexed == old(self).newly_indexed,
            final(self).reindexed == old(self).reindexed,
            final(self).skipped == old(self).skipped,
            final(self).failed == old(self).failed,
            pct == old(self).last_pct ==> p is None && final(self).last_pct == old(self).last_pct,
            pct != old(self).last_pct ==> final(self).last_pct == (if pct <= 90 {
                pct
            } else {
                90u8
            }) && (p matches Some(q) && payload_is(q, "INDEX"@, Seq::empty(), final(self).last_pct)),
    {
        self.done = self.done + 1;
        if pct != self.last_pct {
            self.last_pct = if pct <= 90 {
                pct
            } else {
                90
            };
            Some(payload("INDEX", String::new(), self.last_pct))
        } else {
            None
        }
    }

    /// Records a file skipped as unchanged; `pct` is the share of files done
    /// now, scaled to 90, which never falls as files are processed. A forced
    /// run skips nothing.
    pub fn record_skip(&mut self, pct: u8) -> (p: Option<IndexingProgressPayload>)
        requires
            old(self).wf(),
            old(self).files_done() < old(self).files_total(),
            pct >= old(self).progress(),
            !old(self).forced(),
        ensures
            final(self).wf(),
            final(self).unchanged() == old(self).unchanged() + 1,
            final(self).added() == old(self).added(),
            final(self).updated() == old(self).updated(),
            final(self).failures() == old(self).failures(),
            progress_step(*old(self), *final(self), pct, p),
    {
        self.skipped = self.skipped + 1;
        self.advance(pct)
    }

    /// Records a file indexed with `action` (add or re-index; a forced run
    /// only re-indexes).
    pub fn record_indexed(&mut self, action: FileAction, pct: u8) -> (p: Option<IndexingProgressPayload>)
        requires
            old(self).wf(),
            old(self).files_done() < old(self).files_total(),
            pct >= old(self).progress(),
            action != FileAction::Skip,
            old(self).forced() ==> action == FileAction::Reindex,
        ensures
            final(self).wf(),
            action == FileAction::Add ==> final(self).added() == old(self).added() + 1
                && final(self).updated() == old(self).updated(),
            action == FileAction::Reindex ==> final(self).updated() == old(self).updated() + 1
                && final(self).added() == old(self).added(),
            final(self).unchanged() == old(self).unchanged(),
            final(self).failures() == old(self).failures(),
            progress_step(*old(self), *final(self), pct, p),
    {
        match action {
            FileAction::Add => {
                self.newly_indexed = self.newly_indexed + 1;
            },
            _ => {
                self.reindexed = self.reindexed + 1;
            },
        }
        self.advance(pct)
    }

    /// Records a file that could not be indexed: the failure is reported at
    /// the last percentage, then the progress moves on.
    pub fn record_failure(&mut self, file: &str, err: &str, pct: u8) -> (r: (
        IndexingProgressPayload,
        Option<IndexingProgressPayload>,
    ))
        requires
            old(self).wf(),
            old(self).files_done() < old(self).files_total(),
            pct >= old(self).progress(),
        ensures
            final(self).wf(),
            payload_is(r.0, "INDEX"@, failure_message(file@, err@), old(self).progress()),
            final(self).failures() == old(self).failures() + 1,
            final(self).added() == old(self).added(),
            final(self).updated() == old(self).updated(),
            final(self).unchanged() == old(self).unchanged(),
            progress_step(*old(self), *final(self), pct, r.1),
    {
        let mut m = String::from_str("[INDEX] Failed to index ");
        m.append(file);
        m.append(": ");
        m.append(err);
        m.append(" \u{2014} skipping");
        let report = payload("INDEX", m, self.last_pct);
        self.failed = self.failed + 1;
        let p = self.advance(pct);
        (report, p)
    }

    /// The closing message of the run, once every queued file is processed:
    /// its counters add up to the files queued.
    pub fn summary(&self) -> (p: IndexingProgressPayload)
        requires
            self.wf(),
            self.files_done() == self.files_total(),
        ensures
            self.added() + self.updated() + self.unchanged() + self.failures() == self.files_total(),
            self.forced() ==> self.added() == 0 && self.unchanged() == 0,
            payload_is(
                p,
                "SUCCESS"@,
                summary_message(self.added(), self.updated(), self.unchanged(), self.failures()),
                100,
            ),
    {
        let mut m = String::from_str("[SUCCESS] Ingestion completed. New: ");
        push_decimal(&mut m, self.newly_indexed);
        m.append(", Reindexed: ");
        push_decimal(&mut m, self.reindexed);
        m.append(", Skipped: ");
        push_decimal(&mut m, self.skipped);
        m.append(", Failed: ");
        push_decimal(&mut m, self.failed);
        payload("SUCCESS", m, 100)
    }
}

/// One processed file moves the run on: one more file done, the same total
/// and mode, and a progress report exactly when the percentage changed,
/// capped at 90.
pub open spec fn progress_step(
    before: IndexingRun,
    after: IndexingRun,
    pct: u8,
    p: Option<IndexingProgressPayload>,
) -> bool {
    &&& after.files_done() == before.files_done() + 1
    &&& after.files_total() == before.files_total()
    &&& after.forced() == before.forced()
    &&& after.progress() >= before.progress()
    &&& (pct == before.progress() ==> p is None && after.progress() == before.progress())
    &&& (pct != before.progress() ==> after.progress() == (if pct <= 90 {
        pct
    } else {
        90u8
    }) && (p matches Some(q) && payload_is(q, "INDEX"@, Seq::empty(), after.progress())))
}

/// While files are processed the reported percentage never falls and never
/// exceeds 90: the last tenth is left for saving (95) and completion (100).
pub proof fn law_progress_capped_while_indexing(
    before: IndexingRun,
    after: IndexingRun,
    pct: u8,
    p: Option<IndexingProgressPayload>,
)
    requires
        before.wf(),
        progress_step(before, after, pct, p),
    ensures
        before.progress() <= after.progress() <= 90,
        p matches Some(q) ==> before.progress() <= q.progress <= 90,
{
}

} // verus!
