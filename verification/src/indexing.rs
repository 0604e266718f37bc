use vstd::prelude::*;
use vstd::string::StringExecFns;

use crate::text::str_equal;

verus! {

/// How many style files one workspace indexing pass reads at most.
pub const WORKSPACE_STYLE_INDEX_LIMIT: usize = 512;

/// How many directories one workspace indexing pass enters at most.
pub const WORKSPACE_STYLE_INDEX_DIR_LIMIT: usize = 2048;

/// How many milliseconds one workspace indexing pass may take.
pub const WORKSPACE_STYLE_INDEX_TIME_BUDGET_MS: u128 = 50;

#[verifier::external_type_specification]
#[verifier::external_body]
pub struct ExInstant(std::time::Instant);

/// Reads the monotonic clock with `std::time::Instant::now`. Nothing is claimed of
/// the instant it returns.
#[verifier::external_body]
fn instant_now() -> (res: std::time::Instant) {
    std::time::Instant::now()
}

/// The time since `start`, read with `std::time::Instant::elapsed`. Nothing is
/// claimed of it: it depends on the clock.
#[verifier::external_body]
fn elapsed_since(start: &std::time::Instant) -> (res: std::time::Duration) {
    start.elapsed()
}

/// The whole milliseconds of a duration, from `std::time::Duration::as_millis`.
/// Nothing is claimed of the number: a duration is opaque here.
#[verifier::external_body]
fn whole_millis(duration: &std::time::Duration) -> (res: u128) {
    duration.as_millis()
}

/// What is left of one workspace indexing pass: style files to read, directories
/// to enter and milliseconds to spend; and whether the pass ran out of any.
pub struct WorkspaceStyleIndexBudget {
    pub remaining_style_files: usize,
    pub remaining_dirs: usize,
    pub started_at: std::time::Instant,
    pub time_budget_ms: u128,
    pub exhausted: bool,
}

impl WorkspaceStyleIndexBudget {
    /// A budget of the default limits, starting now.
    pub fn with_defaults() -> (res: Self)
        ensures
            res.remaining_style_files == WORKSPACE_STYLE_INDEX_LIMIT,
            res.remaining_dirs == WORKSPACE_STYLE_INDEX_DIR_LIMIT,
            res.time_budget_ms == WORKSPACE_STYLE_INDEX_TIME_BUDGET_MS,
            !res.exhausted,
    {
        Self::with_limits(
            WORKSPACE_STYLE_INDEX_LIMIT,
            WORKSPACE_STYLE_INDEX_DIR_LIMIT,
            WORKSPACE_STYLE_INDEX_TIME_BUDGET_MS,
        )
    }

    /// A budget of the given limits, starting now.
    pub fn with_limits(remaining_style_files: usize, remaining_dirs: usize, time_budget_ms: u128) -> (res:
        Self)
        ensures
            res.remaining_style_files == remaining_style_files,
            res.remaining_dirs == remaining_dirs,
            res.time_budget_ms == time_budget_ms,
            !res.exhausted,
    {
        WorkspaceStyleIndexBudget {
            remaining_style_files,
            remaining_dirs,
            started_at: instant_now(),
            time_budget_ms,
            exhausted: false,
        }
    }

    /// Whether the pass must stop, `elapsed_ms` milliseconds after it started: no
    /// style file or no directory is left, or the time is spent. Stopping marks
    /// the budget exhausted; nothing else changes.
    pub fn should_stop_after(&mut self, elapsed_ms: u128) -> (res: bool)
        ensures
            res == (old(self).remaining_style_files == 0 || old(self).remaining_dirs == 0
                || elapsed_ms >= old(self).time_budget_ms),
            final(self).exhausted == (old(self).exhausted || res),
            final(self).remaining_style_files == old(self).remaining_style_files,
            final(self).remaining_dirs == old(self).remaining_dirs,
            final(self).time_budget_ms == old(self).time_budget_ms,
            final(self).started_at == old(self).started_at,
    {
        if self.remaining_style_files == 0 || self.remaining_dirs == 0 || elapsed_ms
            >= self.time_budget_ms {
            self.exhausted = true;
            return true;
        }
        false
    }

    /// Whether the pass must stop now (see `should_stop_after`, with the time since
    /// the budget was made). The clock is not stated: the pass certainly stops
    /// when no style file or no directory is left, or when no time was given.
    pub fn should_stop(&mut self) -> (res: bool)
        ensures
            (old(self).remaining_style_files == 0 || old(self).remaining_dirs == 0
                || old(self).time_budget_ms == 0) ==> res,
            final(self).exhausted == (old(self).exhausted || res),
            final(self).remaining_style_files == old(self).remaining_style_files,
            final(self).remaining_dirs == old(self).remaining_dirs,
            final(self).time_budget_ms == old(self).time_budget_ms,
            final(self).started_at == old(self).started_at,
    {
        let elapsed = elapsed_since(&self.started_at);
        let elapsed_ms = whole_millis(&elapsed);
        self.should_stop_after(elapsed_ms)
    }

    /// Counts one directory entered; the count stays at zero once there.
    pub fn consume_dir(&mut self)
        ensures
            final(self).remaining_dirs == if old(self).remaining_dirs == 0 {
                0
            } else {
                old(self).remaining_dirs - 1
            },
            final(self).remaining_style_files == old(self).remaining_style_files,
            final(self).time_budget_ms == old(self).time_budget_ms,
            final(self).exhausted == old(self).exhausted,
            final(self).started_at == old(self).started_at,
    {
        self.remaining_dirs = self.remaining_dirs.saturating_sub(1);
    }

    /// Counts one style file read; the count stays at zero once there.
    pub fn consume_style_file(&mut self)
        ensures
            final(self).remaining_style_files == if old(self).remaining_style_files == 0 {
                0
            } else {
                old(self).remaining_style_files - 1
            },
            final(self).remaining_dirs == old(self).remaining_dirs,
            final(self).time_budget_ms == old(self).time_budget_ms,
            final(self).exhausted == old(self).exhausted,
            final(self).started_at == old(self).started_at,
    {
        self.remaining_style_files = self.remaining_style_files.saturating_sub(1);
    }
}

/// The directory names that workspace indexing does not enter: caches, version
/// control, dependencies and build outputs.
pub open spec fn skipped_dir_name(name: Seq<char>) -> bool {
    name == ".cache"@ || name == ".git"@ || name == ".next"@ || name == ".turbo"@ || name
        == "build"@ || name == "coverage"@ || name == "dist"@ || name == "node_modules"@ || name
        == "out"@ || name == "target"@
}

/// Whether indexing skips a directory, given its last path component as text
/// (none where it has no such name).
pub fn should_skip_workspace_index_dir(dir_name: Option<&str>) -> (res: bool)
    ensures
        res == match dir_name {
            Some(name) => skipped_dir_name(name@),
            None => false,
        },
{
    match dir_name {
        Some(name) => str_equal(name, ".cache") || str_equal(name, ".git") || str_equal(
            name,
            ".next",
        ) || str_equal(name, ".turbo") || str_equal(name, "build") || str_equal(name, "coverage")
            || str_equal(name, "dist") || str_equal(name, "node_modules") || str_equal(name, "out")
            || str_equal(name, "target"),
        None => false,
    }
}

/// The `file://` URI of a path, given as text.
pub fn path_to_file_uri(path: &str) -> (res: String)
    ensures
        res@ == "file://"@ + path@,
{
    let mut uri = "file://".to_owned();
    uri.append(path);
    uri
}

} // verus!
