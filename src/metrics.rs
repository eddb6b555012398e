use vstd::prelude::*;

use crate::catalog::Metrics;
use crate::config::SizeMode;

verus! {

/// The sums of a project walk so far: bytes (saturating at `i64::MAX`), the
/// number of files, and the newest modification time seen (0 when none).
pub struct MetricsAccumulator {
    pub total_size: i64,
    pub files_count: i64,
    pub latest_mtime: i64,
}

pub open spec fn sat_i64(x: int) -> i64 {
    if x >= i64::MAX {
        i64::MAX
    } else {
        x as i64
    }
}

pub open spec fn max_i64(a: i64, b: i64) -> i64 {
    if a >= b {
        a
    } else {
        b
    }
}

/// The metrics the walk yields: the size only when sizes are computed, the
/// file count always, the last edit only when some modification time was
/// seen.
pub open spec fn finish_spec(acc: MetricsAccumulator, mode: SizeMode, loc: Option<i64>) -> Metrics {
    Metrics {
        size_bytes: if mode == SizeMode::ExactCached {
            Some(acc.total_size)
        } else {
            None
        },
        files_count: Some(acc.files_count),
        last_edited_at: if acc.latest_mtime > 0 {
            Some(acc.latest_mtime)
        } else {
            None
        },
        loc,
    }
}

/// The last-edit time after the repository's last commit is taken into
/// account: a commit newer than the files, or any commit when no file time is
/// known, supersedes it.
pub open spec fn merged_last_edit(walk: Option<i64>, commit: Option<i64>) -> Option<i64> {
    match (walk, commit) {
        (Some(w), Some(c)) => if c > w {
            Some(c)
        } else {
            Some(w)
        },
        (None, Some(c)) => Some(c),
        (w, None) => w,
    }
}

impl MetricsAccumulator {
    pub fn new() -> (r: MetricsAccumulator)
        ensures
            r.total_size == 0,
            r.files_count == 0,
            r.latest_mtime == 0,
    {
        MetricsAccumulator { total_size: 0, files_count: 0, latest_mtime: 0 }
    }

    /// Counts one file. `size` and `mtime` (seconds since the epoch) are
    /// absent when the file's metadata could not be read; such a file is
    /// counted but adds nothing else.
    pub fn add_file(&mut self, size: Option<u64>, mtime: Option<u64>)
        requires
            old(self).total_size >= 0,
            old(self).files_count >= 0,
            old(self).latest_mtime >= 0,
        ensures
            final(self).files_count == sat_i64(old(self).files_count + 1),
            final(self).total_size == match size {
                Some(s) => sat_i64(old(self).total_size + s),
                None => old(self).total_size,
            },
            final(self).latest_mtime == match mtime {
                Some(t) => max_i64(old(self).latest_mtime, sat_i64(t as int)),
                None => old(self).latest_mtime,
            },
            final(self).total_size >= 0,
            final(self).files_count >= 0,
            final(self).latest_mtime >= 0,
    {
        if self.files_count < i64::MAX {
            self.files_count = self.files_count + 1;
        }
        match size {
            Some(s) => {
                let room = (i64::MAX - self.total_size) as u64;
                if s >= room {
                    self.total_size = i64::MAX;
                } else {
                    self.total_size = self.total_size + s as i64;
                }
            },
            None => {},
        }
        match mtime {
            Some(t) => {
                let t64: i64 = if t >= i64::MAX as u64 {
                    i64::MAX
                } else {
                    t as i64
                };
                if t64 > self.latest_mtime {
                    self.latest_mtime = t64;
                }
            },
            None => {},
        }
    }

    /// The metrics of the walk under the size policy, with the given line
    /// count.
    pub fn finish(&self, mode: SizeMode, loc: Option<i64>) -> (r: Metrics)
        ensures
            r == finish_spec(*self, mode, loc),
    {
        Metrics {
            size_bytes: match mode {
                SizeMode::ExactCached => Some(self.total_size),
                SizeMode::Skip => None,
            },
            files_count: Some(self.files_count),
            last_edited_at: if self.latest_mtime > 0 {
                Some(self.latest_mtime)
            } else {
                None
            },
            loc,
        }
    }
}

/// Lets a repository's last commit time supersede an older last-edit time.
pub fn merge_last_edited(walk: Option<i64>, commit: Option<i64>) -> (r: Option<i64>)
    ensures
        r == merged_last_edit(walk, commit),
{
    match (walk, commit) {
        (Some(w), Some(c)) => if c > w {
            Some(c)
        } else {
            Some(w)
        },
        (None, Some(c)) => Some(c),
        (w, None) => w,
    }
}

/// The total of a line count with its per-language breakdown.
pub fn compute_loc(breakdown: &Option<(i64, Vec<(String, i64)>)>) -> (r: Option<i64>)
    ensures
        r == match breakdown {
            Some(b) => Some(b.0),
            None => None,
        },
{
    match breakdown {
        Some(b) => Some(b.0),
        None => None,
    }
}

} // verus!
