//! The two kinds of run, and what depends on the kind.

use vstd::prelude::*;
use crate::arrange::is_stable_sort;
use crate::discovery::{addresses, archived_addresses, Discovery, Walk};
use crate::post::{views, Post};
use crate::scheduler::Aggregate;
use crate::sorting::{date_keys, id_keys, sort_for_archive};
use crate::text_set::distinct;

verus! {

/// The file that holds the full archive.
pub const ARCHIVE_FILE: &'static str = "backup.json";

/// The file that holds the recent articles.
pub const RECENT_FILE: &'static str = "recents.json";

/// The number of workers where none is asked for.
pub const DEFAULT_THREADS: usize = 4;

/// What a run covers.
#[derive(Debug, Clone, Copy, PartialEq, Eq, Structural)]
pub enum RunMode {
    /// Every listing page; what is scraped is added to the archive.
    Full,
    /// The first listing page alone; what is scraped is written out apart.
    RecentOnly,
}

impl RunMode {
    /// The mode that the recent-only switch selects.
    pub fn from_flag(recent_only: bool) -> (mode: RunMode)
        ensures
            mode == if recent_only {
                RunMode::RecentOnly
            } else {
                RunMode::Full
            },
    {
        if recent_only {
            RunMode::RecentOnly
        } else {
            RunMode::Full
        }
    }

    /// The file that the run writes.
    pub fn output_file(self) -> (name: &'static str)
        ensures
            name@ == if self == RunMode::RecentOnly {
                RECENT_FILE@
            } else {
                ARCHIVE_FILE@
            },
    {
        match self {
            RunMode::Full => ARCHIVE_FILE,
            RunMode::RecentOnly => RECENT_FILE,
        }
    }

    /// Whether the finished archive is searched for repeated and missing
    /// identifiers: a full archive is, the recent articles are not.
    pub fn checks_archive(self) -> (r: bool)
        ensures
            r == (self == RunMode::Full),
    {
        match self {
            RunMode::Full => true,
            RunMode::RecentOnly => false,
        }
    }

    /// The walk of the run. A full run walks all pages from `start` on and
    /// leaves out what `archive` holds. A recent-only run takes the first page
    /// as it is.
    pub fn begin_walk(self, start: &str, archive: &[Post]) -> (walk: Discovery)
        ensures
            walk@ == match self {
                RunMode::Full => Walk::started(
                    start@,
                    distinct(addresses(views(archive@))),
                    true,
                ),
                RunMode::RecentOnly => Walk::started(start@, Seq::empty(), false),
            },
            walk@.wf(),
    {
        match self {
            RunMode::Full => Discovery::begin(start, &archived_addresses(archive)),
            RunMode::RecentOnly => Discovery::begin_recent(start),
        }
    }

    /// The aggregate of the run. A full run goes on from `archive`; a
    /// recent-only run begins with nothing.
    pub fn begin_aggregate(self, archive: Vec<Post>) -> (aggregate: Aggregate)
        ensures
            aggregate@.items == match self {
                RunMode::Full => views(archive@),
                RunMode::RecentOnly => Seq::empty(),
            },
            aggregate@.failures.len() == 0,
    {
        match self {
            RunMode::Full => Aggregate::from_archive(archive),
            RunMode::RecentOnly => {
                let aggregate = Aggregate::new();
                assert(aggregate@.items =~= Seq::empty());
                aggregate
            },
        }
    }

    /// Puts `backup` in the order in which the run writes it: a full archive
    /// by number, the greatest first; the recent articles by date, the latest
    /// first.
    pub fn sort(self, backup: &mut Vec<Post>)
        ensures
            is_stable_sort(
                views(old(backup)@),
                views(final(backup)@),
                match self {
                    RunMode::Full => id_keys(views(old(backup)@)),
                    RunMode::RecentOnly => date_keys(views(old(backup)@)),
                },
                true,
            ),
    {
        match self {
            RunMode::Full => sort_for_archive(backup, false),
            RunMode::RecentOnly => sort_for_archive(backup, true),
        }
    }
}

} // verus!
