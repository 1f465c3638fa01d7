//! The collection that the workers of a run fill, one result at a time.
//!
//! Records are only ever added. Taking in a result is the one step that the
//! workers share; the owner of the aggregate sees to it that one worker at a
//! time takes it.

use vstd::prelude::*;
use crate::log::LogRecord;
use crate::post::{views, ErrorKind, Post, PostView, ScrapeError};
use crate::text::copy_string;

verus! {

/// An address that could not be scraped, and why.
#[derive(Debug)]
pub struct Failure {
    pub address: String,
    pub error: ScrapeError,
}

/// A [`Failure`] as mathematical text.
pub struct FailedView {
    pub address: Seq<char>,
    pub kind: ErrorKind,
    pub detail: Seq<char>,
}

impl View for Failure {
    type V = FailedView;

    open spec fn view(&self) -> FailedView {
        FailedView { address: self.address@, kind: self.error.kind, detail: self.error.detail@ }
    }
}

/// The result of the work on one address, as mathematical text.
pub enum Report {
    Scraped(PostView),
    Failed(FailedView),
}

/// The result of the work on `address`, as mathematical text.
pub open spec fn report_of(address: Seq<char>, outcome: Result<Post, ScrapeError>) -> Report {
    match outcome {
        Ok(post) => Report::Scraped(post@),
        Err(error) => Report::Failed(FailedView { address, kind: error.kind, detail: error.detail@ }),
    }
}

/// What an [`Aggregate`] holds, as mathematical text.
pub struct Gathered {
    /// The records, those of the earlier archive first, then in the order of
    /// arrival.
    pub items: Seq<PostView>,
    /// The addresses that failed for good, in the order of arrival.
    pub failures: Seq<FailedView>,
}

impl Gathered {
    /// Whether the work on some address failed for good.
    pub open spec fn had_errors(self) -> bool {
        self.failures.len() > 0
    }

    /// The aggregate after one more result came in.
    pub open spec fn with(self, report: Report) -> Gathered {
        match report {
            Report::Scraped(post) => Gathered { items: self.items.push(post), ..self },
            Report::Failed(failure) => Gathered { failures: self.failures.push(failure), ..self },
        }
    }

    /// The aggregate after the results `reports` came in, in this order.
    pub open spec fn with_all(self, reports: Seq<Report>) -> Gathered
        decreases reports.len(),
    {
        if reports.len() == 0 {
            self
        } else {
            self.with_all(reports.drop_last()).with(reports.last())
        }
    }
}

/// The records among `reports`, in order.
pub open spec fn scraped(reports: Seq<Report>) -> Seq<PostView>
    decreases reports.len(),
{
    if reports.len() == 0 {
        Seq::empty()
    } else {
        match reports.last() {
            Report::Scraped(post) => scraped(reports.drop_last()).push(post),
            Report::Failed(_) => scraped(reports.drop_last()),
        }
    }
}

/// The failures among `reports`, in order.
pub open spec fn failed(reports: Seq<Report>) -> Seq<FailedView>
    decreases reports.len(),
{
    if reports.len() == 0 {
        Seq::empty()
    } else {
        match reports.last() {
            Report::Scraped(_) => failed(reports.drop_last()),
            Report::Failed(failure) => failed(reports.drop_last()).push(failure),
        }
    }
}

/// Every result ends up in the aggregate, once: the records behind the
/// records that were there, the failures behind the failures, each in the
/// order of arrival. Nothing is lost, nothing comes twice, and a failure
/// takes no record away.
pub proof fn lemma_with_all(start: Gathered, reports: Seq<Report>)
    ensures
        start.with_all(reports).items == start.items + scraped(reports),
        start.with_all(reports).failures == start.failures + failed(reports),
        scraped(reports).len() + failed(reports).len() == reports.len(),
    decreases reports.len(),
{
    if reports.len() > 0 {
        lemma_with_all(start, reports.drop_last());
        assert(start.with_all(reports).items =~= start.items + scraped(reports));
        assert(start.with_all(reports).failures =~= start.failures + failed(reports));
    } else {
        assert(start.with_all(reports).items =~= start.items + scraped(reports));
        assert(start.with_all(reports).failures =~= start.failures + failed(reports));
    }
}

/// Where every address succeeds, the aggregate grows by exactly one record
/// for each, and no error is noted.
pub proof fn lemma_all_scraped(start: Gathered, reports: Seq<Report>)
    requires
        forall|i: int| 0 <= i < reports.len() ==> #[trigger] reports[i] is Scraped,
    ensures
        start.with_all(reports).items.len() == start.items.len() + reports.len(),
        start.with_all(reports).failures == start.failures,
        forall|i: int|
            0 <= i < reports.len() ==> start.with_all(reports).items[start.items.len() + i]
                == #[trigger] reports[i]->Scraped_0,
    decreases reports.len(),
{
    if reports.len() > 0 {
        lemma_all_scraped(start, reports.drop_last());
        let before = start.with_all(reports.drop_last());
        assert forall|i: int| 0 <= i < reports.len() implies start.with_all(
            reports,
        ).items[start.items.len() + i] == #[trigger] reports[i]->Scraped_0 by {
            if i < reports.len() - 1 {
                assert(reports.drop_last()[i] == reports[i]);
                assert(before.items[start.items.len() + i] == reports[i]->Scraped_0);
            }
        }
    }
}

/// As many records among the results carry a given view as results hold it.
proof fn lemma_scraped_count(reports: Seq<Report>, post: PostView)
    ensures
        scraped(reports).to_multiset().count(post) == reports.to_multiset().count(
            Report::Scraped(post),
        ),
    decreases reports.len(),
{
    if reports.len() == 0 {
        scraped(reports).to_multiset_ensures();
        reports.to_multiset_ensures();
    } else {
        let before = reports.drop_last();
        lemma_scraped_count(before, post);
        assert(reports =~= before.push(reports.last()));
        vstd::seq_lib::to_multiset_build(before, reports.last());
        match reports.last() {
            Report::Scraped(other) => {
                vstd::seq_lib::to_multiset_build(scraped(before), other);
            },
            Report::Failed(_) => {},
        }
    }
}

/// As many failures among the results carry a given view as results hold it.
proof fn lemma_failed_count(reports: Seq<Report>, failure: FailedView)
    ensures
        failed(reports).to_multiset().count(failure) == reports.to_multiset().count(
            Report::Failed(failure),
        ),
    decreases reports.len(),
{
    if reports.len() == 0 {
        failed(reports).to_multiset_ensures();
        reports.to_multiset_ensures();
    } else {
        let before = reports.drop_last();
        lemma_failed_count(before, failure);
        assert(reports =~= before.push(reports.last()));
        vstd::seq_lib::to_multiset_build(before, reports.last());
        match reports.last() {
            Report::Scraped(_) => {},
            Report::Failed(other) => {
                vstd::seq_lib::to_multiset_build(failed(before), other);
            },
        }
    }
}

/// The order in which the results arrive decides nothing but the order of
/// the records: the same results, arriving in any other order, leave an
/// aggregate with the same records and the same failures, each as often.
pub proof fn lemma_arrival_order_is_immaterial(
    start: Gathered,
    first: Seq<Report>,
    second: Seq<Report>,
)
    requires
        first.to_multiset() == second.to_multiset(),
    ensures
        start.with_all(first).items.to_multiset() == start.with_all(second).items.to_multiset(),
        start.with_all(first).failures.to_multiset() == start.with_all(
            second,
        ).failures.to_multiset(),
        start.with_all(first).items.len() == start.with_all(second).items.len(),
        start.with_all(first).had_errors() == start.with_all(second).had_errors(),
{
    lemma_with_all(start, first);
    lemma_with_all(start, second);
    vstd::seq_lib::lemma_multiset_commutative(start.items, scraped(first));
    vstd::seq_lib::lemma_multiset_commutative(start.items, scraped(second));
    vstd::seq_lib::lemma_multiset_commutative(start.failures, failed(first));
    vstd::seq_lib::lemma_multiset_commutative(start.failures, failed(second));
    assert forall|post: PostView|
        scraped(first).to_multiset().count(post) == scraped(second).to_multiset().count(
            post,
        ) by {
        lemma_scraped_count(first, post);
        lemma_scraped_count(second, post);
    }
    assert(scraped(first).to_multiset() =~= scraped(second).to_multiset());
    assert forall|failure: FailedView|
        failed(first).to_multiset().count(failure) == failed(second).to_multiset().count(
            failure,
        ) by {
        lemma_failed_count(first, failure);
        lemma_failed_count(second, failure);
    }
    assert(failed(first).to_multiset() =~= failed(second).to_multiset());
    scraped(first).to_multiset_ensures();
    scraped(second).to_multiset_ensures();
    failed(first).to_multiset_ensures();
    failed(second).to_multiset_ensures();
}

/// The counts of a run.
#[derive(Debug, Clone, Copy, PartialEq, Eq, Structural)]
pub struct Summary {
    /// Records taken over from the earlier archive.
    pub carried: usize,
    /// Addresses scraped in this run.
    pub scraped: usize,
    /// Addresses that failed for good in this run.
    pub failed: usize,
}

/// The records and failures of a run, in the order of arrival.
#[derive(Debug)]
pub struct Aggregate {
    carried: Vec<Post>,
    fresh: Vec<Post>,
    failures: Vec<Failure>,
}

impl View for Aggregate {
    type V = Gathered;

    closed spec fn view(&self) -> Gathered {
        Gathered {
            items: views(self.carried@) + views(self.fresh@),
            failures: self.failures@.map_values(|f: Failure| f@),
        }
    }
}

impl Aggregate {
    /// The number of records taken over from the earlier archive.
    pub closed spec fn carried(&self) -> nat {
        self.carried@.len()
    }

    /// The empty aggregate.
    pub fn new() -> (aggregate: Aggregate)
        ensures
            aggregate@.items.len() == 0,
            aggregate@.failures.len() == 0,
            aggregate.carried() == 0,
    {
        Aggregate { carried: Vec::new(), fresh: Vec::new(), failures: Vec::new() }
    }

    /// An aggregate that begins with the records of an earlier archive.
    pub fn from_archive(archive: Vec<Post>) -> (aggregate: Aggregate)
        ensures
            aggregate@.items == views(archive@),
            aggregate@.failures.len() == 0,
            aggregate.carried() == archive.len(),
    {
        let aggregate = Aggregate { carried: archive, fresh: Vec::new(), failures: Vec::new() };
        assert(aggregate@.items =~= views(archive@));
        aggregate
    }

    /// Takes in the result of the work on `address`. A record is added at the
    /// end of the records. A failure is noted, and answered with an error
    /// line for the log; it changes no record.
    pub fn record(&mut self, address: &str, outcome: Result<Post, ScrapeError>) -> (line: Option<
        LogRecord,
    >)
        ensures
            final(self)@ == old(self)@.with(report_of(address@, outcome)),
            final(self).carried() == old(self).carried(),
            match outcome {
                Ok(_) => line is None,
                Err(error) => line matches Some(LogRecord::Error { address: a, detail })
                    && a@ == address@ && detail@ == error.detail@,
            },
    {
        match outcome {
            Ok(post) => {
                self.fresh.push(post);
                assert(self@.items =~= old(self)@.items.push(post@));
                assert(self@.failures =~= old(self)@.failures);
                None
            },
            Err(error) => {
                let line = LogRecord::Error {
                    address: String::from_str(address),
                    detail: copy_string(&error.detail),
                };
                let failure = Failure { address: String::from_str(address), error };
                self.failures.push(failure);
                assert(self@.items =~= old(self)@.items);
                assert(self@.failures =~= old(self)@.failures.push(failure@));
                Some(line)
            },
        }
    }

    /// Whether the work on some address failed for good.
    pub fn had_errors(&self) -> (r: bool)
        ensures
            r == self@.had_errors(),
    {
        self.failures.len() > 0
    }

    /// The counts of the run so far.
    pub fn summary(&self) -> (counts: Summary)
        ensures
            counts.carried == self.carried(),
            counts.carried + counts.scraped == self@.items.len(),
            counts.failed == self@.failures.len(),
    {
        Summary {
            carried: self.carried.len(),
            scraped: self.fresh.len(),
            failed: self.failures.len(),
        }
    }

    /// The records and the failures, each in the order of arrival, the
    /// records of the earlier archive first.
    pub fn into_parts(self) -> (parts: (Vec<Post>, Vec<Failure>))
        ensures
            views(parts.0@) == self@.items,
            parts.1@.map_values(|f: Failure| f@) == self@.failures,
    {
        let Aggregate { carried, fresh, failures } = self;
        let mut items = carried;
        let mut fresh = fresh;
        items.append(&mut fresh);
        assert(views(items@) =~= self@.items);
        (items, failures)
    }
}

} // verus!
