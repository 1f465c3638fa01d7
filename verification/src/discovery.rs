//! The walk over the listing pages that finds the addresses of the articles.
//!
//! The walk itself fetches nothing. Its owner fetches the page that the walk
//! names, hands the page in, and is told what to do next.

use vstd::prelude::*;
use crate::extract::ExtractError;
use crate::links::{extract_post_links, find_older_posts_link, older_link, post_links};
use crate::post::{views, Post, PostView};
use crate::text::copy_string;
use crate::text_set::{distinct, lemma_with_member, with_member, TextSet};

verus! {

/// How a walk ended.
#[derive(Debug, PartialEq, Eq)]
pub enum End {
    /// The last page links to no older page.
    Exhausted,
    /// The last page links to a page that was visited before.
    Cycle(String),
}

/// What the owner of a walk does next.
#[derive(Debug, PartialEq, Eq)]
pub enum Step {
    /// Fetch the page at this address and hand it in.
    Fetch(String),
    /// Nothing more: the walk has ended.
    Stop(End),
}

/// How a walk ended, as mathematical text.
pub enum EndView {
    Exhausted,
    Cycle(Seq<char>),
}

/// A step, as mathematical text.
pub enum StepView {
    Fetch(Seq<char>),
    Stop(EndView),
}

impl View for End {
    type V = EndView;

    open spec fn view(&self) -> EndView {
        match self {
            End::Exhausted => EndView::Exhausted,
            End::Cycle(address) => EndView::Cycle(address@),
        }
    }
}

impl View for Step {
    type V = StepView;

    open spec fn view(&self) -> StepView {
        match self {
            Step::Fetch(address) => StepView::Fetch(address@),
            Step::Stop(end) => StepView::Stop(end@),
        }
    }
}

impl Clone for End {
    fn clone(&self) -> (r: End)
        ensures
            r@ == self@,
    {
        match self {
            End::Exhausted => End::Exhausted,
            End::Cycle(address) => End::Cycle(copy_string(address)),
        }
    }
}

impl Clone for Step {
    fn clone(&self) -> (r: Step)
        ensures
            r@ == self@,
    {
        match self {
            Step::Fetch(address) => Step::Fetch(copy_string(address)),
            Step::Stop(end) => Step::Stop(end.clone()),
        }
    }
}

/// The state of a walk, as mathematical text.
pub struct Walk {
    /// Addresses that an earlier run has archived; they are not found again.
    pub archived: Seq<Seq<char>>,
    /// Whether the walk goes on to older pages.
    pub follow: bool,
    /// The listing pages named so far, the first one included.
    pub visited: Seq<Seq<char>>,
    /// The article addresses found so far.
    pub found: Seq<Seq<char>>,
    /// The page that is to be handed in next.
    pub current: Seq<char>,
    /// How the walk ended, once it has.
    pub end: Option<EndView>,
}

/// `found`, and after it those of `links` that are neither archived nor
/// found already.
pub open spec fn collected(
    found: Seq<Seq<char>>,
    links: Seq<Seq<char>>,
    archived: Seq<Seq<char>>,
) -> Seq<Seq<char>>
    decreases links.len(),
{
    if links.len() == 0 {
        found
    } else {
        let before = collected(found, links.drop_last(), archived);
        if archived.contains(links.last()) {
            before
        } else {
            with_member(before, links.last())
        }
    }
}

impl Walk {
    /// The walk before its first page.
    pub open spec fn started(start: Seq<char>, archived: Seq<Seq<char>>, follow: bool) -> Walk {
        Walk { archived, follow, visited: seq![start], found: Seq::empty(), current: start, end: None }
    }

    /// What holds of every walk: no page and no article is listed twice, the
    /// page in turn has been named, and nothing archived is found.
    pub open spec fn wf(self) -> bool {
        &&& self.visited.no_duplicates()
        &&& self.found.no_duplicates()
        &&& self.visited.contains(self.current)
        &&& forall|a: Seq<char>| self.found.contains(a) ==> !self.archived.contains(a)
    }

    pub open spec fn finished(self) -> bool {
        self.end is Some
    }

    /// The number of pages handed in so far.
    pub open spec fn pages(self) -> nat {
        if self.finished() {
            self.visited.len()
        } else {
            (self.visited.len() - 1) as nat
        }
    }

    /// What the owner is told after the page in turn showed `next` as its
    /// older page.
    pub open spec fn step_after(self, next: Option<Seq<char>>) -> StepView {
        match self.end {
            Some(end) => StepView::Stop(end),
            None => if !self.follow {
                StepView::Stop(EndView::Exhausted)
            } else {
                match next {
                    None => StepView::Stop(EndView::Exhausted),
                    Some(address) => if self.visited.contains(address) {
                        StepView::Stop(EndView::Cycle(address))
                    } else {
                        StepView::Fetch(address)
                    },
                }
            },
        }
    }

    /// The walk after the page in turn showed the article addresses `links`
    /// and the older page `next`. A walk that has ended stays as it is.
    pub open spec fn advanced(self, links: Seq<Seq<char>>, next: Option<Seq<char>>) -> Walk {
        if self.finished() {
            self
        } else {
            let found = collected(self.found, links, self.archived);
            match self.step_after(next) {
                StepView::Fetch(address) => Walk {
                    visited: self.visited.push(address),
                    found,
                    current: address,
                    ..self
                },
                StepView::Stop(end) => Walk { found, end: Some(end), ..self },
            }
        }
    }
}

/// What [`collected`] holds: what was found before, and the links that are
/// not archived. It lists nothing twice.
pub proof fn lemma_collected(
    found: Seq<Seq<char>>,
    links: Seq<Seq<char>>,
    archived: Seq<Seq<char>>,
)
    requires
        found.no_duplicates(),
    ensures
        collected(found, links, archived).no_duplicates(),
        forall|a: Seq<char>| #[trigger]
            collected(found, links, archived).contains(a) <==> found.contains(a) || (
            links.contains(a) && !archived.contains(a)),
    decreases links.len(),
{
    if links.len() > 0 {
        let before = collected(found, links.drop_last(), archived);
        let last = links.last();
        lemma_collected(found, links.drop_last(), archived);
        lemma_with_member(before, last);
        let after = collected(found, links, archived);
        assert forall|a: Seq<char>| #[trigger]
            after.contains(a) <==> found.contains(a) || (links.contains(a) && !archived.contains(
                a,
            )) by {
            assert(with_member(before, last).to_set().contains(a) <==> with_member(
                before,
                last,
            ).contains(a));
            assert(before.to_set().contains(a) <==> before.contains(a));
            if links.contains(a) {
                let i = choose|i: int| 0 <= i < links.len() && links[i] == a;
                if i < links.len() - 1 {
                    assert(links.drop_last()[i] == a);
                }
            }
            if links.drop_last().contains(a) {
                let i = choose|i: int| 0 <= i < links.drop_last().len() && links.drop_last()[i]
                    == a;
                assert(links[i] == a);
            }
            assert(links[links.len() - 1] == last);
        }
    }
}

/// A well-formed walk stays well-formed, whatever its pages show.
pub proof fn lemma_advanced_wf(w: Walk, links: Seq<Seq<char>>, next: Option<Seq<char>>)
    requires
        w.wf(),
    ensures
        w.advanced(links, next).wf(),
{
    lemma_collected(w.found, links, w.archived);
    let after = w.advanced(links, next);
    if !w.finished() {
        match w.step_after(next) {
            StepView::Fetch(address) => {
                assert(after.visited[w.visited.len() as int] == address);
                assert(after.visited.no_duplicates());
            },
            StepView::Stop(_) => {},
        }
    }
}

/// What a listing page shows.
pub struct Page {
    pub links: Seq<Seq<char>>,
    pub next: Option<Seq<char>>,
}

impl Walk {
    /// The walk after at most `pages` more pages of `site`, which gives for
    /// each address what the page there shows.
    pub open spec fn walked(self, site: spec_fn(Seq<char>) -> Page, pages: nat) -> Walk
        decreases pages,
    {
        if pages == 0 || self.finished() {
            self
        } else {
            let page = site(self.current);
            self.advanced(page.links, page.next).walked(site, (pages - 1) as nat)
        }
    }

    /// `self` and `other` stand at the same place of the same walk, and
    /// `other`, which leaves out at least what `self` leaves out, has found
    /// nothing that `self` has not.
    pub open spec fn covers(self, other: Walk) -> bool {
        &&& self.follow == other.follow
        &&& self.visited == other.visited
        &&& self.current == other.current
        &&& self.end == other.end
        &&& forall|a: Seq<char>| self.archived.contains(a) ==> other.archived.contains(a)
        &&& forall|a: Seq<char>| other.found.contains(a) ==> self.found.contains(a)
    }
}

/// A well-formed walk stays well-formed over any number of pages.
pub proof fn lemma_walked_wf(w: Walk, site: spec_fn(Seq<char>) -> Page, pages: nat)
    requires
        w.wf(),
    ensures
        w.walked(site, pages).wf(),
    decreases pages,
{
    if pages > 0 && !w.finished() {
        let page = site(w.current);
        lemma_advanced_wf(w, page.links, page.next);
        lemma_walked_wf(w.advanced(page.links, page.next), site, (pages - 1) as nat);
    }
}

/// A larger archive changes neither the pages visited nor the way the walk
/// ends, and what is found with it is part of what is found without it.
pub proof fn lemma_larger_archive_finds_less(
    w: Walk,
    other: Walk,
    site: spec_fn(Seq<char>) -> Page,
    pages: nat,
)
    requires
        w.wf(),
        other.wf(),
        w.covers(other),
    ensures
        w.walked(site, pages).covers(other.walked(site, pages)),
    decreases pages,
{
    if pages > 0 && !w.finished() {
        let page = site(w.current);
        lemma_collected(w.found, page.links, w.archived);
        lemma_collected(other.found, page.links, other.archived);
        lemma_advanced_wf(w, page.links, page.next);
        lemma_advanced_wf(other, page.links, page.next);
        lemma_larger_archive_finds_less(
            w.advanced(page.links, page.next),
            other.advanced(page.links, page.next),
            site,
            (pages - 1) as nat,
        );
    }
}

/// Nothing that a walk finds is in its archive: an address that an earlier
/// run has archived never comes up again.
pub proof fn lemma_archived_never_found(
    start: Seq<char>,
    archived: Seq<Seq<char>>,
    follow: bool,
    site: spec_fn(Seq<char>) -> Page,
    pages: nat,
)
    ensures
        forall|a: Seq<char>|
            archived.contains(a) ==> !Walk::started(start, archived, follow).walked(
                site,
                pages,
            ).found.contains(a),
{
    let w = Walk::started(start, archived, follow);
    assert(w.visited[0] == start);
    lemma_walked_wf(w, site, pages);
    lemma_walk_keeps_archive(w, site, pages);
}

/// A walk never changes its archive.
pub proof fn lemma_walk_keeps_archive(w: Walk, site: spec_fn(Seq<char>) -> Page, pages: nat)
    ensures
        w.walked(site, pages).archived == w.archived,
    decreases pages,
{
    if pages > 0 && !w.finished() {
        let page = site(w.current);
        lemma_walk_keeps_archive(w.advanced(page.links, page.next), site, (pages - 1) as nat);
    }
}

/// A second run over an unchanged site, with what the first run found added
/// to the archive, finds nothing: what it finds is part of what the first run
/// found, and none of that comes up again.
pub proof fn lemma_second_run_finds_nothing(
    start: Seq<char>,
    archived: Seq<Seq<char>>,
    follow: bool,
    site: spec_fn(Seq<char>) -> Page,
    pages: nat,
)
    ensures
        ({
            let first = Walk::started(start, archived, follow).walked(site, pages);
            let second = Walk::started(start, archived + first.found, follow).walked(site, pages);
            &&& second.found.len() == 0
            &&& second.visited == first.visited
            &&& second.end == first.end
        }),
{
    let w1 = Walk::started(start, archived, follow);
    let first = w1.walked(site, pages);
    let w2 = Walk::started(start, archived + first.found, follow);
    let second = w2.walked(site, pages);
    assert(w1.visited[0] == start);
    assert(w2.visited[0] == start);
    assert forall|a: Seq<char>| w1.archived.contains(a) implies w2.archived.contains(a) by {
        let i = choose|i: int| 0 <= i < archived.len() && archived[i] == a;
        assert((archived + first.found)[i] == a);
    }
    lemma_larger_archive_finds_less(w1, w2, site, pages);
    lemma_walked_wf(w2, site, pages);
    lemma_walk_keeps_archive(w2, site, pages);
    if second.found.len() > 0 {
        let a = second.found[0];
        assert(second.found.contains(a));
        assert(first.found.contains(a));
        let i = choose|i: int| 0 <= i < first.found.len() && first.found[i] == a;
        assert((archived + first.found)[archived.len() + i] == a);
        assert(second.archived.contains(a));
    }
}

/// An archive in which no address stands twice stays so when what a walk found
/// is added to it.
pub proof fn lemma_archive_stays_unique(w: Walk)
    requires
        w.wf(),
        w.archived.no_duplicates(),
    ensures
        (w.archived + w.found).no_duplicates(),
{
    assert forall|i: int, j: int|
        0 <= i < w.archived.len() && 0 <= j < w.found.len() implies w.archived[i]
        != w.found[j] by {
        assert(w.found.contains(w.found[j]));
        assert(w.archived.contains(w.archived[i]));
    }
    vstd::seq_lib::lemma_no_dup_in_concat(w.archived, w.found);
}

/// A walk that has not ended after `pages` more pages has named one more
/// page for each of them, and all of them are pages of the site.
proof fn lemma_running_walk_grows(
    w: Walk,
    site: spec_fn(Seq<char>) -> Page,
    within: Set<Seq<char>>,
    pages: nat,
)
    requires
        forall|a: Seq<char>| w.visited.contains(a) ==> within.contains(a),
        w.visited.contains(w.current),
        forall|a: Seq<char>| within.contains(a) ==> (site(a).next matches Some(n) ==> within.contains(n)),
        !w.walked(site, pages).finished(),
    ensures
        w.walked(site, pages).visited.len() == w.visited.len() + pages,
        forall|a: Seq<char>| w.walked(site, pages).visited.contains(a) ==> within.contains(a),
    decreases pages,
{
    if pages > 0 && !w.finished() {
        let page = site(w.current);
        let after = w.advanced(page.links, page.next);
        if !after.finished() {
            let address = page.next->Some_0;
            assert(after.visited == w.visited.push(address));
            assert(within.contains(w.current));
            assert(within.contains(address));
            assert forall|a: Seq<char>| after.visited.contains(a) implies within.contains(a) by {
                let i = choose|i: int| 0 <= i < after.visited.len() && after.visited[i] == a;
                if i < w.visited.len() {
                    assert(w.visited[i] == a);
                }
            }
            assert(after.visited[w.visited.len() as int] == after.current);
        }
        lemma_running_walk_grows(after, site, within, (pages - 1) as nat);
    }
}

/// A walk ends, whatever the links: on a site of finitely many listing
/// pages, it has ended once as many pages are handed in as the site has.
/// No page is handed in twice.
pub proof fn lemma_walk_ends(
    start: Seq<char>,
    archived: Seq<Seq<char>>,
    follow: bool,
    site: spec_fn(Seq<char>) -> Page,
    within: Set<Seq<char>>,
)
    requires
        within.finite(),
        within.contains(start),
        forall|a: Seq<char>| within.contains(a) ==> (site(a).next matches Some(n) ==> within.contains(n)),
    ensures
        Walk::started(start, archived, follow).walked(site, within.len()).finished(),
        Walk::started(start, archived, follow).walked(site, within.len()).visited.no_duplicates(),
{
    let w = Walk::started(start, archived, follow);
    let last = w.walked(site, within.len());
    assert(w.visited[0] == start);
    assert forall|a: Seq<char>| w.visited.contains(a) implies within.contains(a) by {
        let i = choose|i: int| 0 <= i < w.visited.len() && w.visited[i] == a;
    }
    lemma_walked_wf(w, site, within.len());
    if !last.finished() {
        lemma_running_walk_grows(w, site, within, within.len());
        last.visited.unique_seq_to_set();
        assert(last.visited.to_set().subset_of(within)) by {
            assert forall|a: Seq<char>| last.visited.to_set().contains(a) implies within.contains(
                a,
            ) by {
                assert(last.visited.contains(a));
            }
        }
        vstd::set_lib::lemma_len_subset(last.visited.to_set(), within);
    }
}

/// A page that links back to a page named before ends the walk; what was
/// found up to and on that page is kept.
pub proof fn lemma_revisit_ends_walk(w: Walk, links: Seq<Seq<char>>, address: Seq<char>)
    requires
        !w.finished(),
        w.follow,
        w.visited.contains(address),
    ensures
        w.advanced(links, Some(address)).end == Some(EndView::Cycle(address)),
        w.advanced(links, Some(address)).visited == w.visited,
        w.advanced(links, Some(address)).found == collected(w.found, links, w.archived),
{
}

/// The addresses of the records, in order.
pub open spec fn addresses(posts: Seq<PostView>) -> Seq<Seq<char>> {
    posts.map_values(|p: PostView| p.url)
}

/// The addresses that the records of `archive` were read from, in order.
pub fn archived_addresses(archive: &[Post]) -> (list: Vec<String>)
    ensures
        list.deep_view() == addresses(views(archive@)),
{
    let mut list: Vec<String> = Vec::new();
    let mut i: usize = 0;
    while i < archive.len()
        invariant
            i <= archive.len(),
            list.len() == i,
            forall|j: int| 0 <= j < i ==> (#[trigger] list[j])@ == archive[j]@.url,
        decreases archive.len() - i,
    {
        list.push(copy_string(&archive[i].url));
        i += 1;
    }
    assert(list.deep_view() =~= addresses(views(archive@)));
    list
}

/// A walk over listing pages. It starts at one page and follows the link to
/// the older page until a page has none, or links back to a page that the
/// walk has named already.
pub struct Discovery {
    archived: TextSet,
    follow: bool,
    visited: TextSet,
    found: TextSet,
    current: String,
    end: Option<End>,
}

impl View for Discovery {
    type V = Walk;

    closed spec fn view(&self) -> Walk {
        Walk {
            archived: self.archived@,
            follow: self.follow,
            visited: self.visited@,
            found: self.found@,
            current: self.current@,
            end: match self.end {
                Some(end) => Some(end@),
                None => None,
            },
        }
    }
}

impl Discovery {
    #[verifier::type_invariant]
    spec fn well_formed(self) -> bool {
        self@.wf()
    }

    /// A walk over all listing pages from `start` on, which leaves out the
    /// addresses in `already_archived`.
    pub fn begin(start: &str, already_archived: &Vec<String>) -> (walk: Discovery)
        ensures
            walk@ == Walk::started(start@, distinct(already_archived.deep_view()), true),
            walk@.wf(),
    {
        let mut visited = TextSet::new();
        visited.insert(String::from_str(start));
        assert(visited@ =~= seq![start@]);
        assert(visited@[0] == start@);
        Discovery {
            archived: TextSet::from_list(already_archived),
            follow: true,
            visited,
            found: TextSet::new(),
            current: String::from_str(start),
            end: None,
        }
    }

    /// A walk that takes the articles of the page `start` alone, archived or
    /// not, and follows no link to older pages.
    pub fn begin_recent(start: &str) -> (walk: Discovery)
        ensures
            walk@ == Walk::started(start@, Seq::empty(), false),
            walk@.wf(),
    {
        let mut visited = TextSet::new();
        visited.insert(String::from_str(start));
        assert(visited@ =~= seq![start@]);
        assert(visited@[0] == start@);
        Discovery {
            archived: TextSet::new(),
            follow: false,
            visited,
            found: TextSet::new(),
            current: String::from_str(start),
            end: None,
        }
    }

    /// The address of the page that is to be handed in next.
    pub fn current(&self) -> (address: &String)
        ensures
            address@ == self@.current,
    {
        &self.current
    }

    /// Whether the walk has ended.
    pub fn is_finished(&self) -> (r: bool)
        ensures
            r == self@.finished(),
    {
        self.end.is_some()
    }

    /// The number of pages handed in so far.
    pub fn pages_visited(&self) -> (n: usize)
        ensures
            n == self@.pages(),
    {
        proof {
            use_type_invariant(self);
        }
        let named = self.visited.len();
        if self.end.is_some() {
            named
        } else {
            named - 1
        }
    }

    /// The number of article addresses found so far.
    pub fn found_count(&self) -> (n: usize)
        ensures
            n == self@.found.len(),
    {
        self.found.len()
    }

    /// Takes in what the page in turn shows: the article addresses `links` and
    /// the address `next` of the older page, if the page links to one. Every
    /// link that is neither archived nor found already is added to what was
    /// found. The walk goes on to `next` unless there is none or it has been
    /// named before, which ends the walk without being an error.
    pub fn advance(self, links: &Vec<String>, next: Option<String>) -> (r: (Discovery, Step))
        ensures
            r.0@ == self@.advanced(links.deep_view(), next.deep_view()),
            r.1@ == self@.step_after(next.deep_view()),
            r.0@.wf(),
    {
        proof {
            use_type_invariant(&self);
            lemma_advanced_wf(self@, links.deep_view(), next.deep_view());
        }
        let ghost before = self@;
        let Discovery { archived, follow, visited, found, current, end } = self;
        if let Some(end) = end {
            let step = Step::Stop(end.clone());
            return (Discovery { archived, follow, visited, found, current, end: Some(end) }, step);
        }
        let mut found = found;
        let mut visited = visited;
        let ghost all = links.deep_view();
        let mut i: usize = 0;
        assert(all.take(0) =~= Seq::<Seq<char>>::empty());
        while i < links.len()
            invariant
                i <= links.len(),
                all == links.deep_view(),
                found@ == collected(before.found, all.take(i as int), archived@),
            decreases links.len() - i,
        {
            proof {
                assert(all.take(i + 1).drop_last() =~= all.take(i as int));
                assert(all.take(i + 1).last() == links[i as int]@);
            }
            if !archived.contains(links[i].as_str()) {
                found.insert(copy_string(&links[i]));
            }
            i += 1;
        }
        assert(all.take(i as int) =~= all);
        let target = if follow {
            next
        } else {
            None
        };
        match target {
            None => {
                let walk = Discovery {
                    archived,
                    follow,
                    visited,
                    found,
                    current,
                    end: Some(End::Exhausted),
                };
                (walk, Step::Stop(End::Exhausted))
            },
            Some(address) => {
                if visited.contains(address.as_str()) {
                    let end = End::Cycle(copy_string(&address));
                    let walk = Discovery {
                        archived,
                        follow,
                        visited,
                        found,
                        current,
                        end: Some(End::Cycle(address)),
                    };
                    (walk, Step::Stop(end))
                } else {
                    visited.insert(copy_string(&address));
                    let walk = Discovery {
                        archived,
                        follow,
                        visited,
                        found,
                        current: copy_string(&address),
                        end: None,
                    };
                    (walk, Step::Fetch(address))
                }
            },
        }
    }

    /// Takes in the page in turn as HTML: reads the article addresses and the
    /// link to the older page out of it, and goes on as [`Discovery::advance`]
    /// does. A page that cannot be read leaves the walk as it was.
    pub fn visit(self, html: &str) -> (r: (Discovery, Result<Step, ExtractError>))
        ensures
            match post_links(html@) {
                Ok(links) => {
                    &&& r.0@ == self@.advanced(links, older_link(html@))
                    &&& r.1 matches Ok(step) && step@ == self@.step_after(older_link(html@))
                },
                Err(e) => r.0@ == self@ && r.1 == Err::<Step, ExtractError>(e),
            },
            r.0@.wf(),
    {
        proof {
            use_type_invariant(&self);
        }
        match extract_post_links(html) {
            Ok(links) => {
                let next = find_older_posts_link(html);
                let (walk, step) = self.advance(&links, next);
                (walk, Ok(step))
            },
            Err(e) => (self, Err(e)),
        }
    }

    /// The article addresses found, in the order in which they were found.
    /// None of them is archived, and none is listed twice.
    pub fn into_found(self) -> (found: Vec<String>)
        ensures
            found.deep_view() == self@.found,
            found.deep_view().no_duplicates(),
            forall|a: Seq<char>| found.deep_view().contains(a) ==> !self@.archived.contains(a),
    {
        proof {
            use_type_invariant(&self);
        }
        self.found.into_list()
    }
}

} // verus!
