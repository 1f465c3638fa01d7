//! Diagnostics on a finished archive: identifiers that occur more than once,
//! and numbers that are missing from the run of identifiers.
//!
//! Both only report. Neither changes or rejects the archive.

use vstd::prelude::*;
use vstd::seq_lib::*;
use crate::arrange::is_stable_sort;
use crate::number::{parse_number, parsed_usize};
use crate::post::{ref_views, views, Post, PostView};
use crate::sorting::{date_keys, sort_backup_asc};
use crate::log::LogRecord;
use crate::text::{copy_optional, copy_string, present, same_text};
use crate::text_set::{distinct, lemma_distinct, TextSet};

verus! {

/// The identifiers of the records, in order.
pub open spec fn ids_of(posts: Seq<PostView>) -> Seq<Option<Seq<char>>> {
    posts.map_values(|p: PostView| p.id)
}

/// How many of the records carry the identifier `id`.
pub open spec fn occurrences(ids: Seq<Option<Seq<char>>>, id: Seq<char>) -> nat {
    ids.to_multiset().count(Some(id))
}

/// The identifiers that more than one record carries, each once, in the
/// order of first appearance.
pub open spec fn duplicate_ids(ids: Seq<Option<Seq<char>>>) -> Seq<Seq<char>> {
    distinct(present(ids)).filter(|id: Seq<char>| occurrences(ids, id) > 1)
}

/// An identifier that more than one record carries.
#[derive(Debug, PartialEq, Eq)]
pub struct DuplicateGroup {
    pub id: String,
    /// The number of records that carry it.
    pub count: usize,
}

impl View for DuplicateGroup {
    type V = (Seq<char>, nat);

    open spec fn view(&self) -> (Seq<char>, nat) {
        (self.id@, self.count as nat)
    }
}

impl DuplicateGroup {
    /// The line for the log that reports the group.
    pub fn to_record(&self) -> (record: LogRecord)
        ensures
            record matches LogRecord::Duplicate { id, count } && id@ == self.id@ && count
                == self.count,
    {
        LogRecord::Duplicate { id: copy_string(&self.id), count: self.count }
    }
}

/// The views of a list of groups, in order.
pub open spec fn group_views(groups: Seq<DuplicateGroup>) -> Seq<(Seq<char>, nat)> {
    groups.map_values(|g: DuplicateGroup| g@)
}

/// Every identifier that more than one record carries, with the number of
/// records that carry it.
pub open spec fn duplicates(ids: Seq<Option<Seq<char>>>) -> Seq<(Seq<char>, nat)> {
    duplicate_ids(ids).map_values(|id: Seq<char>| (id, occurrences(ids, id)))
}

/// The identifiers that are there are the ones that some record carries.
proof fn lemma_present_contains(ids: Seq<Option<Seq<char>>>, id: Seq<char>)
    ensures
        present(ids).contains(id) <==> ids.contains(Some(id)),
    decreases ids.len(),
{
    if ids.len() > 0 {
        let before = present(ids.drop_last());
        lemma_present_contains(ids.drop_last(), id);
        if ids.contains(Some(id)) {
            let i = choose|i: int| 0 <= i < ids.len() && ids[i] == Some(id);
            if i < ids.len() - 1 {
                assert(ids.drop_last()[i] == Some(id));
                let j = choose|j: int| 0 <= j < before.len() && before[j] == id;
                assert(present(ids)[j] == id);
            } else {
                assert(present(ids)[before.len() as int] == id);
            }
        }
        if present(ids).contains(id) {
            let j = choose|j: int| 0 <= j < present(ids).len() && present(ids)[j] == id;
            if j < before.len() {
                assert(before[j] == id);
                let i = choose|i: int| 0 <= i < ids.drop_last().len() && ids.drop_last()[i]
                    == Some(id);
                assert(ids[i] == Some(id));
            } else {
                assert(ids[ids.len() - 1] == Some(id));
            }
        }
    }
}

/// The report of duplicates names an identifier exactly when more than one
/// record carries it, and names none twice.
pub proof fn lemma_duplicate_ids(ids: Seq<Option<Seq<char>>>)
    ensures
        duplicate_ids(ids).no_duplicates(),
        forall|id: Seq<char>| #[trigger]
            duplicate_ids(ids).contains(id) <==> occurrences(ids, id) > 1,
{
    let all = distinct(present(ids));
    let more_than_once = |id: Seq<char>| occurrences(ids, id) > 1;
    let kept = all.filter(more_than_once);
    lemma_distinct(present(ids));
    broadcast use vstd::seq_lib::group_filter_ensures;
    assert forall|id: Seq<char>| #[trigger] kept.contains(id) <==> occurrences(ids, id) > 1 by {
        if kept.contains(id) {
            let i = choose|i: int| 0 <= i < kept.len() && kept[i] == id;
            assert(more_than_once(kept[i]));
        }
        if occurrences(ids, id) > 1 {
            ids.to_multiset_ensures();
            assert(ids.contains(Some(id)));
            lemma_present_contains(ids, id);
            assert(present(ids).to_set().contains(id));
            assert(all.to_set().contains(id));
            assert(all.contains(id));
            let i = choose|i: int| 0 <= i < all.len() && all[i] == id;
            assert(more_than_once(all[i]));
        }
    }
    lemma_filter_keeps_no_duplicates(all, more_than_once);
}

/// Leaving entries out of a list without repeats leaves no repeats.
proof fn lemma_filter_keeps_no_duplicates(s: Seq<Seq<char>>, keep: spec_fn(Seq<char>) -> bool)
    requires
        s.no_duplicates(),
    ensures
        s.filter(keep).no_duplicates(),
    decreases s.len(),
{
    reveal(Seq::filter);
    if s.len() > 0 {
        let before = s.drop_last();
        lemma_filter_keeps_no_duplicates(before, keep);
        if keep(s.last()) {
            let kept = before.filter(keep);
            assert(s.filter(keep) == kept.push(s.last()));
            assert forall|i: int, j: int|
                0 <= i < j < kept.len() + 1 implies kept.push(s.last())[i] != kept.push(
                s.last(),
            )[j] by {
                if j == kept.len() {
                    assert(kept.contains(kept[i]));
                    before.lemma_filter_contains_rev(keep, kept[i]);
                    let k = choose|k: int| 0 <= k < before.len() && before[k] == kept[i];
                    assert(s[k] == kept[i]);
                }
            }
        }
    }
}

/// How many records of `backup` carry the identifier `id`.
pub fn count_id(backup: &[Post], id: &str) -> (count: usize)
    ensures
        count == occurrences(ids_of(views(backup@)), id@),
{
    let ghost ids = ids_of(views(backup@));
    let mut count: usize = 0;
    let mut i: usize = 0;
    proof {
        assert(ids.take(0) =~= Seq::<Option<Seq<char>>>::empty());
        ids.take(0).to_multiset_ensures();
    }
    while i < backup.len()
        invariant
            i <= backup.len(),
            ids == ids_of(views(backup@)),
            count <= i,
            count == occurrences(ids.take(i as int), id@),
        decreases backup.len() - i,
    {
        proof {
            assert(ids.take(i + 1) =~= ids.take(i as int).push(ids[i as int]));
            to_multiset_build(ids.take(i as int), ids[i as int]);
            assert(ids[i as int] == backup[i as int].id.deep_view());
        }
        match &backup[i].id {
            Some(other) => {
                if same_text(other.as_str(), id) {
                    count += 1;
                }
            },
            None => {},
        }
        i += 1;
    }
    assert(ids.take(i as int) =~= ids);
    count
}

/// Finds the identifiers that more than one record of `backup` carries. Each
/// comes once, with the number of records that carry it, in the order in
/// which the identifiers first appear. Records without identifier are left
/// out of account.
pub fn find_duplicates(backup: &[Post]) -> (groups: Vec<DuplicateGroup>)
    ensures
        group_views(groups@) == duplicates(ids_of(views(backup@))),
{
    let ghost ids = ids_of(views(backup@));
    let ghost more_than_once = |id: Seq<char>| occurrences(ids, id) > 1;
    let mut seen = TextSet::new();
    let mut groups: Vec<DuplicateGroup> = Vec::new();
    let mut i: usize = 0;
    assert(ids.take(0) =~= Seq::<Option<Seq<char>>>::empty());
    assert(group_views(groups@) =~= Seq::<(Seq<char>, nat)>::empty());
    while i < backup.len()
        invariant
            i <= backup.len(),
            ids == ids_of(views(backup@)),
            more_than_once == |id: Seq<char>| occurrences(ids, id) > 1,
            seen@ == distinct(present(ids.take(i as int))),
            group_views(groups@) == seen@.filter(more_than_once).map_values(
                |id: Seq<char>| (id, occurrences(ids, id)),
            ),
        decreases backup.len() - i,
    {
        let ghost seen_before = seen@;
        let ghost groups_before = group_views(groups@);
        proof {
            assert(ids.take(i + 1).drop_last() =~= ids.take(i as int));
            assert(ids.take(i + 1).last() == backup[i as int].id.deep_view());
        }
        match &backup[i].id {
            Some(id) => {
                proof {
                    let earlier = present(ids.take(i as int));
                    assert(earlier.push(id@).drop_last() =~= earlier);
                }
                if seen.insert(copy_string(id)) {
                    let count = count_id(backup, id.as_str());
                    proof {
                        seen_before.lemma_filter_push(id@, more_than_once);
                    }
                    if count > 1 {
                        groups.push(DuplicateGroup { id: copy_string(id), count });
                        assert(group_views(groups@) =~= groups_before.push((id@, count as nat)));
                        assert(group_views(groups@) =~= seen@.filter(more_than_once).map_values(
                            |id: Seq<char>| (id, occurrences(ids, id)),
                        ));
                    }
                }
            },
            None => {},
        }
        i += 1;
    }
    assert(ids.take(i as int) =~= ids);
    groups
}

/// The numbers that the identifiers stand for, in order. Records without
/// identifier, and identifiers that do not read as a number, are passed over.
pub open spec fn numbers(ids: Seq<Option<Seq<char>>>) -> Seq<usize>
    decreases ids.len(),
{
    if ids.len() == 0 {
        Seq::empty()
    } else {
        let before = numbers(ids.drop_last());
        match ids.last() {
            Some(text) => match parsed_usize(text) {
                Some(n) => before.push(n),
                None => before,
            },
            None => before,
        }
    }
}

/// The identifiers that do not read as a number, in order.
pub open spec fn unreadable(ids: Seq<Option<Seq<char>>>) -> Seq<Seq<char>>
    decreases ids.len(),
{
    if ids.len() == 0 {
        Seq::empty()
    } else {
        let before = unreadable(ids.drop_last());
        match ids.last() {
            Some(text) => match parsed_usize(text) {
                Some(_) => before,
                None => before.push(text),
            },
            None => before,
        }
    }
}

/// The numbers below `upto` that are not among `numbers`, in rising order.
pub open spec fn gaps(numbers: Seq<usize>, upto: nat) -> Seq<usize>
    decreases upto,
{
    if upto == 0 {
        Seq::empty()
    } else {
        let before = gaps(numbers, (upto - 1) as nat);
        if numbers.contains((upto - 1) as usize) {
            before
        } else {
            before.push((upto - 1) as usize)
        }
    }
}

/// The numbers that are missing from the identifiers: with `n` identifiers
/// that read as numbers, those of `0..=n` that none of them stands for, in
/// rising order.
pub open spec fn missing_ids(ids: Seq<Option<Seq<char>>>) -> Seq<usize> {
    gaps(numbers(ids), (numbers(ids).len() + 1) as nat)
}

/// The records that have no identifier, in order.
pub open spec fn without_id(posts: Seq<PostView>) -> Seq<PostView> {
    posts.filter(|p: PostView| p.id is None)
}

/// The titles of the records, in order.
pub open spec fn titles_of(posts: Seq<PostView>) -> Seq<Seq<char>> {
    posts.map_values(|p: PostView| p.title)
}

/// [`gaps`] holds just the numbers below `upto` that are not among
/// `numbers`, and rises strictly.
pub proof fn lemma_gaps(numbers: Seq<usize>, upto: nat)
    requires
        upto <= usize::MAX + 1,
    ensures
        forall|e: usize| #[trigger]
            gaps(numbers, upto).contains(e) <==> e < upto && !numbers.contains(e),
        forall|a: int, b: int|
            0 <= a < b < gaps(numbers, upto).len() ==> gaps(numbers, upto)[a] < gaps(
                numbers,
                upto,
            )[b],
    decreases upto,
{
    if upto > 0 {
        let before = gaps(numbers, (upto - 1) as nat);
        let top = (upto - 1) as usize;
        lemma_gaps(numbers, (upto - 1) as nat);
        let all = gaps(numbers, upto);
        assert forall|e: usize| #[trigger] all.contains(e) <==> e < upto && !numbers.contains(
            e,
        ) by {
            if numbers.contains(top) {
            } else {
                assert(all[before.len() as int] == top);
                if all.contains(e) {
                    let i = choose|i: int| 0 <= i < all.len() && all[i] == e;
                    if i < before.len() {
                        assert(before[i] == e);
                    }
                }
                if before.contains(e) {
                    let i = choose|i: int| 0 <= i < before.len() && before[i] == e;
                    assert(all[i] == e);
                }
            }
        }
        assert forall|a: int, b: int| 0 <= a < b < all.len() implies all[a] < all[b] by {
            if !numbers.contains(top) && b == before.len() {
                assert(before.contains(before[a]));
            }
        }
    }
}

/// The numbers below `upto` that are among `numbers`.
spec fn covered(numbers: Seq<usize>, upto: nat) -> Set<usize> {
    Set::new(|e: usize| e < upto && numbers.contains(e))
}

/// Below `upto`, every number is either among `numbers` or a gap.
proof fn lemma_gaps_and_covered(numbers: Seq<usize>, upto: nat)
    requires
        upto <= usize::MAX + 1,
    ensures
        covered(numbers, upto).finite(),
        gaps(numbers, upto).len() + covered(numbers, upto).len() == upto,
    decreases upto,
{
    if upto == 0 {
        assert(covered(numbers, upto) =~= Set::<usize>::empty());
    } else {
        let top = (upto - 1) as usize;
        lemma_gaps_and_covered(numbers, (upto - 1) as nat);
        let before = covered(numbers, (upto - 1) as nat);
        if numbers.contains(top) {
            assert(covered(numbers, upto) =~= before.insert(top));
        } else {
            assert(covered(numbers, upto) =~= before);
        }
    }
}

/// Some number is always missing: `n` identifiers cannot stand for all of the
/// `n + 1` numbers `0..=n`.
pub proof fn lemma_some_number_is_missing(ids: Seq<Option<Seq<char>>>)
    requires
        numbers(ids).len() < usize::MAX,
    ensures
        missing_ids(ids).len() >= 1,
{
    let found = numbers(ids);
    let upto = (found.len() + 1) as nat;
    lemma_gaps_and_covered(found, upto);
    assert(covered(found, upto).subset_of(found.to_set()));
    vstd::seq_lib::seq_to_set_is_finite(found);
    vstd::set_lib::lemma_len_subset(covered(found, upto), found.to_set());
    found.lemma_cardinality_of_set();
}

/// What the search for missing numbers found.
#[derive(Debug, PartialEq, Eq)]
pub struct GapReport {
    /// The number of identifiers that read as numbers.
    pub counted: usize,
    /// The numbers of `0..=counted` that no identifier stands for, rising.
    pub missing: Vec<usize>,
    /// The titles of the records without identifier, the earliest first,
    /// those without a date that can be read last.
    pub unassigned: Vec<String>,
    /// The identifiers that do not read as numbers.
    pub unreadable: Vec<String>,
}

/// A missing number, and the title of the record that may be the one that
/// lacks it.
#[derive(Debug, PartialEq, Eq)]
pub struct Suggestion {
    pub id: usize,
    pub title: Option<String>,
}

impl View for Suggestion {
    type V = (usize, Option<Seq<char>>);

    open spec fn view(&self) -> (usize, Option<Seq<char>>) {
        (self.id, self.title.deep_view())
    }
}

/// Missing numbers and titles paired by position: the first number with the
/// first title, and so on. A number beyond the last title stays alone.
pub open spec fn paired(missing: Seq<usize>, titles: Seq<Seq<char>>) -> Seq<
    (usize, Option<Seq<char>>),
> {
    Seq::new(
        missing.len(),
        |i: int|
            (
                missing[i],
                if i < titles.len() {
                    Some(titles[i])
                } else {
                    None
                },
            ),
    )
}

impl Suggestion {
    /// The line for the log that reports the missing number.
    pub fn to_record(&self) -> (record: LogRecord)
        ensures
            record matches LogRecord::Missing { number, title } && number == self.id && title.deep_view()
                == self.title.deep_view(),
    {
        LogRecord::Missing { number: self.id, title: copy_optional(&self.title) }
    }
}

impl GapReport {
    /// Pairs each missing number with the record without identifier that
    /// stands at the same place by date. The pairing is a hint for a reader
    /// who assigns numbers by hand, and no finding.
    pub fn suggestions(&self) -> (pairs: Vec<Suggestion>)
        ensures
            pairs@.map_values(|s: Suggestion| s@) == paired(
                self.missing@,
                self.unassigned.deep_view(),
            ),
    {
        let mut pairs: Vec<Suggestion> = Vec::new();
        let mut i: usize = 0;
        while i < self.missing.len()
            invariant
                i <= self.missing.len(),
                pairs.len() == i,
                forall|j: int|
                    0 <= j < i ==> (#[trigger] pairs[j])@ == paired(
                        self.missing@,
                        self.unassigned.deep_view(),
                    )[j],
            decreases self.missing.len() - i,
        {
            let title = if i < self.unassigned.len() {
                Some(copy_string(&self.unassigned[i]))
            } else {
                None
            };
            pairs.push(Suggestion { id: self.missing[i], title });
            i += 1;
        }
        assert(pairs@.map_values(|s: Suggestion| s@) =~= paired(
            self.missing@,
            self.unassigned.deep_view(),
        ));
        pairs
    }
}

/// The numbers of `0..=numbers.len()` that are not among `numbers`, rising.
pub fn find_gaps(numbers: &Vec<usize>) -> (missing: Vec<usize>)
    ensures
        missing@ == gaps(numbers@, (numbers.len() + 1) as nat),
{
    let n = numbers.len();
    // seen[e] says whether e is among the numbers, for e below n
    let mut seen: Vec<bool> = Vec::new();
    let mut top_seen = false;
    let mut k: usize = 0;
    while k < n
        invariant
            k <= n,
            seen.len() == k,
            forall|e: int| 0 <= e < k ==> !#[trigger] seen[e],
        decreases n - k,
    {
        seen.push(false);
        k += 1;
    }
    let mut j: usize = 0;
    while j < n
        invariant
            j <= n,
            n == numbers.len(),
            seen.len() == n,
            forall|e: int| 0 <= e < n ==> (#[trigger] seen[e] <==> numbers@.take(j as int).contains(e as usize)),
            top_seen <==> numbers@.take(j as int).contains(n),
        decreases n - j,
    {
        let v = numbers[j];
        let ghost earlier = numbers@.take(j as int);
        let ghost now = numbers@.take(j + 1);
        proof {
            assert(now =~= earlier.push(v));
            assert forall|e: usize| now.contains(e) <==> earlier.contains(e) || e == v by {
                if now.contains(e) {
                    let i = choose|i: int| 0 <= i < now.len() && now[i] == e;
                    if i < earlier.len() {
                        assert(earlier[i] == e);
                    }
                }
                if earlier.contains(e) {
                    let i = choose|i: int| 0 <= i < earlier.len() && earlier[i] == e;
                    assert(now[i] == e);
                }
                assert(now[j as int] == v);
            }
        }
        if v < n {
            seen.set(v, true);
        } else if v == n {
            top_seen = true;
        }
        j += 1;
    }
    assert(numbers@.take(n as int) =~= numbers@);
    let mut missing: Vec<usize> = Vec::new();
    let mut e: usize = 0;
    while e < n
        invariant
            e <= n,
            n == numbers.len(),
            seen.len() == n,
            forall|x: int| 0 <= x < n ==> (#[trigger] seen[x] <==> numbers@.contains(x as usize)),
            missing@ == gaps(numbers@, e as nat),
        decreases n - e,
    {
        if !seen[e] {
            missing.push(e);
        }
        e += 1;
    }
    if !top_seen {
        missing.push(n);
    }
    missing
}

/// Looks for numbers that are missing from the identifiers of `backup`.
///
/// With `n` identifiers that read as numbers, the numbers `0..=n` are
/// expected; those that no identifier stands for are reported, rising.
/// Identifiers that do not read as numbers are not counted and are reported
/// apart. The records without identifier are listed by date, the earliest
/// first, those without a date that can be read last.
pub fn find_missing_ids(backup: &[Post]) -> (report: GapReport)
    ensures
        report.counted == numbers(ids_of(views(backup@))).len(),
        report.missing@ == missing_ids(ids_of(views(backup@))),
        report.unreadable.deep_view() == unreadable(ids_of(views(backup@))),
        exists|sorted: Seq<PostView>| #[trigger]
            is_stable_sort(
                without_id(views(backup@)),
                sorted,
                date_keys(without_id(views(backup@))),
                false,
            ) && report.unassigned.deep_view() == titles_of(sorted),
{
    let ghost posts = views(backup@);
    let ghost ids = ids_of(posts);
    let ghost lacks_id = |p: PostView| p.id is None;
    let mut found: Vec<usize> = Vec::new();
    let mut unread: Vec<String> = Vec::new();
    let mut bare: Vec<&Post> = Vec::new();
    let mut i: usize = 0;
    proof {
        assert(ids.take(0) =~= Seq::<Option<Seq<char>>>::empty());
        assert(unread.deep_view() =~= Seq::<Seq<char>>::empty());
        assert(posts.take(0) =~= Seq::<PostView>::empty());
        assert(ref_views(bare@) =~= posts.take(0).filter(lacks_id));
    }
    while i < backup.len()
        invariant
            i <= backup.len(),
            posts == views(backup@),
            ids == ids_of(posts),
            lacks_id == |p: PostView| p.id is None,
            found@ == numbers(ids.take(i as int)),
            unread.deep_view() == unreadable(ids.take(i as int)),
            ref_views(bare@) == posts.take(i as int).filter(lacks_id),
        decreases backup.len() - i,
    {
        let ghost unread_before = unread.deep_view();
        let ghost bare_before = ref_views(bare@);
        proof {
            assert(ids.take(i + 1).drop_last() =~= ids.take(i as int));
            assert(ids.take(i + 1).last() == backup[i as int].id.deep_view());
            assert(posts.take(i + 1) =~= posts.take(i as int).push(backup[i as int]@));
            posts.take(i as int).lemma_filter_push(backup[i as int]@, lacks_id);
        }
        match &backup[i].id {
            Some(text) => match parse_number(text.as_str()) {
                Some(n) => {
                    found.push(n);
                },
                None => {
                    unread.push(copy_string(text));
                    assert(unread.deep_view() =~= unread_before.push(text@));
                },
            },
            None => {
                bare.push(&backup[i]);
                assert(ref_views(bare@) =~= bare_before.push(backup[i as int]@));
            },
        }
        i += 1;
    }
    proof {
        assert(ids.take(i as int) =~= ids);
        assert(posts.take(i as int) =~= posts);
    }
    let missing = find_gaps(&found);
    let ghost unsorted = ref_views(bare@);
    sort_backup_asc(&mut bare);
    let ghost sorted = ref_views(bare@);
    let mut unassigned: Vec<String> = Vec::new();
    let mut k: usize = 0;
    while k < bare.len()
        invariant
            k <= bare.len(),
            unassigned.len() == k,
            sorted == ref_views(bare@),
            is_stable_sort(unsorted, sorted, date_keys(unsorted), false),
            forall|j: int| 0 <= j < k ==> (#[trigger] unassigned[j])@ == bare[j]@.title,
        decreases bare.len() - k,
    {
        unassigned.push(copy_string(&bare[k].title));
        k += 1;
    }
    assert(unassigned.deep_view() =~= titles_of(sorted));
    assert(is_stable_sort(without_id(posts), sorted, date_keys(without_id(posts)), false));
    GapReport { counted: found.len(), missing, unassigned, unreadable: unread }
}

} // verus!
