//! What a listing page holds: the addresses of its articles and the link to
//! the next, older listing page.

use vstd::prelude::*;
use crate::extract::ExtractError;
use crate::markup::{nested_attr, select_attr, select_nested_attr, selected_attr};
use crate::pattern::{is_match, pattern_matches};
use crate::text::{copy_string, first_present, first_present_value, present, present_values};
use crate::text_set::{with_member, TextSet};

verus! {

/// Selects the list of articles on a listing page.
pub const FEED_SELECTOR: &'static str = "div.blog-posts.hfeed";

/// Selects links.
pub const ANCHOR_SELECTOR: &'static str = "a";

/// The attribute that holds a link's target.
pub const LINK_ATTRIBUTE: &'static str = "href";

/// The shape of an article's address on this site.
pub const POST_LINK_PATTERN: &'static str =
    "^https://gnosticesotericstudyworkaids\\.blogspot\\.com/\\d+/.*\\.html$";

/// Selects the link to the next, older listing page.
pub const OLDER_LINK_SELECTOR: &'static str = "a.blog-pager-older-link";

/// The targets that were judged to have the shape of an article's address,
/// each once, in the order of first appearance. A target that could not be
/// judged, because the pattern was not accepted, fails the whole.
pub open spec fn kept_links(judged: Seq<(Seq<char>, Option<bool>)>) -> Result<
    Seq<Seq<char>>,
    ExtractError,
>
    decreases judged.len(),
{
    if judged.len() == 0 {
        Ok(Seq::empty())
    } else {
        match kept_links(judged.drop_last()) {
            Err(e) => Err(e),
            Ok(before) => match judged.last().1 {
                None => Err(ExtractError::Pattern),
                Some(true) => Ok(with_member(before, judged.last().0)),
                Some(false) => Ok(before),
            },
        }
    }
}

/// Each target with the verdict of the article pattern on it.
pub open spec fn judged_links(targets: Seq<Seq<char>>) -> Seq<(Seq<char>, Option<bool>)> {
    targets.map_values(|t: Seq<char>| (t, pattern_matches(POST_LINK_PATTERN@, t)))
}

/// The article addresses on the listing page `html`: the targets of the
/// links in the page's first list of articles that have the shape of an
/// article's address.
pub open spec fn post_links(html: Seq<char>) -> Result<Seq<Seq<char>>, ExtractError> {
    match nested_attr(html, FEED_SELECTOR@, ANCHOR_SELECTOR@, LINK_ATTRIBUTE@) {
        None => Err(ExtractError::Selector),
        Some(feeds) => if feeds.len() == 0 {
            Ok(Seq::empty())
        } else {
            kept_links(judged_links(present(feeds[0])))
        },
    }
}

/// The target of the first link to an older listing page that has a target.
pub open spec fn older_link(html: Seq<char>) -> Option<Seq<char>> {
    match selected_attr(html, OLDER_LINK_SELECTOR@, LINK_ATTRIBUTE@) {
        Some(targets) => first_present(targets),
        None => None,
    }
}

/// Keeps the targets whose verdict is `Some(true)`, each once. Fails with
/// [`ExtractError::Pattern`] if a verdict is missing.
pub fn keep_links(judged: &Vec<(String, Option<bool>)>) -> (r: Result<Vec<String>, ExtractError>)
    ensures
        match r {
            Ok(links) => kept_links(judged.deep_view()) == Ok::<Seq<Seq<char>>, ExtractError>(
                links.deep_view(),
            ) && links.deep_view().no_duplicates(),
            Err(e) => kept_links(judged.deep_view()) == Err::<Seq<Seq<char>>, ExtractError>(e),
        },
{
    let ghost all = judged.deep_view();
    let mut kept = TextSet::new();
    let mut i: usize = 0;
    assert(all.take(0) =~= Seq::<(Seq<char>, Option<bool>)>::empty());
    while i < judged.len()
        invariant
            i <= judged.len(),
            all == judged.deep_view(),
            kept_links(all.take(i as int)) == Ok::<Seq<Seq<char>>, ExtractError>(kept@),
        decreases judged.len() - i,
    {
        proof {
            assert(all.take(i + 1).drop_last() =~= all.take(i as int));
            assert(all.take(i + 1).last() == judged[i as int].deep_view());
        }
        match judged[i].1 {
            None => {
                proof {
                    lemma_kept_links_fails(all, i + 1);
                }
                return Err(ExtractError::Pattern);
            },
            Some(true) => {
                kept.insert(copy_string(&judged[i].0));
            },
            Some(false) => {},
        }
        i += 1;
    }
    assert(all.take(i as int) =~= all);
    Ok(kept.into_list())
}

/// Once a beginning of the list fails, the whole list fails in the same way.
pub proof fn lemma_kept_links_fails(judged: Seq<(Seq<char>, Option<bool>)>, k: int)
    requires
        0 <= k <= judged.len(),
        kept_links(judged.take(k)) is Err,
    ensures
        kept_links(judged) == kept_links(judged.take(k)),
    decreases judged.len(),
{
    if k == judged.len() {
        assert(judged.take(k) =~= judged);
    } else {
        assert(judged.drop_last().take(k) =~= judged.take(k));
        lemma_kept_links_fails(judged.drop_last(), k);
    }
}

/// The article addresses on the listing page `html`.
pub fn extract_post_links(html: &str) -> (r: Result<Vec<String>, ExtractError>)
    ensures
        match r {
            Ok(links) => post_links(html@) == Ok::<Seq<Seq<char>>, ExtractError>(
                links.deep_view(),
            ) && links.deep_view().no_duplicates(),
            Err(e) => post_links(html@) == Err::<Seq<Seq<char>>, ExtractError>(e),
        },
{
    let feeds = match select_nested_attr(html, FEED_SELECTOR, ANCHOR_SELECTOR, LINK_ATTRIBUTE) {
        Some(feeds) => feeds,
        None => {
            return Err(ExtractError::Selector);
        },
    };
    if feeds.len() == 0 {
        let none: Vec<String> = Vec::new();
        assert(none.deep_view() =~= Seq::<Seq<char>>::empty());
        return Ok(none);
    }
    let targets = present_values(&feeds[0]);
    let ghost wanted = judged_links(targets.deep_view());
    let mut judged: Vec<(String, Option<bool>)> = Vec::new();
    let mut i: usize = 0;
    while i < targets.len()
        invariant
            i <= targets.len(),
            judged.len() == i,
            wanted == judged_links(targets.deep_view()),
            forall|j: int| 0 <= j < i ==> (#[trigger] judged[j]).deep_view() == wanted[j],
        decreases targets.len() - i,
    {
        let verdict = is_match(POST_LINK_PATTERN, targets[i].as_str());
        judged.push((copy_string(&targets[i]), verdict));
        i += 1;
    }
    assert(judged.deep_view() =~= wanted);
    keep_links(&judged)
}

/// The address of the next, older listing page that `html` links to.
pub fn find_older_posts_link(html: &str) -> (next: Option<String>)
    ensures
        next.deep_view() == older_link(html@),
{
    match select_attr(html, OLDER_LINK_SELECTOR, LINK_ATTRIBUTE) {
        Some(targets) => first_present_value(&targets),
        None => None,
    }
}

} // verus!
