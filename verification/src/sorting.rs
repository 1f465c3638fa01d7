//! The orders in which an archive is written and searched: by date and by
//! number.

use vstd::prelude::*;
use crate::arrange::{
    arranged, is_stable_order, is_stable_sort, key_int, key_ints, position_ints, stable_order,
};
use crate::calendar::{parse_day_number, parsed_day_number};
use crate::number::{parse_number, parsed_usize};
use crate::pattern::{capture, pattern_capture};
use crate::post::{ref_views, views, Post, PostView};

verus! {

/// A date inside a date label: a day of one or two digits, a word, a year of
/// four digits. The first group is the date.
pub const DATE_PATTERN: &'static str = "(\\d{1,2} \\w+ \\d{4})";

/// How the date reads: day, month by its full name, year.
pub const DATE_FORMAT: &'static str = "%d %B %Y";

/// The day number of the first date in a date label. A record without a
/// label, or with a label that holds no date, has none.
pub open spec fn date_key(label: Option<Seq<char>>) -> Option<int> {
    match label {
        None => None,
        Some(text) => match pattern_capture(DATE_PATTERN@, text, 1) {
            Some(Some(day)) => match parsed_day_number(day, DATE_FORMAT@) {
                Some(n) => Some(n as int),
                None => None,
            },
            _ => None,
        },
    }
}

/// The number that a record's identifier stands for. A record without an
/// identifier, or with one that does not read as a number, has none.
pub open spec fn id_key(id: Option<Seq<char>>) -> Option<int> {
    match id {
        None => None,
        Some(text) => match parsed_usize(text) {
            Some(n) => Some(n as int),
            None => None,
        },
    }
}

pub open spec fn date_keys(posts: Seq<PostView>) -> Seq<Option<int>> {
    posts.map_values(|p: PostView| date_key(p.date))
}

pub open spec fn id_keys(posts: Seq<PostView>) -> Seq<Option<int>> {
    posts.map_values(|p: PostView| id_key(p.id))
}

/// The day number of the first date in `label`.
pub fn date_key_of(label: &Option<String>) -> (key: Option<i128>)
    ensures
        key_int(key) == date_key(label.deep_view()),
{
    let key: Option<i128> = match label {
        None => None,
        Some(text) => match capture(DATE_PATTERN, text.as_str(), 1) {
            Some(Some(day)) => match parse_day_number(day.as_str(), DATE_FORMAT) {
                Some(n) => Some(n as i128),
                None => None,
            },
            _ => None,
        },
    };
    key
}

/// The number that the identifier `id` stands for.
pub fn id_key_of(id: &Option<String>) -> (key: Option<i128>)
    ensures
        key_int(key) == id_key(id.deep_view()),
{
    let key: Option<i128> = match id {
        None => None,
        Some(text) => match parse_number(text.as_str()) {
            Some(n) => Some(n as i128),
            None => None,
        },
    };
    key
}

fn rearrange(posts: &Vec<Post>, order: &Vec<usize>) -> (r: Vec<Post>)
    requires
        forall|a: int| 0 <= a < order.len() ==> #[trigger] order[a] < posts.len(),
    ensures
        views(r@) == arranged(views(posts@), position_ints(order@)),
{
    let mut r: Vec<Post> = Vec::new();
    let mut a: usize = 0;
    while a < order.len()
        invariant
            a <= order.len(),
            r.len() == a,
            forall|b: int| 0 <= b < order.len() ==> #[trigger] order[b] < posts.len(),
            forall|b: int| 0 <= b < a ==> (#[trigger] r[b])@ == posts[order[b] as int]@,
        decreases order.len() - a,
    {
        r.push(posts[order[a]].clone());
        a += 1;
    }
    assert(views(r@) =~= arranged(views(posts@), position_ints(order@)));
    r
}

/// Sorts `backup` by date, the latest first. Records without a date that can
/// be read go last. Records of the same day keep their order.
pub fn sort_backup(backup: &mut Vec<Post>)
    ensures
        is_stable_sort(
            views(old(backup)@),
            views(final(backup)@),
            date_keys(views(old(backup)@)),
            true,
        ),
{
    let ghost before = views(backup@);
    let mut keys: Vec<Option<i128>> = Vec::new();
    let mut i: usize = 0;
    while i < backup.len()
        invariant
            i <= backup.len(),
            before == views(backup@),
            keys.len() == i,
            forall|j: int| 0 <= j < i ==> #[trigger] key_ints(keys@)[j] == date_keys(before)[j],
        decreases backup.len() - i,
    {
        let key = date_key_of(&backup[i].date);
        let ghost earlier = key_ints(keys@);
        keys.push(key);
        proof {
            assert forall|j: int| 0 <= j < i + 1 implies #[trigger] key_ints(keys@)[j]
                == date_keys(before)[j] by {
                if j < i {
                    assert(key_ints(keys@)[j] == earlier[j]);
                }
            }
        }
        i += 1;
    }
    assert(key_ints(keys@) =~= date_keys(before));
    let order = stable_order(&keys, true);
    let sorted = rearrange(backup, &order);
    *backup = sorted;
    assert(is_stable_order(position_ints(order@), date_keys(before), true));
}

/// Sorts `backup` by number, the greatest first. Records without an
/// identifier that reads as a number go last. Records with the same number
/// keep their order.
pub fn sort_backup_by_id(backup: &mut Vec<Post>)
    ensures
        is_stable_sort(
            views(old(backup)@),
            views(final(backup)@),
            id_keys(views(old(backup)@)),
            true,
        ),
{
    let ghost before = views(backup@);
    let mut keys: Vec<Option<i128>> = Vec::new();
    let mut i: usize = 0;
    while i < backup.len()
        invariant
            i <= backup.len(),
            before == views(backup@),
            keys.len() == i,
            forall|j: int| 0 <= j < i ==> #[trigger] key_ints(keys@)[j] == id_keys(before)[j],
        decreases backup.len() - i,
    {
        let key = id_key_of(&backup[i].id);
        let ghost earlier = key_ints(keys@);
        keys.push(key);
        proof {
            assert forall|j: int| 0 <= j < i + 1 implies #[trigger] key_ints(keys@)[j] == id_keys(
                before,
            )[j] by {
                if j < i {
                    assert(key_ints(keys@)[j] == earlier[j]);
                }
            }
        }
        i += 1;
    }
    assert(key_ints(keys@) =~= id_keys(before));
    let order = stable_order(&keys, true);
    let sorted = rearrange(backup, &order);
    *backup = sorted;
    assert(is_stable_order(position_ints(order@), id_keys(before), true));
}

/// Sorts `backup` by date, the earliest first. Records without a date that
/// can be read count as the latest and go last. Records of the same day keep
/// their order.
pub fn sort_backup_asc<'a>(backup: &mut Vec<&'a Post>)
    ensures
        is_stable_sort(
            ref_views(old(backup)@),
            ref_views(final(backup)@),
            date_keys(ref_views(old(backup)@)),
            false,
        ),
{
    let ghost before = ref_views(backup@);
    let mut keys: Vec<Option<i128>> = Vec::new();
    let mut i: usize = 0;
    while i < backup.len()
        invariant
            i <= backup.len(),
            before == ref_views(backup@),
            keys.len() == i,
            forall|j: int| 0 <= j < i ==> #[trigger] key_ints(keys@)[j] == date_keys(before)[j],
        decreases backup.len() - i,
    {
        let key = date_key_of(&backup[i].date);
        let ghost earlier = key_ints(keys@);
        keys.push(key);
        proof {
            assert forall|j: int| 0 <= j < i + 1 implies #[trigger] key_ints(keys@)[j]
                == date_keys(before)[j] by {
                if j < i {
                    assert(key_ints(keys@)[j] == earlier[j]);
                }
            }
        }
        i += 1;
    }
    assert(key_ints(keys@) =~= date_keys(before));
    let order = stable_order(&keys, false);
    let mut sorted: Vec<&'a Post> = Vec::new();
    let mut a: usize = 0;
    while a < order.len()
        invariant
            a <= order.len(),
            sorted.len() == a,
            order.len() == backup.len(),
            forall|b: int| 0 <= b < order.len() ==> #[trigger] order[b] < backup.len(),
            forall|b: int| 0 <= b < a ==> (#[trigger] sorted[b])@ == backup[order[b] as int]@,
        decreases order.len() - a,
    {
        sorted.push(backup[order[a]]);
        a += 1;
    }
    assert(ref_views(sorted@) =~= arranged(before, position_ints(order@)));
    *backup = sorted;
}

/// Puts `backup` in the order in which it is written out: a full archive by
/// number, the greatest first; the recent articles alone by date, the latest
/// first.
pub fn sort_for_archive(backup: &mut Vec<Post>, recent_only: bool)
    ensures
        is_stable_sort(
            views(old(backup)@),
            views(final(backup)@),
            if recent_only {
                date_keys(views(old(backup)@))
            } else {
                id_keys(views(old(backup)@))
            },
            true,
        ),
{
    if recent_only {
        sort_backup(backup);
    } else {
        sort_backup_by_id(backup);
    }
}

} // verus!
