use scrape_blogger::consistency::{
    count_id, find_duplicates, find_gaps, find_missing_ids, DuplicateGroup, Suggestion,
};
use scrape_blogger::post::Post;

fn post(id: Option<&str>, title: &str, date: Option<&str>) -> Post {
    Post {
        id: id.map(String::from),
        title: title.to_string(),
        content: "text".to_string(),
        url: format!("https://site/{title}"),
        date: date.map(String::from),
        images: Vec::new(),
    }
}

fn with_ids(ids: &[&str]) -> Vec<Post> {
    ids.iter().map(|id| post(Some(id), &format!("post {id}"), None)).collect()
}

#[test]
fn duplicate_detection() {
    let archive = with_ids(&["5", "5", "7"]);
    let groups = find_duplicates(&archive);
    assert_eq!(groups, vec![DuplicateGroup { id: "5".to_string(), count: 2 }]);
}

#[test]
fn duplicates_come_in_the_order_of_first_appearance() {
    let mut archive = with_ids(&["b", "a", "c", "a", "b", "a"]);
    archive.insert(2, post(None, "no id", None));
    archive.push(post(None, "no id either", None));
    let groups = find_duplicates(&archive);
    assert_eq!(
        groups,
        vec![
            DuplicateGroup { id: "b".to_string(), count: 2 },
            DuplicateGroup { id: "a".to_string(), count: 3 },
        ]
    );
}

#[test]
fn no_duplicates_in_an_archive_without_repeats() {
    assert!(find_duplicates(&with_ids(&["1", "2", "3"])).is_empty());
    assert!(find_duplicates(&[]).is_empty());
    let without_ids = vec![post(None, "a", None), post(None, "b", None)];
    assert!(find_duplicates(&without_ids).is_empty());
}

#[test]
fn duplicates_compare_identifiers_as_text() {
    let groups = find_duplicates(&with_ids(&["7", "07", "7"]));
    assert_eq!(groups, vec![DuplicateGroup { id: "7".to_string(), count: 2 }]);
}

#[test]
fn count_id_counts_carriers() {
    let archive = with_ids(&["5", "5", "7"]);
    assert_eq!(count_id(&archive, "5"), 2);
    assert_eq!(count_id(&archive, "7"), 1);
    assert_eq!(count_id(&archive, "9"), 0);
}

#[test]
fn gap_detection_unpaired() {
    let archive = with_ids(&["0", "1", "3", "4"]);
    let report = find_missing_ids(&archive);
    assert_eq!(report.counted, 4);
    assert_eq!(report.missing, vec![2]);
    assert!(report.unassigned.is_empty());
    assert!(report.unreadable.is_empty());
    assert_eq!(report.suggestions(), vec![Suggestion { id: 2, title: None }]);
}

#[test]
fn gap_detection_pairs_with_the_earliest_dated_record_without_id() {
    let mut archive = with_ids(&["0", "1", "3", "4"]);
    archive.insert(1, post(None, "undated", None));
    archive.insert(3, post(None, "later", Some("Friday, 6 March 2015")));
    archive.push(post(None, "earlier", Some("Monday, 5 January 2015")));
    let report = find_missing_ids(&archive);
    assert_eq!(report.counted, 4);
    assert_eq!(report.missing, vec![2]);
    assert_eq!(
        report.unassigned,
        vec!["earlier".to_string(), "later".to_string(), "undated".to_string()]
    );
    assert_eq!(
        report.suggestions(),
        vec![Suggestion { id: 2, title: Some("earlier".to_string()) }]
    );
}

#[test]
fn dense_identifiers_miss_only_the_next_number() {
    let report = find_missing_ids(&with_ids(&["2", "0", "1"]));
    assert_eq!(report.counted, 3);
    assert_eq!(report.missing, vec![3]);
    let report = find_missing_ids(&with_ids(&["2", "0", "1", "3"]));
    assert_eq!(report.missing, vec![4]);
}

#[test]
fn full_expected_range_misses_nothing() {
    // five identifiers, expected 0..=5, and a repeat leaves one number out
    let report = find_missing_ids(&with_ids(&["0", "1", "2", "3", "3"]));
    assert_eq!(report.counted, 5);
    assert_eq!(report.missing, vec![4, 5]);
    // numbers beyond the expected range fill no gap
    let report = find_missing_ids(&with_ids(&["0", "1", "100"]));
    assert_eq!(report.counted, 3);
    assert_eq!(report.missing, vec![2, 3]);
}

#[test]
fn empty_archive_misses_number_zero() {
    let report = find_missing_ids(&[]);
    assert_eq!(report.counted, 0);
    assert_eq!(report.missing, vec![0]);
    assert_eq!(report.suggestions(), vec![Suggestion { id: 0, title: None }]);
}

#[test]
fn unreadable_identifiers_are_not_counted() {
    let report = find_missing_ids(&with_ids(&["0", "x1", "1", "", "-3", "2"]));
    assert_eq!(report.counted, 3);
    assert_eq!(report.missing, vec![3]);
    assert_eq!(report.unreadable, vec!["x1".to_string(), "".to_string(), "-3".to_string()]);
}

#[test]
fn several_gaps_pair_by_position() {
    let mut archive = with_ids(&["1", "4", "5"]);
    archive.push(post(None, "b", Some("2 February 2016")));
    archive.push(post(None, "a", Some("1 February 2016")));
    let report = find_missing_ids(&archive);
    assert_eq!(report.missing, vec![0, 2, 3]);
    assert_eq!(
        report.suggestions(),
        vec![
            Suggestion { id: 0, title: Some("a".to_string()) },
            Suggestion { id: 2, title: Some("b".to_string()) },
            Suggestion { id: 3, title: None },
        ]
    );
}

#[test]
fn find_gaps_on_plain_numbers() {
    assert_eq!(find_gaps(&vec![0, 1, 3, 4]), vec![2]);
    assert_eq!(find_gaps(&vec![]), vec![0]);
    assert_eq!(find_gaps(&vec![3, 3, 3]), vec![0, 1, 2]);
    assert_eq!(find_gaps(&vec![usize::MAX, 0]), vec![1, 2]);
    assert_eq!(find_gaps(&vec![1, 2, 0]), vec![3]);
}
