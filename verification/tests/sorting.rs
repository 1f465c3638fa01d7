use scrape_blogger::arrange::stable_order;
use scrape_blogger::post::Post;
use scrape_blogger::sorting::{
    date_key_of, id_key_of, sort_backup, sort_backup_asc, sort_backup_by_id, sort_for_archive,
};

fn post(id: Option<&str>, title: &str, date: Option<&str>) -> Post {
    Post {
        id: id.map(String::from),
        title: title.to_string(),
        content: "text".to_string(),
        url: format!("https://site/{title}"),
        date: date.map(String::from),
        images: vec![format!("https://img/{title}.png")],
    }
}

fn titles(posts: &[Post]) -> Vec<&str> {
    posts.iter().map(|p| p.title.as_str()).collect()
}

fn dated() -> Vec<Post> {
    vec![
        post(Some("1"), "jan a", Some("Monday, 5 January 2015")),
        post(None, "undated", None),
        post(Some("3"), "mar", Some("Tuesday, 1 March 2016")),
        post(Some("x"), "garbled", Some("some day")),
        post(Some("10"), "jan b", Some("5 January 2015")),
        post(Some("3"), "dec", Some("Posted on 31 December 2014 by me")),
        post(None, "no such day", Some("31 February 2015")),
    ]
}

#[test]
fn date_key_is_the_day_number() {
    assert_eq!(date_key_of(&Some("Thursday, 1 January 1970".to_string())), Some(719_163));
    assert_eq!(date_key_of(&Some("1 January 0001".to_string())), Some(1));
    assert_eq!(date_key_of(&Some("2 January 1970, 31 December 1999".to_string())), Some(719_164));
    assert_eq!(date_key_of(&Some("1 Januar 1970".to_string())), None);
    assert_eq!(date_key_of(&Some("".to_string())), None);
    assert_eq!(date_key_of(&None), None);
}

#[test]
fn id_key_is_the_number() {
    assert_eq!(id_key_of(&Some("42".to_string())), Some(42));
    assert_eq!(id_key_of(&Some("forty".to_string())), None);
    assert_eq!(id_key_of(&None), None);
}

#[test]
fn sort_backup_puts_the_latest_first() {
    let mut backup = dated();
    sort_backup(&mut backup);
    assert_eq!(
        titles(&backup),
        vec!["mar", "jan a", "jan b", "dec", "undated", "garbled", "no such day"]
    );
    // the records move whole
    assert_eq!(backup[0].id, Some("3".to_string()));
    assert_eq!(backup[0].images, vec!["https://img/mar.png".to_string()]);
}

#[test]
fn sort_backup_asc_puts_the_earliest_first_and_undated_last() {
    let backup = dated();
    let mut refs: Vec<&Post> = backup.iter().collect();
    sort_backup_asc(&mut refs);
    let sorted: Vec<&str> = refs.iter().map(|p| p.title.as_str()).collect();
    assert_eq!(
        sorted,
        vec!["dec", "jan a", "jan b", "mar", "undated", "garbled", "no such day"]
    );
}

#[test]
fn sort_backup_by_id_puts_the_greatest_first() {
    let mut backup = dated();
    sort_backup_by_id(&mut backup);
    assert_eq!(
        titles(&backup),
        vec!["jan b", "mar", "dec", "jan a", "undated", "garbled", "no such day"]
    );
}

#[test]
fn sort_for_archive_goes_by_mode() {
    let mut full = dated();
    sort_for_archive(&mut full, false);
    let mut by_id = dated();
    sort_backup_by_id(&mut by_id);
    assert_eq!(titles(&full), titles(&by_id));
    let mut recent = dated();
    sort_for_archive(&mut recent, true);
    let mut by_date = dated();
    sort_backup(&mut by_date);
    assert_eq!(titles(&recent), titles(&by_date));
}

#[test]
fn sorting_nothing_and_one() {
    let mut none: Vec<Post> = Vec::new();
    sort_backup(&mut none);
    assert!(none.is_empty());
    let mut one = vec![post(None, "only", None)];
    sort_backup_by_id(&mut one);
    assert_eq!(titles(&one), vec!["only"]);
}

#[test]
fn sorting_twice_changes_nothing_more() {
    let mut backup = dated();
    sort_backup(&mut backup);
    let once: Vec<String> = backup.iter().map(|p| p.title.clone()).collect();
    sort_backup(&mut backup);
    assert_eq!(titles(&backup), once);
}

#[test]
fn stable_order_lists_positions() {
    let keys = vec![Some(5), None, Some(7), Some(5), None, Some(-1)];
    assert_eq!(stable_order(&keys, true), vec![2, 0, 3, 5, 1, 4]);
    assert_eq!(stable_order(&keys, false), vec![5, 0, 3, 2, 1, 4]);
    assert_eq!(stable_order(&Vec::new(), true), Vec::<usize>::new());
}

#[test]
fn post_clone_is_equal() {
    let first = post(Some("1"), "t", Some("d"));
    let copy = first.clone();
    assert_eq!(copy.id, first.id);
    assert_eq!(copy.title, first.title);
    assert_eq!(copy.content, first.content);
    assert_eq!(copy.url, first.url);
    assert_eq!(copy.date, first.date);
    assert_eq!(copy.images, first.images);
}
