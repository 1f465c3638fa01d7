use scrape_blogger::post::Post;
use scrape_blogger::run::{RunMode, ARCHIVE_FILE, DEFAULT_THREADS, RECENT_FILE};
use scrape_blogger::discovery::{End, Step};

fn post(id: &str, url: &str, date: &str) -> Post {
    Post {
        id: Some(id.to_string()),
        title: format!("post {id}"),
        content: "text".to_string(),
        url: url.to_string(),
        date: Some(date.to_string()),
        images: Vec::new(),
    }
}

fn archive() -> Vec<Post> {
    vec![
        post("1", "https://site/1", "3 March 2016"),
        post("3", "https://site/3", "1 March 2016"),
        post("2", "https://site/2", "2 March 2016"),
    ]
}

#[test]
fn mode_follows_the_switch() {
    assert_eq!(RunMode::from_flag(false), RunMode::Full);
    assert_eq!(RunMode::from_flag(true), RunMode::RecentOnly);
    assert_eq!(DEFAULT_THREADS, 4);
}

#[test]
fn output_file_by_mode() {
    assert_eq!(RunMode::Full.output_file(), "backup.json");
    assert_eq!(RunMode::RecentOnly.output_file(), "recents.json");
    assert_eq!(ARCHIVE_FILE, "backup.json");
    assert_eq!(RECENT_FILE, "recents.json");
}

#[test]
fn only_a_full_archive_is_checked() {
    assert!(RunMode::Full.checks_archive());
    assert!(!RunMode::RecentOnly.checks_archive());
}

#[test]
fn full_run_leaves_out_the_archive_and_follows_links() {
    let walk = RunMode::Full.begin_walk("start", &archive());
    let links = vec!["https://site/2".to_string(), "https://site/9".to_string()];
    let (walk, step) = walk.advance(&links, Some("older".to_string()));
    assert_eq!(step, Step::Fetch("older".to_string()));
    assert_eq!(walk.into_found(), vec!["https://site/9".to_string()]);
}

#[test]
fn recent_run_takes_the_first_page_as_it_is() {
    let walk = RunMode::RecentOnly.begin_walk("start", &archive());
    let links = vec!["https://site/2".to_string(), "https://site/9".to_string()];
    let (walk, step) = walk.advance(&links, Some("older".to_string()));
    assert_eq!(step, Step::Stop(End::Exhausted));
    assert_eq!(walk.into_found(), links);
}

#[test]
fn aggregate_starts_by_mode() {
    let full = RunMode::Full.begin_aggregate(archive());
    assert_eq!(full.summary().carried, 3);
    let recent = RunMode::RecentOnly.begin_aggregate(archive());
    assert_eq!(recent.summary().carried, 0);
    assert!(recent.into_parts().0.is_empty());
}

#[test]
fn sort_by_mode() {
    let mut full = archive();
    RunMode::Full.sort(&mut full);
    let ids: Vec<&str> = full.iter().map(|p| p.id.as_deref().unwrap()).collect();
    assert_eq!(ids, vec!["3", "2", "1"]);
    let mut recent = archive();
    RunMode::RecentOnly.sort(&mut recent);
    let ids: Vec<&str> = recent.iter().map(|p| p.id.as_deref().unwrap()).collect();
    assert_eq!(ids, vec!["1", "2", "3"]);
}
