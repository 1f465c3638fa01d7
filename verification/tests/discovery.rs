use scrape_blogger::discovery::{Discovery, End, Step};

const SITE: &str = "https://gnosticesotericstudyworkaids.blogspot.com";

fn article(name: &str) -> String {
    format!("{SITE}/2015/01/{name}.html")
}

fn page(articles: &[&str], older: Option<&str>) -> String {
    let mut html = String::from("<html><body><div class=\"blog-posts hfeed\">");
    for name in articles {
        html.push_str(&format!("<a href=\"{}\">{name}</a>", article(name)));
    }
    html.push_str("</div>");
    if let Some(target) = older {
        html.push_str(&format!("<a class=\"blog-pager-older-link\" href=\"{target}\">Older</a>"));
    }
    html.push_str("</body></html>");
    html
}

/// A site of three listing pages: A links to B, B to C, C to nothing.
fn site(address: &str) -> String {
    match address {
        "A" => page(&["one", "two"], Some("B")),
        "B" => page(&["two", "three"], Some("C")),
        "C" => page(&["four"], None),
        other => panic!("no page at {other}"),
    }
}

/// Runs a full walk over `site` and returns what was found and the pages fetched.
fn run(start: &str, archived: &[String], site: fn(&str) -> String) -> (Vec<String>, Vec<String>, End) {
    let mut walk = Discovery::begin(start, &archived.to_vec());
    let mut fetched = Vec::new();
    loop {
        let address = walk.current().clone();
        fetched.push(address.clone());
        assert!(fetched.len() <= 10, "the walk does not end");
        let (next, step) = walk.visit(&site(&address));
        walk = next;
        match step.unwrap() {
            Step::Fetch(target) => assert_eq!(&target, walk.current()),
            Step::Stop(end) => {
                assert!(walk.is_finished());
                assert_eq!(walk.pages_visited(), fetched.len());
                return (walk.into_found(), fetched, end);
            }
        }
    }
}

#[test]
fn walk_follows_older_links_to_the_end() {
    let (found, fetched, end) = run("A", &[], site);
    assert_eq!(fetched, vec!["A", "B", "C"]);
    assert_eq!(found, vec![article("one"), article("two"), article("three"), article("four")]);
    assert_eq!(end, End::Exhausted);
}

#[test]
fn walk_leaves_out_archived_addresses() {
    let archived = vec![article("two"), article("four"), article("unrelated")];
    let (found, fetched, _) = run("A", &archived, site);
    assert_eq!(fetched, vec!["A", "B", "C"]);
    assert_eq!(found, vec![article("one"), article("three")]);
}

#[test]
fn second_run_with_the_first_archived_finds_nothing() {
    let prior = vec![article("two")];
    let (first, _, _) = run("A", &prior, site);
    assert_eq!(first, vec![article("one"), article("three"), article("four")]);
    let (again, _, _) = run("A", &prior, site);
    assert_eq!(again, first);
    let mut archive = prior.clone();
    archive.extend(first.iter().cloned());
    let (second, fetched, end) = run("A", &archive, site);
    assert!(second.is_empty());
    assert_eq!(fetched, vec!["A", "B", "C"]);
    assert_eq!(end, End::Exhausted);
}

fn looping_site(address: &str) -> String {
    match address {
        "A" => page(&["one"], Some("B")),
        "B" => page(&["two"], Some("A")),
        other => panic!("no page at {other}"),
    }
}

#[test]
fn cycle_ends_the_walk_after_both_pages() {
    let (found, fetched, end) = run("A", &[], looping_site);
    assert_eq!(fetched, vec!["A", "B"]);
    assert_eq!(found, vec![article("one"), article("two")]);
    assert_eq!(end, End::Cycle("A".to_string()));
}

fn self_linking_site(address: &str) -> String {
    match address {
        "A" => page(&["one"], Some("A")),
        other => panic!("no page at {other}"),
    }
}

#[test]
fn page_that_links_to_itself_ends_the_walk() {
    let (found, fetched, end) = run("A", &[], self_linking_site);
    assert_eq!(fetched, vec!["A"]);
    assert_eq!(found, vec![article("one")]);
    assert_eq!(end, End::Cycle("A".to_string()));
}

#[test]
fn recent_walk_stops_after_the_first_page() {
    let walk = Discovery::begin_recent("A");
    assert_eq!(walk.pages_visited(), 0);
    let (walk, step) = walk.visit(&site("A"));
    assert_eq!(step.unwrap(), Step::Stop(End::Exhausted));
    assert_eq!(walk.pages_visited(), 1);
    assert_eq!(walk.found_count(), 2);
    assert_eq!(walk.into_found(), vec![article("one"), article("two")]);
}

#[test]
fn advance_on_plain_values() {
    let walk = Discovery::begin("start", &vec!["old".to_string()]);
    let links = vec!["new".to_string(), "old".to_string(), "new".to_string()];
    let (walk, step) = walk.advance(&links, Some("next".to_string()));
    assert_eq!(step, Step::Fetch("next".to_string()));
    assert_eq!(walk.current(), "next");
    assert!(!walk.is_finished());
    assert_eq!(walk.found_count(), 1);
    let (walk, step) = walk.advance(&vec!["more".to_string()], Some("start".to_string()));
    assert_eq!(step, Step::Stop(End::Cycle("start".to_string())));
    assert!(walk.is_finished());
    assert_eq!(walk.current(), "next");
    // a walk that has ended stays as it is
    let (walk, step) = walk.advance(&vec!["late".to_string()], Some("other".to_string()));
    assert_eq!(step, Step::Stop(End::Cycle("start".to_string())));
    assert_eq!(walk.pages_visited(), 2);
    assert_eq!(walk.into_found(), vec!["new".to_string(), "more".to_string()]);
}

#[test]
fn step_clone_is_equal() {
    let step = Step::Fetch("x".to_string());
    assert_eq!(step.clone(), step);
    let stop = Step::Stop(End::Cycle("y".to_string()));
    assert_eq!(stop.clone(), stop);
}
