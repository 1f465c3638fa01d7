use rayon::iter::{IntoParallelRefIterator, ParallelIterator};
use rayon::ThreadPoolBuilder;
use scrape_blogger::log::LogRecord;
use scrape_blogger::post::{ErrorKind, Post, ScrapeError};
use scrape_blogger::scheduler::{Aggregate, Summary};
use std::collections::HashSet;
use std::sync::Mutex;

fn post(address: &str) -> Post {
    Post {
        id: None,
        title: format!("title of {address}"),
        content: "text".to_string(),
        url: address.to_string(),
        date: None,
        images: Vec::new(),
    }
}

fn failure(detail: &str) -> ScrapeError {
    ScrapeError { kind: ErrorKind::TransientFetch, detail: detail.to_string() }
}

#[test]
fn empty_aggregate() {
    let aggregate = Aggregate::new();
    assert!(!aggregate.had_errors());
    assert_eq!(aggregate.summary(), Summary { carried: 0, scraped: 0, failed: 0 });
    let (items, failures) = aggregate.into_parts();
    assert!(items.is_empty());
    assert!(failures.is_empty());
}

#[test]
fn records_arrive_in_order() {
    let mut aggregate = Aggregate::from_archive(vec![post("old")]);
    assert_eq!(aggregate.record("a", Ok(post("a"))), None);
    assert_eq!(aggregate.record("b", Ok(post("b"))), None);
    assert!(!aggregate.had_errors());
    assert_eq!(aggregate.summary(), Summary { carried: 1, scraped: 2, failed: 0 });
    let (items, failures) = aggregate.into_parts();
    let urls: Vec<&str> = items.iter().map(|p| p.url.as_str()).collect();
    assert_eq!(urls, vec!["old", "a", "b"]);
    assert!(failures.is_empty());
}

#[test]
fn failure_is_noted_and_takes_no_record_away() {
    let mut aggregate = Aggregate::new();
    aggregate.record("a", Ok(post("a")));
    let line = aggregate.record("b", Err(failure("connection reset")));
    assert_eq!(
        line,
        Some(LogRecord::Error { address: "b".to_string(), detail: "connection reset".to_string() })
    );
    aggregate.record("c", Ok(post("c")));
    assert!(aggregate.had_errors());
    assert_eq!(aggregate.summary(), Summary { carried: 0, scraped: 2, failed: 1 });
    let (items, failures) = aggregate.into_parts();
    assert_eq!(items.len(), 2);
    assert_eq!(failures.len(), 1);
    assert_eq!(failures[0].address, "b");
    assert_eq!(failures[0].error.kind, ErrorKind::TransientFetch);
    assert_eq!(failures[0].error.detail, "connection reset");
}

#[test]
fn concurrent_aggregation_loses_and_repeats_nothing() {
    let addresses: Vec<String> = (0..1000).map(|i| format!("https://site/{i}.html")).collect();
    let aggregate = Mutex::new(Aggregate::new());
    let pool = ThreadPoolBuilder::new().num_threads(16).build().unwrap();
    pool.install(|| {
        addresses.par_iter().for_each(|address| {
            let scraped = post(address);
            let line = aggregate.lock().unwrap().record(address, Ok(scraped));
            assert!(line.is_none());
        });
    });
    let aggregate = aggregate.into_inner().unwrap();
    assert!(!aggregate.had_errors());
    assert_eq!(aggregate.summary(), Summary { carried: 0, scraped: 1000, failed: 0 });
    let (items, failures) = aggregate.into_parts();
    assert!(failures.is_empty());
    assert_eq!(items.len(), 1000);
    let urls: HashSet<&str> = items.iter().map(|p| p.url.as_str()).collect();
    assert_eq!(urls.len(), 1000);
    assert!(addresses.iter().all(|a| urls.contains(a.as_str())));
}

#[test]
fn concurrent_failures_stay_apart_from_the_records() {
    let addresses: Vec<usize> = (0..300).collect();
    let aggregate = Mutex::new(Aggregate::new());
    let pool = ThreadPoolBuilder::new().num_threads(8).build().unwrap();
    pool.install(|| {
        addresses.par_iter().for_each(|i| {
            let address = format!("https://site/{i}.html");
            let outcome = if i % 3 == 0 { Err(failure("down")) } else { Ok(post(&address)) };
            aggregate.lock().unwrap().record(&address, outcome);
        });
    });
    let aggregate = aggregate.into_inner().unwrap();
    assert!(aggregate.had_errors());
    assert_eq!(aggregate.summary(), Summary { carried: 0, scraped: 200, failed: 100 });
}

#[test]
fn error_kinds_that_end_the_run() {
    assert!(!ErrorKind::TransientFetch.is_fatal());
    assert!(!ErrorKind::StructuralExtract.is_fatal());
    assert!(ErrorKind::Lock.is_fatal());
    assert!(ErrorKind::Serialization.is_fatal());
    assert!(ErrorKind::PaginationFetch.is_fatal());
}
