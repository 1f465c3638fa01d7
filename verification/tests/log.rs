use scrape_blogger::log::LogRecord;

#[test]
fn warn_line() {
    let record = LogRecord::Warn { address: "https://site/a.html".to_string(), attempt: 2, limit: 4 };
    assert_eq!(
        record.render(),
        "[WARN] Failed to scrape post: https://site/a.html on attempt 2/4. Retrying after delay..."
    );
}

#[test]
fn error_line() {
    let record = LogRecord::Error {
        address: "https://site/a.html".to_string(),
        detail: "Title not found".to_string(),
    };
    assert_eq!(
        record.render(),
        "[ERROR] Failed to scrape post: https://site/a.html with error: Title not found"
    );
}

#[test]
fn duplicate_line() {
    let record = LogRecord::Duplicate { id: "5".to_string(), count: 12 };
    assert_eq!(record.render(), "[DUPLICATE] ID: 5 was found 12 times");
}

#[test]
fn missing_line_quotes_the_title() {
    let record = LogRecord::Missing { number: 2, title: Some("A \"quoted\"\ntitle".to_string()) };
    assert_eq!(
        record.render(),
        "[MISSING] ID: 2 may be assigned to post with title \"A \\\"quoted\\\"\\ntitle\""
    );
}

#[test]
fn missing_line_without_candidate() {
    let record = LogRecord::Missing { number: 0, title: None };
    assert_eq!(
        record.render(),
        "[MISSING] ID: 0 is missing, and no post is left that it may be assigned to"
    );
}

#[test]
fn unreadable_line() {
    let record = LogRecord::Unreadable { id: "x1".to_string() };
    assert_eq!(record.render(), "[WARN] ID: \"x1\" is not a number and was not counted");
}
