//! The records of the run's log: one tagged line each.

use vstd::prelude::*;
use crate::number::{decimal_digits, decimal_text};

verus! {

/// `text` between double quotes, with its quotes, backslashes and control
/// characters escaped, as the standard library prints a string for debugging.
pub uninterp spec fn debug_quoted(text: Seq<char>) -> Seq<char>;

/// Prints `text` with the `Debug` formatting of `str`. What comes out
/// depends on `text` alone, so it is named by [`debug_quoted`].
#[verifier::external_body]
pub(crate) fn quote(text: &str) -> (r: String)
    ensures
        r@ == debug_quoted(text@),
{
    format!("{:?}", text)
}

/// Something worth a line in the log.
#[derive(Debug, PartialEq, Eq)]
pub enum LogRecord {
    /// An attempt to scrape `address` failed and will be repeated.
    Warn { address: String, attempt: u32, limit: u32 },
    /// An identifier does not read as a number and was not counted.
    Unreadable { id: String },
    /// Scraping `address` failed for good.
    Error { address: String, detail: String },
    /// `count` records carry the identifier `id`.
    Duplicate { id: String, count: usize },
    /// No record carries `number`; the record called `title` has no
    /// identifier and may be the one.
    Missing { number: usize, title: Option<String> },
}

impl LogRecord {
    /// The tag that the record's line begins with.
    pub open spec fn tag(&self) -> Seq<char> {
        match self {
            LogRecord::Warn { .. } => "[WARN]"@,
            LogRecord::Unreadable { .. } => "[WARN]"@,
            LogRecord::Error { .. } => "[ERROR]"@,
            LogRecord::Duplicate { .. } => "[DUPLICATE]"@,
            LogRecord::Missing { .. } => "[MISSING]"@,
        }
    }

    /// What the record's line says after the tag.
    pub open spec fn message(&self) -> Seq<char> {
        match self {
            LogRecord::Warn { address, attempt, limit } => "Failed to scrape post: "@ + address@
                + " on attempt "@ + decimal_digits(*attempt as nat) + "/"@ + decimal_digits(
                *limit as nat,
            ) + ". Retrying after delay..."@,
            LogRecord::Unreadable { id } => "ID: "@ + debug_quoted(id@)
                + " is not a number and was not counted"@,
            LogRecord::Error { address, detail } => "Failed to scrape post: "@ + address@
                + " with error: "@ + detail@,
            LogRecord::Duplicate { id, count } => "ID: "@ + id@ + " was found "@ + decimal_digits(
                *count as nat,
            ) + " times"@,
            LogRecord::Missing { number, title } => match title {
                Some(title) => "ID: "@ + decimal_digits(*number as nat)
                    + " may be assigned to post with title "@ + debug_quoted(title@),
                None => "ID: "@ + decimal_digits(*number as nat)
                    + " is missing, and no post is left that it may be assigned to"@,
            },
        }
    }

    /// The record's line, without line end: the tag, a space, the message.
    pub open spec fn line(&self) -> Seq<char> {
        self.tag() + " "@ + self.message()
    }

    /// The record's line for the log, without line end.
    pub fn render(&self) -> (text: String)
        ensures
            text@ == self.line(),
    {
        let mut text = String::new();
        match self {
            LogRecord::Warn { address, attempt, limit } => {
                text.append("[WARN]");
                text.append(" ");
                let ghost head = text@;
                text.append("Failed to scrape post: ");
                text.append(address.as_str());
                text.append(" on attempt ");
                text.append(decimal_text(*attempt as usize).as_str());
                text.append("/");
                text.append(decimal_text(*limit as usize).as_str());
                text.append(". Retrying after delay...");
                assert(text@ =~= head + self.message());
            },
            LogRecord::Unreadable { id } => {
                text.append("[WARN]");
                text.append(" ");
                let ghost head = text@;
                text.append("ID: ");
                text.append(quote(id.as_str()).as_str());
                text.append(" is not a number and was not counted");
                assert(text@ =~= head + self.message());
            },
            LogRecord::Error { address, detail } => {
                text.append("[ERROR]");
                text.append(" ");
                let ghost head = text@;
                text.append("Failed to scrape post: ");
                text.append(address.as_str());
                text.append(" with error: ");
                text.append(detail.as_str());
                assert(text@ =~= head + self.message());
            },
            LogRecord::Duplicate { id, count } => {
                text.append("[DUPLICATE]");
                text.append(" ");
                let ghost head = text@;
                text.append("ID: ");
                text.append(id.as_str());
                text.append(" was found ");
                text.append(decimal_text(*count).as_str());
                text.append(" times");
                assert(text@ =~= head + self.message());
            },
            LogRecord::Missing { number, title } => {
                text.append("[MISSING]");
                text.append(" ");
                let ghost head = text@;
                text.append("ID: ");
                text.append(decimal_text(*number).as_str());
                match title {
                    Some(title) => {
                        text.append(" may be assigned to post with title ");
                        text.append(quote(title.as_str()).as_str());
                    },
                    None => {
                        text.append(" is missing, and no post is left that it may be assigned to");
                    },
                }
                assert(text@ =~= head + self.message());
            },
        }
        text
    }
}

} // verus!
