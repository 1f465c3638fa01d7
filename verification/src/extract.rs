//! What an article page and a listing page hold, read out of their HTML.

use vstd::prelude::*;
use crate::markup::{
    nested_attr, select_inner_html, select_nested_attr, select_text, selected_inner_html,
    selected_text,
};
use crate::pattern::{capture, pattern_capture};
use crate::post::{ErrorKind, Post, PostView, ScrapeError};
use crate::text::{
    contains, copy_string, join, joined, occurs_at, occurs_in, remove_all, starts_with, without,
};
use crate::text_set::{with_member, TextSet};

verus! {

/// Selects the page title.
pub const TITLE_SELECTOR: &'static str = "title";

/// Selects the date label above an article.
pub const DATE_SELECTOR: &'static str = ".date-header";

/// Selects the body of an article.
pub const BODY_SELECTOR: &'static str = ".post-body.entry-content";

/// Selects the frame around an article, pictures included.
pub const FRAME_SELECTOR: &'static str = ".post-outer";

/// Selects pictures.
pub const IMAGE_SELECTOR: &'static str = "img";

/// The attribute that holds a picture's address.
pub const IMAGE_ATTRIBUTE: &'static str = "src";

/// The site's name as it stands before every article title in the page
/// title, in the escaped form that inner HTML has.
pub const TITLE_PREFIX: &'static str = "Gnostic Esoteric Study &amp; Work Aids: ";

/// A title ends in its number in round brackets; the first group is the number.
pub const ID_PATTERN: &'static str = "\\((\\d+)\\)$";

/// Why a page yields no record.
#[derive(Debug, Clone, Copy, PartialEq, Eq, Structural)]
pub enum ExtractError {
    /// The page has no title element.
    TitleNotFound,
    /// The page has no article body with text in it.
    BodyNotFound,
    /// A selector was not accepted.
    Selector,
    /// A pattern was not accepted.
    Pattern,
}

impl ExtractError {
    /// The error in words, for the log.
    pub open spec fn description(self) -> Seq<char> {
        match self {
            ExtractError::TitleNotFound => "Title not found"@,
            ExtractError::BodyNotFound => "Post body not found using any selector"@,
            ExtractError::Selector => "A selector was not accepted"@,
            ExtractError::Pattern => "A pattern was not accepted"@,
        }
    }

    /// The error in words, for the log.
    pub fn describe(self) -> (text: String)
        ensures
            text@ == self.description(),
    {
        match self {
            ExtractError::TitleNotFound => String::from_str("Title not found"),
            ExtractError::BodyNotFound => String::from_str(
                "Post body not found using any selector",
            ),
            ExtractError::Selector => String::from_str("A selector was not accepted"),
            ExtractError::Pattern => String::from_str("A pattern was not accepted"),
        }
    }

    /// The error as a failure of the run. A page that lacks a field is a
    /// structural failure, whatever the field.
    pub fn into_scrape_error(self) -> (error: ScrapeError)
        ensures
            error.kind == ErrorKind::StructuralExtract,
            error.detail@ == self.description(),
            !error.kind.is_fatal(),
    {
        ScrapeError { kind: ErrorKind::StructuralExtract, detail: self.describe() }
    }
}

/// The number that `title` ends in, as text, if it ends in one.
pub open spec fn id_of_title(title: Seq<char>) -> Option<Seq<char>> {
    match pattern_capture(ID_PATTERN@, title, 1) {
        Some(Some(id)) => Some(id),
        _ => None,
    }
}

/// The number in round brackets that `title` ends in, as text.
pub fn extract_id_from_title(title: &str) -> (id: Option<String>)
    ensures
        id.deep_view() == id_of_title(title@),
{
    match capture(ID_PATTERN, title, 1) {
        Some(Some(id)) => Some(id),
        _ => None,
    }
}

/// The article's title: the page title without the site's name.
pub open spec fn cleaned_title(raw: Seq<char>) -> Seq<char> {
    without(raw, TITLE_PREFIX@)
}

/// Takes the site's name out of a page title.
pub fn clean_title(raw: &str) -> (title: String)
    ensures
        title@ == cleaned_title(raw@),
{
    remove_all(raw, TITLE_PREFIX)
}

/// The text of an element: its text nodes, with one space between neighbours.
pub open spec fn text_of(nodes: Seq<Seq<char>>) -> Seq<char> {
    joined(nodes, " "@)
}

/// The text of each element that `selector` matches on the page `html`, in
/// document order.
pub open spec fn texts_of(html: Seq<char>, selector: Seq<char>) -> Result<
    Seq<Seq<char>>,
    ExtractError,
> {
    match selected_text(html, selector) {
        Some(elements) => Ok(elements.map_values(|nodes: Seq<Seq<char>>| text_of(nodes))),
        None => Err(ExtractError::Selector),
    }
}

/// The first of `texts` that is not empty.
pub open spec fn first_nonempty(texts: Seq<Seq<char>>) -> Option<Seq<char>>
    decreases texts.len(),
{
    if texts.len() == 0 {
        None
    } else if texts[0].len() > 0 {
        Some(texts[0])
    } else {
        first_nonempty(texts.skip(1))
    }
}

/// The first of `texts`, empty or not.
pub open spec fn first_of(texts: Seq<Seq<char>>) -> Option<Seq<char>> {
    if texts.len() > 0 {
        Some(texts[0])
    } else {
        None
    }
}

/// A picture of the article: neither an animation nor the platform's logo.
pub open spec fn is_picture(source: Seq<char>) -> bool {
    !occurs_in(source, ".gif"@) && !occurs_in(source, "blogger_logo_round"@)
}

/// A picture's address with a scheme: one that begins with `//` gets `http:`.
pub open spec fn picture_address(source: Seq<char>) -> Seq<char> {
    if occurs_at(source, 0, "//"@) {
        "http:"@ + source
    } else {
        source
    }
}

/// The addresses of the pictures among `sources`, each once, in the order
/// of first appearance.
pub open spec fn pictures(sources: Seq<Option<Seq<char>>>) -> Seq<Seq<char>>
    decreases sources.len(),
{
    if sources.len() == 0 {
        Seq::empty()
    } else {
        let before = pictures(sources.drop_last());
        match sources.last() {
            Some(source) => if is_picture(source) {
                with_member(before, picture_address(source))
            } else {
                before
            },
            None => before,
        }
    }
}

/// The pictures in the first frame; none where the page has no frame.
pub open spec fn framed_pictures(frames: Seq<Seq<Option<Seq<char>>>>) -> Seq<Seq<char>> {
    if frames.len() > 0 {
        pictures(frames[0])
    } else {
        Seq::empty()
    }
}

/// The text of each element that `selector` matches on the page `html`, in
/// document order. Fails with [`ExtractError::Selector`] if `selector` is
/// not accepted.
pub fn element_texts(html: &str, selector: &str) -> (r: Result<Vec<String>, ExtractError>)
    ensures
        match r {
            Ok(texts) => texts_of(html@, selector@) == Ok::<Seq<Seq<char>>, ExtractError>(
                texts.deep_view(),
            ),
            Err(e) => texts_of(html@, selector@) == Err::<Seq<Seq<char>>, ExtractError>(e),
        },
{
    let elements = match select_text(html, selector) {
        Some(elements) => elements,
        None => {
            return Err(ExtractError::Selector);
        },
    };
    let mut texts: Vec<String> = Vec::new();
    let mut i: usize = 0;
    while i < elements.len()
        invariant
            i <= elements.len(),
            texts.len() == i,
            forall|j: int| 0 <= j < i ==> (#[trigger] texts[j])@ == text_of(elements[j].deep_view()),
        decreases elements.len() - i,
    {
        texts.push(join(&elements[i], " "));
        i += 1;
    }
    assert(texts.deep_view() =~= elements.deep_view().map_values(
        |nodes: Seq<Seq<char>>| text_of(nodes),
    ));
    Ok(texts)
}

/// The first of `texts` that is not empty.
pub fn first_text(texts: &Vec<String>) -> (text: Option<String>)
    ensures
        text.deep_view() == first_nonempty(texts.deep_view()),
        text matches Some(t) ==> t@.len() > 0,
{
    let ghost all = texts.deep_view();
    let mut i: usize = 0;
    assert(all.skip(0) =~= all);
    while i < texts.len()
        invariant
            i <= texts.len(),
            all == texts.deep_view(),
            first_nonempty(all.skip(i as int)) == first_nonempty(all),
        decreases texts.len() - i,
    {
        proof {
            assert(all.skip(i as int)[0] == texts[i as int]@);
            assert(all.skip(i as int).skip(1) =~= all.skip(i + 1));
        }
        if !texts[i].as_str().is_empty() {
            return Some(copy_string(&texts[i]));
        }
        i += 1;
    }
    None
}

/// The addresses of the pictures among `sources`.
pub fn picture_addresses(sources: &Vec<Option<String>>) -> (found: Vec<String>)
    ensures
        found.deep_view() == pictures(sources.deep_view()),
        found.deep_view().no_duplicates(),
{
    let ghost all = sources.deep_view();
    let mut found = TextSet::new();
    let mut i: usize = 0;
    assert(all.take(0) =~= Seq::<Option<Seq<char>>>::empty());
    while i < sources.len()
        invariant
            i <= sources.len(),
            all == sources.deep_view(),
            found@ == pictures(all.take(i as int)),
        decreases sources.len() - i,
    {
        proof {
            assert(all.take(i + 1).drop_last() =~= all.take(i as int));
            assert(all.take(i + 1).last() == sources[i as int].deep_view());
        }
        match &sources[i] {
            Some(source) => {
                let source = source.as_str();
                if !contains(source, ".gif") && !contains(source, "blogger_logo_round") {
                    if starts_with(source, "//") {
                        found.insert(String::from_str("http:").concat(source));
                    } else {
                        found.insert(String::from_str(source));
                    }
                }
            },
            None => {},
        }
        i += 1;
    }
    assert(all.take(i as int) =~= all);
    found.into_list()
}

/// The record that a page's parts make up. `titles` holds the inner HTML of
/// the title elements, `id` the number found in the cleaned title, `dates` and
/// `bodies` the texts of the date labels and of the article bodies, `frames`
/// the picture sources in each article frame.
pub open spec fn assembled(
    titles: Seq<Seq<char>>,
    id: Option<Seq<char>>,
    dates: Seq<Seq<char>>,
    bodies: Seq<Seq<char>>,
    frames: Seq<Seq<Option<Seq<char>>>>,
    url: Seq<char>,
) -> Result<PostView, ExtractError> {
    if titles.len() == 0 {
        Err(ExtractError::TitleNotFound)
    } else {
        match first_nonempty(bodies) {
            None => Err(ExtractError::BodyNotFound),
            Some(content) => Ok(
                PostView {
                    id,
                    title: cleaned_title(titles[0]),
                    content,
                    url,
                    date: first_of(dates),
                    images: framed_pictures(frames),
                },
            ),
        }
    }
}

/// What [`process_post`] makes of the page `html` read from `url`.
pub open spec fn extracted(html: Seq<char>, url: Seq<char>) -> Result<PostView, ExtractError> {
    match (
        selected_inner_html(html, TITLE_SELECTOR@),
        texts_of(html, DATE_SELECTOR@),
        texts_of(html, BODY_SELECTOR@),
    ) {
        (Some(titles), Ok(dates), Ok(bodies)) => {
            if titles.len() == 0 {
                Err(ExtractError::TitleNotFound)
            } else {
                match pattern_capture(ID_PATTERN@, cleaned_title(titles[0]), 1) {
                    None => Err(ExtractError::Pattern),
                    Some(_) => {
                        if first_nonempty(bodies) is None {
                            Err(ExtractError::BodyNotFound)
                        } else {
                            match nested_attr(
                                html,
                                FRAME_SELECTOR@,
                                IMAGE_SELECTOR@,
                                IMAGE_ATTRIBUTE@,
                            ) {
                                None => Err(ExtractError::Selector),
                                Some(frames) => assembled(
                                    titles,
                                    id_of_title(cleaned_title(titles[0])),
                                    dates,
                                    bodies,
                                    frames,
                                    url,
                                ),
                            }
                        }
                    },
                }
            }
        },
        _ => Err(ExtractError::Selector),
    }
}

/// Puts a record together from the parts of a page. Fails where the page has
/// no title element, or no article body with text in it; the title comes
/// first.
pub fn assemble_post(
    titles: &Vec<String>,
    id: Option<String>,
    dates: &Vec<String>,
    bodies: &Vec<String>,
    frames: &Vec<Vec<Option<String>>>,
    url: &str,
) -> (r: Result<Post, ExtractError>)
    ensures
        match r {
            Ok(post) => assembled(
                titles.deep_view(),
                id.deep_view(),
                dates.deep_view(),
                bodies.deep_view(),
                frames.deep_view(),
                url@,
            ) == Ok::<PostView, ExtractError>(post@) && post@.wf(),
            Err(e) => assembled(
                titles.deep_view(),
                id.deep_view(),
                dates.deep_view(),
                bodies.deep_view(),
                frames.deep_view(),
                url@,
            ) == Err::<PostView, ExtractError>(e),
        },
{
    if titles.len() == 0 {
        return Err(ExtractError::TitleNotFound);
    }
    let title = clean_title(titles[0].as_str());
    let content = match first_text(bodies) {
        Some(content) => content,
        None => {
            return Err(ExtractError::BodyNotFound);
        },
    };
    let date = if dates.len() > 0 {
        Some(copy_string(&dates[0]))
    } else {
        None
    };
    let images = if frames.len() > 0 {
        picture_addresses(&frames[0])
    } else {
        Vec::new()
    };
    proof {
        if frames.len() == 0 {
            assert(images.deep_view() =~= Seq::<Seq<char>>::empty());
        }
        assert(titles.deep_view()[0] == titles[0]@);
    }
    Ok(Post { id, title, content, url: String::from_str(url), date, images })
}

/// Reads the record of an article out of its page `html`, fetched from
/// `url`. The page must have a title element and an article body with text.
pub fn process_post(html: &str, url: &str) -> (r: Result<Post, ExtractError>)
    ensures
        match r {
            Ok(post) => extracted(html@, url@) == Ok::<PostView, ExtractError>(post@) && post@.wf(),
            Err(e) => extracted(html@, url@) == Err::<PostView, ExtractError>(e),
        },
{
    let titles = match select_inner_html(html, TITLE_SELECTOR) {
        Some(titles) => titles,
        None => {
            return Err(ExtractError::Selector);
        },
    };
    let dates = match element_texts(html, DATE_SELECTOR) {
        Ok(dates) => dates,
        Err(e) => {
            return Err(e);
        },
    };
    let bodies = match element_texts(html, BODY_SELECTOR) {
        Ok(bodies) => bodies,
        Err(e) => {
            return Err(e);
        },
    };
    if titles.len() == 0 {
        return Err(ExtractError::TitleNotFound);
    }
    let title = clean_title(titles[0].as_str());
    let id = match capture(ID_PATTERN, title.as_str(), 1) {
        Some(id) => id,
        None => {
            return Err(ExtractError::Pattern);
        },
    };
    if first_text(&bodies).is_none() {
        return Err(ExtractError::BodyNotFound);
    }
    let frames = match select_nested_attr(html, FRAME_SELECTOR, IMAGE_SELECTOR, IMAGE_ATTRIBUTE) {
        Some(frames) => frames,
        None => {
            return Err(ExtractError::Selector);
        },
    };
    assemble_post(&titles, id, &dates, &bodies, &frames, url)
}

} // verus!
