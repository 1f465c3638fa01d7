//! The harvested record and the error kinds of a run.

use vstd::prelude::*;
use crate::text::{copy_optional, copy_strings};

verus! {

/// One harvested article.
#[derive(Debug)]
pub struct Post {
    /// The number in the title's suffix, as text; absent when the title has none.
    pub id: Option<String>,
    pub title: String,
    pub content: String,
    /// The address the article was read from.
    pub url: String,
    /// The date label of the page, as found.
    pub date: Option<String>,
    /// Addresses of the article's pictures, each at most once.
    pub images: Vec<String>,
}

/// What a [`Post`] holds, as mathematical text.
pub struct PostView {
    pub id: Option<Seq<char>>,
    pub title: Seq<char>,
    pub content: Seq<char>,
    pub url: Seq<char>,
    pub date: Option<Seq<char>>,
    pub images: Seq<Seq<char>>,
}

impl View for Post {
    type V = PostView;

    open spec fn view(&self) -> PostView {
        PostView {
            id: self.id.deep_view(),
            title: self.title@,
            content: self.content@,
            url: self.url@,
            date: self.date.deep_view(),
            images: self.images.deep_view(),
        }
    }
}

impl PostView {
    /// The pictures as a set: their order carries no meaning.
    pub open spec fn image_set(self) -> Set<Seq<char>> {
        self.images.to_set()
    }

    /// A record as extraction produces it: some content, and no picture twice.
    pub open spec fn wf(self) -> bool {
        &&& self.content.len() > 0
        &&& self.images.no_duplicates()
    }
}

/// The views of a list of records, in order.
pub open spec fn views(posts: Seq<Post>) -> Seq<PostView> {
    posts.map_values(|p: Post| p@)
}

/// The views of a list of borrowed records, in order.
pub open spec fn ref_views(posts: Seq<&Post>) -> Seq<PostView> {
    posts.map_values(|p: &Post| p@)
}

impl Clone for Post {
    fn clone(&self) -> (r: Post)
        ensures
            r@ == self@,
    {
        Post {
            id: copy_optional(&self.id),
            title: self.title.clone(),
            content: self.content.clone(),
            url: self.url.clone(),
            date: copy_optional(&self.date),
            images: copy_strings(&self.images),
        }
    }
}

/// Why a step of the run failed.
#[derive(Debug, Clone, Copy, PartialEq, Eq, Structural)]
pub enum ErrorKind {
    /// The network did not deliver an article's page; worth another attempt.
    TransientFetch,
    /// A page lacks a field that every article has.
    StructuralExtract,
    /// The destination is held by another run.
    Lock,
    /// The archive could not be written out as text.
    Serialization,
    /// A pagination page could not be fetched; discovery cannot go on.
    PaginationFetch,
}

impl ErrorKind {
    /// Whether the whole run stops on an error of this kind. Failures on a
    /// single article never stop it.
    pub open spec fn spec_is_fatal(self) -> bool {
        self is Lock || self is Serialization || self is PaginationFetch
    }

    #[verifier::when_used_as_spec(spec_is_fatal)]
    pub fn is_fatal(self) -> (r: bool)
        ensures
            r == self.spec_is_fatal(),
    {
        match self {
            ErrorKind::TransientFetch => false,
            ErrorKind::StructuralExtract => false,
            ErrorKind::Lock => true,
            ErrorKind::Serialization => true,
            ErrorKind::PaginationFetch => true,
        }
    }
}

/// A failure with its kind and a description for the log.
#[derive(Debug)]
pub struct ScrapeError {
    pub kind: ErrorKind,
    pub detail: String,
}

} // verus!
