//! Plain models of a parsed feed and its entries.
//!
//! The fetching program parses the wire formats and hands the library these
//! owned values; the library's filters, hashes and templates work on them.
//! Text bodies carry an `is_html` flag in place of a full media type, and
//! timestamps are UTC unix seconds.

use vstd::prelude::*;

verus! {

/// A text field of a feed or an entry.
#[derive(Debug, Clone)]
pub struct FeedText {
    pub is_html: bool,
    pub src: Option<String>,
    pub content: String,
}

/// The content block of an entry.
#[derive(Debug, Clone)]
pub struct FeedContent {
    pub is_html: bool,
    pub src: Option<String>,
    pub body: Option<String>,
}

/// One feed entry.
#[derive(Debug, Clone)]
pub struct FeedItem {
    pub id: String,
    pub title: Option<FeedText>,
    pub summary: Option<FeedText>,
    pub content: Option<FeedContent>,
    pub rights: Option<FeedText>,
    pub links: Vec<String>,
    pub updated: Option<i64>,
    pub published: Option<i64>,
}

/// One parsed feed document.
#[derive(Debug, Clone)]
pub struct FeedDoc {
    pub id: String,
    pub title: Option<FeedText>,
    pub description: Option<FeedText>,
    pub rights: Option<FeedText>,
    pub links: Vec<String>,
    pub entries: Vec<FeedItem>,
}

impl FeedItem {
    /// The timestamp the modification sort goes by: `updated`, falling back
    /// to `published`.
    pub open spec fn spec_modified(self) -> Option<i64> {
        if self.updated is Some {
            self.updated
        } else {
            self.published
        }
    }

    /// The modification timestamp, `updated` falling back to `published`.
    pub fn modified(&self) -> (r: Option<i64>)
        ensures
            r == self.spec_modified(),
    {
        match self.updated {
            Option::Some(t) => Some(t),
            Option::None => self.published,
        }
    }
}

} // verus!
