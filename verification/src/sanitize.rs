//! Sanitizing fetched feed text, and rendering error text for storage.
//!
//! The HTML sanitizer and the ANSI-to-HTML converter are outside code;
//! their results are named and the per-field decisions — which fields are
//! cleaned, against which base URL, as HTML or as plain text — are the
//! library's own and verified.

use vstd::prelude::*;

verus! {

use crate::item::{FeedText, FeedContent, FeedDoc, FeedItem};

/// What the HTML sanitizer returns for the input, with relative URLs
/// rewritten against the base where the base parses as a URL.  A function
/// of base and input alone.
pub uninterp spec fn clean_html_of(base: Seq<char>, input: Seq<char>) -> Seq<char>;

/// What the plain-text cleaner returns: the input escaped for safe HTML
/// embedding.  A function of the input alone.
pub uninterp spec fn clean_text_of(input: Seq<char>) -> Seq<char>;

/// Whether the ANSI-to-HTML converter accepts the text.
pub uninterp spec fn ansi_convertible(s: Seq<char>) -> bool;

/// What the ANSI-to-HTML converter returns for accepted text.  A function
/// of the text alone.
pub uninterp spec fn ansi_html_of(s: Seq<char>) -> Seq<char>;

/// Relies on ammonia::Builder::clean (with add_generic_attributes and
/// url_relative) and on Url::parse: sanitizes HTML, keeping `style`
/// attributes, rewriting relative URLs against the base where it parses as
/// a URL and passing them through otherwise.  A fresh builder is set up on
/// each call, so the result depends on base and input alone.
#[verifier::external_body]
pub fn clean_html(base: &str, input: &str) -> (r: String)
    ensures
        r@ == clean_html_of(base@, input@),
{
    let mut builder = ammonia::Builder::new();
    builder.add_generic_attributes(["style"]);
    let policy = match ammonia::Url::parse(base) {
        Ok(url) => ammonia::UrlRelative::RewriteWithBase(url),
        Err(_) => ammonia::UrlRelative::PassThrough,
    };
    builder.url_relative(policy);
    builder.clean(input).to_string()
}

/// Relies on ammonia::clean_text: escapes text so it is safe to embed in
/// HTML.
#[verifier::external_body]
pub fn clean_text(input: &str) -> (r: String)
    ensures
        r@ == clean_text_of(input@),
{
    ammonia::clean_text(input)
}

/// Relies on ansi_to_html::convert: turns ANSI escape sequences into HTML,
/// succeeding exactly when the converter accepts the text.
#[verifier::external_body]
pub fn ansi_convert(s: &str) -> (r: Result<String, String>)
    ensures
        r is Ok <==> ansi_convertible(s@),
        (r matches Ok(h) ==> h@ == ansi_html_of(s@)),
{
    ansi_to_html::convert(s).map_err(|e| e.to_string())
}

/// The error text as it is persisted: converted ANSI where the converter
/// accepts it, HTML-escaped otherwise.
pub open spec fn error_html_of(s: Seq<char>) -> Seq<char> {
    if ansi_convertible(s) {
        ansi_html_of(s)
    } else {
        clean_text_of(s)
    }
}

/// Render error text for the failure table.
pub fn render_error_html(s: &str) -> (r: String)
    ensures
        r@ == error_html_of(s@),
{
    match ansi_convert(s) {
        Ok(h) => h,
        Err(_) => clean_text(s),
    }
}

/// The content a text field carries after sanitizing: HTML fields are
/// cleaned against their own source URL, falling back to the base; plain
/// fields are escaped only where asked.
pub open spec fn sanitized_text_content(t: FeedText, base: Seq<char>, plain: bool) -> Seq<char> {
    if t.is_html {
        match t.src {
            Option::Some(s) => clean_html_of(s@, t.content@),
            Option::None => clean_html_of(base, t.content@),
        }
    } else if plain {
        clean_text_of(t.content@)
    } else {
        t.content@
    }
}

/// Whether `out` is `orig` with its content sanitized.
pub open spec fn text_sanitized(
    orig: Option<FeedText>,
    out: Option<FeedText>,
    base: Seq<char>,
    plain: bool,
) -> bool {
    match orig {
        Option::None => out is None,
        Option::Some(t) => (out matches Some(t2) && t2.is_html == t.is_html && t2.src == t.src
            && t2.content@ == sanitized_text_content(t, base, plain)),
    }
}

/// The body a content block carries after sanitizing: HTML bodies are
/// cleaned against the block's source URL, falling back to the base; plain
/// bodies are escaped.
pub open spec fn sanitized_body(c: FeedContent, base: Seq<char>, body: Seq<char>) -> Seq<char> {
    if c.is_html {
        match c.src {
            Option::Some(s) => clean_html_of(s@, body),
            Option::None => clean_html_of(base, body),
        }
    } else {
        clean_text_of(body)
    }
}

/// Whether `out` is `orig` with its body sanitized.
pub open spec fn content_sanitized(
    orig: Option<FeedContent>,
    out: Option<FeedContent>,
    base: Seq<char>,
) -> bool {
    match orig {
        Option::None => out is None,
        Option::Some(c) => (out matches Some(c2) && c2.is_html == c.is_html && c2.src == c.src
            && (match c.body {
                Option::None => c2.body is None,
                Option::Some(b) => (c2.body matches Some(b2) && b2@ == sanitized_body(
                    c,
                    base,
                    b@,
                )),
            })),
    }
}

/// Sanitize one optional text field.
pub fn sanitize_text(text: Option<FeedText>, base: &str, plain: bool) -> (r: Option<FeedText>)
    ensures
        text_sanitized(text, r, base@, plain),
{
    match text {
        Option::None => None,
        Option::Some(t) => {
            if t.is_html {
                let cleaned = match &t.src {
                    Option::Some(s) => clean_html(s.as_str(), t.content.as_str()),
                    Option::None => clean_html(base, t.content.as_str()),
                };
                Some(FeedText { is_html: t.is_html, src: t.src, content: cleaned })
            } else if plain {
                let cleaned = clean_text(t.content.as_str());
                Some(FeedText { is_html: t.is_html, src: t.src, content: cleaned })
            } else {
                Some(t)
            }
        },
    }
}

/// Sanitize one optional content block.
pub fn sanitize_content(content: Option<FeedContent>, base: &str) -> (r: Option<FeedContent>)
    ensures
        content_sanitized(content, r, base@),
{
    match content {
        Option::None => None,
        Option::Some(c) => {
            match c.body {
                Option::None => Some(c),
                Option::Some(b) => {
                    let cleaned = if c.is_html {
                        match &c.src {
                            Option::Some(s) => clean_html(s.as_str(), b.as_str()),
                            Option::None => clean_html(base, b.as_str()),
                        }
                    } else {
                        clean_text(b.as_str())
                    };
                    Some(FeedContent { is_html: c.is_html, src: c.src, body: Some(cleaned) })
                },
            }
        },
    }
}

/// The base URL a record's relative links resolve against: its first link,
/// falling back to its id.
pub open spec fn base_of(links: Seq<String>, id: Seq<char>) -> Seq<char> {
    if links.len() > 0 {
        links[0]@
    } else {
        id
    }
}

fn base_string(links: &Vec<String>, id: &String) -> (r: String)
    ensures
        r@ == base_of(links@, id@),
{
    if links.len() > 0 {
        links[0].clone()
    } else {
        id.clone()
    }
}

/// Whether `out` is `orig` with every text field sanitized.
pub open spec fn item_sanitized(orig: FeedItem, out: FeedItem) -> bool {
    let base = base_of(orig.links@, orig.id@);
    &&& out.id == orig.id
    &&& out.links@ == orig.links@
    &&& out.updated == orig.updated
    &&& out.published == orig.published
    &&& text_sanitized(orig.title, out.title, base, false)
    &&& content_sanitized(orig.content, out.content, base)
    &&& text_sanitized(orig.summary, out.summary, base, true)
    &&& text_sanitized(orig.rights, out.rights, base, false)
}

/// Sanitize one entry: the title and rights as markup, the summary also as
/// plain text, and the content body.
pub fn sanitize_item(item: FeedItem) -> (r: FeedItem)
    ensures
        item_sanitized(item, r),
{
    let base = base_string(&item.links, &item.id);
    let title = sanitize_text(item.title, base.as_str(), false);
    let content = sanitize_content(item.content, base.as_str());
    let summary = sanitize_text(item.summary, base.as_str(), true);
    let rights = sanitize_text(item.rights, base.as_str(), false);
    FeedItem {
        id: item.id,
        title,
        summary,
        content,
        rights,
        links: item.links,
        updated: item.updated,
        published: item.published,
    }
}

/// Whether `out` is `orig` with the feed's own fields and every entry
/// sanitized.
pub open spec fn feed_sanitized(orig: FeedDoc, out: FeedDoc) -> bool {
    let base = base_of(orig.links@, orig.id@);
    &&& out.id == orig.id
    &&& out.links@ == orig.links@
    &&& text_sanitized(orig.title, out.title, base, false)
    &&& text_sanitized(orig.description, out.description, base, true)
    &&& text_sanitized(orig.rights, out.rights, base, false)
    &&& out.entries@.len() == orig.entries@.len()
    &&& (forall|i: int|
        0 <= i < orig.entries@.len() ==> item_sanitized(orig.entries@[i], out.entries@[i]))
}

/// Sanitize a fetched feed: its title, description and rights against its
/// own base, and each entry against the entry's base.
pub fn sanitize_feed(feed: FeedDoc) -> (r: FeedDoc)
    ensures
        feed_sanitized(feed, r),
{
    let base = base_string(&feed.links, &feed.id);
    let title = sanitize_text(feed.title, base.as_str(), false);
    let description = sanitize_text(feed.description, base.as_str(), true);
    let rights = sanitize_text(feed.rights, base.as_str(), false);
    let ghost entries0 = feed.entries@;
    let mut src = feed.entries;
    let mut rev: Vec<FeedItem> = Vec::new();
    loop
        invariant
            rev@.len() + src@.len() == entries0.len(),
            src@ == entries0.take(src@.len() as int),
            forall|k: int| 0 <= k < rev@.len() ==> rev@[k] == entries0[entries0.len() - 1 - k],
        ensures
            src@.len() == 0,
        decreases src@.len(),
    {
        match src.pop() {
            Option::None => {
                break;
            },
            Option::Some(e) => {
                rev.push(e);
            },
        }
    }
    let mut entries: Vec<FeedItem> = Vec::new();
    loop
        invariant
            entries@.len() + rev@.len() == entries0.len(),
            forall|k: int| 0 <= k < rev@.len() ==> rev@[k] == entries0[entries0.len() - 1 - k],
            forall|k: int|
                0 <= k < entries@.len() ==> item_sanitized(entries0[k], entries@[k]),
        ensures
            rev@.len() == 0,
        decreases rev@.len(),
    {
        match rev.pop() {
            Option::None => {
                break;
            },
            Option::Some(e) => {
                proof {
                    assert(e == entries0[entries@.len() as int]);
                }
                entries.push(sanitize_item(e));
            },
        }
    }
    FeedDoc { id: feed.id, title, description, rights, links: feed.links, entries }
}

} // verus!
