//! Per-group template environment and renderer.
//!
//! The outside template engine compiles expressions, evaluates them against
//! a per-item context, and renders the four named templates of a group.
//! Template text may call engine functions whose value changes between runs
//! (the clock, for one), so nothing is claimed of rendered text; what is
//! pinned down is which inputs compile, which template names resolve, and
//! the digest shape of the update-key hash.

use vstd::prelude::*;

verus! {

use crate::hashing::{chain_digest, digests_concat, hash_bytes};
use crate::config::{FeedGroup, Settings, TemplateSource};
use crate::filtering::{CompiledFilter, compiled_from, filter_compilable, filter_eval, expr_free};
use crate::item::{FeedDoc, FeedItem, FeedText, FeedContent};
use crate::regexes::{regex_valid, regex_matches, match_str, capture_str, replace_str};

#[verifier::external_type_specification]
#[verifier::external_body]
pub struct ExEnvironment<'a>(minijinja::Environment<'a>);

#[verifier::external_type_specification]
#[verifier::external_body]
pub struct ExValue(minijinja::Value);

#[verifier::external_type_specification]
#[verifier::external_body]
pub struct ExError(minijinja::Error);

/// Whether the template engine accepts the expression source.  Acceptance
/// is syntactic: a function of the source alone.
pub uninterp spec fn expr_valid(src: Seq<char>) -> bool;

/// Whether the template engine accepts the template source.  Acceptance is
/// syntactic: a function of the source alone.
pub uninterp spec fn template_valid(src: Seq<char>) -> bool;

/// Relies on minijinja::Environment::new, minijinja_contrib::add_to_environment,
/// Environment::add_test and Environment::add_filter: a fresh environment
/// with the contrib helpers and this library's regex test (`match` /
/// `matches`) and filters (`capture`, `regex_replace`) registered.  The
/// registered functions are the verified helpers below.
#[verifier::external_body]
fn env_new_with_helpers() -> minijinja::Environment<'static> {
    let mut env = minijinja::Environment::new();
    minijinja_contrib::add_to_environment(&mut env);
    env.add_test("match", test_match_mj);
    env.add_test("matches", test_match_mj);
    env.add_filter("capture", capture_mj);
    env.add_filter("regex_replace", replace_mj);
    env
}

/// Relies on minijinja::Error::new: wraps a compile failure's text for the
/// template engine.
#[verifier::external_body]
fn invalid_regex_error(msg: &String) -> minijinja::Error {
    minijinja::Error::new(
        minijinja::ErrorKind::InvalidOperation,
        format!("invalid regular expression: {msg}"),
    )
}

/// The template test `matches(value, pattern)` (also registered as `match`).
pub fn test_match_mj(value: &str, pattern: &str) -> (r: Result<bool, minijinja::Error>)
    ensures
        (r matches Ok(b) ==> regex_valid(pattern@) && b == regex_matches(pattern@, value@)),
        r is Err ==> !regex_valid(pattern@),
{
    match match_str(value, pattern) {
        Ok(b) => Ok(b),
        Err(e) => Err(invalid_regex_error(&e)),
    }
}

/// The template filter `capture(value, pattern, group)`.
pub fn capture_mj(value: &str, pattern: &str, group: Option<usize>) -> (r: Result<
    minijinja::Value,
    minijinja::Error,
>)
    ensures
        r is Ok <==> regex_valid(pattern@),
{
    match capture_str(value, pattern, group) {
        Ok(c) => Ok(value_from_opt_string(&c)),
        Err(e) => Err(invalid_regex_error(&e)),
    }
}

/// The template filter `regex_replace(value, pattern, replacement)`.
pub fn replace_mj(value: &str, pattern: &str, replacement: &str) -> (r: Result<
    minijinja::Value,
    minijinja::Error,
>)
    ensures
        r is Ok <==> regex_valid(pattern@),
{
    match replace_str(value, pattern, replacement) {
        Ok(s) => Ok(value_from_string(&s)),
        Err(e) => Err(invalid_regex_error(&e)),
    }
}

/// Relies on minijinja::Value::from_serialize on a string.
#[verifier::external_body]
fn value_from_string(s: &String) -> minijinja::Value {
    minijinja::Value::from_serialize(s)
}

/// Relies on minijinja::Value::from on a borrowed string.
#[verifier::external_body]
fn value_from_str(s: &str) -> minijinja::Value {
    minijinja::Value::from(s)
}

/// Relies on minijinja::Value::from on an optional string: an absent value
/// becomes the engine's `none`.
#[verifier::external_body]
fn value_from_opt_string(s: &Option<String>) -> minijinja::Value {
    match s {
        Some(v) => minijinja::Value::from(v.as_str()),
        None => minijinja::Value::from(None::<String>),
    }
}

/// Relies on minijinja::Value::from_serialize on an optional integer.
#[verifier::external_body]
fn value_from_opt_i64(x: &Option<i64>) -> minijinja::Value {
    minijinja::Value::from_serialize(x)
}

/// Relies on minijinja::Value::from_serialize on a string list.
#[verifier::external_body]
fn value_from_strings(items: &Vec<String>) -> minijinja::Value {
    minijinja::Value::from_serialize(items)
}

/// Relies on minijinja::Value::from_serialize on a key-value list collected
/// into an ordered map.
#[verifier::external_body]
fn value_from_entries(entries: &Vec<(String, minijinja::Value)>) -> minijinja::Value {
    let map: std::collections::BTreeMap<String, minijinja::Value> = entries.iter().cloned().collect();
    minijinja::Value::from_serialize(&map)
}

/// Relies on minijinja::Value::from_serialize on a value list.
#[verifier::external_body]
fn value_from_values(items: &Vec<minijinja::Value>) -> minijinja::Value {
    minijinja::Value::from_serialize(items)
}

fn media_type_value(is_html: bool) -> minijinja::Value {
    if is_html {
        value_from_str("text/html")
    } else {
        value_from_str("text/plain")
    }
}

fn text_value(t: &FeedText) -> minijinja::Value {
    let mut entries: Vec<(String, minijinja::Value)> = Vec::new();
    entries.push((String::from_str("content_type"), media_type_value(t.is_html)));
    entries.push((String::from_str("src"), value_from_opt_string(&t.src)));
    entries.push((String::from_str("content"), value_from_string(&t.content)));
    value_from_entries(&entries)
}

fn opt_text_value(t: &Option<FeedText>) -> minijinja::Value {
    match t {
        Option::Some(v) => text_value(v),
        Option::None => value_from_opt_string(&None),
    }
}

fn content_value(c: &FeedContent) -> minijinja::Value {
    let mut entries: Vec<(String, minijinja::Value)> = Vec::new();
    entries.push((String::from_str("content_type"), media_type_value(c.is_html)));
    entries.push((String::from_str("src"), value_from_opt_string(&c.src)));
    entries.push((String::from_str("body"), value_from_opt_string(&c.body)));
    value_from_entries(&entries)
}

fn opt_content_value(c: &Option<FeedContent>) -> minijinja::Value {
    match c {
        Option::Some(v) => content_value(v),
        Option::None => value_from_opt_string(&None),
    }
}

fn item_value(item: &FeedItem) -> minijinja::Value {
    let mut entries: Vec<(String, minijinja::Value)> = Vec::new();
    entries.push((String::from_str("id"), value_from_string(&item.id)));
    entries.push((String::from_str("title"), opt_text_value(&item.title)));
    entries.push((String::from_str("summary"), opt_text_value(&item.summary)));
    entries.push((String::from_str("content"), opt_content_value(&item.content)));
    entries.push((String::from_str("links"), value_from_strings(&item.links)));
    entries.push((String::from_str("updated"), value_from_opt_i64(&item.updated)));
    entries.push((String::from_str("published"), value_from_opt_i64(&item.published)));
    value_from_entries(&entries)
}

fn feed_value(feed: &FeedDoc) -> minijinja::Value {
    let mut items: Vec<minijinja::Value> = Vec::new();
    for i in 0..feed.entries.len() {
        items.push(item_value(&feed.entries[i]));
    }
    let mut entries: Vec<(String, minijinja::Value)> = Vec::new();
    entries.push((String::from_str("id"), value_from_string(&feed.id)));
    entries.push((String::from_str("title"), opt_text_value(&feed.title)));
    entries.push((String::from_str("description"), opt_text_value(&feed.description)));
    entries.push((String::from_str("rights"), opt_text_value(&feed.rights)));
    entries.push((String::from_str("links"), value_from_strings(&feed.links)));
    entries.push((String::from_str("entries"), value_from_values(&items)));
    value_from_entries(&entries)
}

/// The `{feed, item}` context a single item renders against.
pub fn item_context(feed: &FeedDoc, item: &FeedItem) -> minijinja::Value {
    let mut entries: Vec<(String, minijinja::Value)> = Vec::new();
    entries.push((String::from_str("feed"), feed_value(feed)));
    entries.push((String::from_str("item"), item_value(item)));
    value_from_entries(&entries)
}

/// The `{feeds, items}` context a digest renders against.
pub fn digest_context(feeds: &Vec<FeedDoc>, items: &Vec<FeedItem>) -> minijinja::Value {
    let mut feed_vals: Vec<minijinja::Value> = Vec::new();
    for i in 0..feeds.len() {
        feed_vals.push(feed_value(&feeds[i]));
    }
    let mut item_vals: Vec<minijinja::Value> = Vec::new();
    for i in 0..items.len() {
        item_vals.push(item_value(&items[i]));
    }
    let mut entries: Vec<(String, minijinja::Value)> = Vec::new();
    entries.push((String::from_str("feeds"), value_from_values(&feed_vals)));
    entries.push((String::from_str("items"), value_from_values(&item_vals)));
    value_from_entries(&entries)
}

/// Relies on minijinja::Environment::add_global and Value::from_serialize:
/// registers the argument map under `template_args`.
#[verifier::external_body]
fn env_add_template_args(env: &mut minijinja::Environment<'static>, args: &Vec<(String, String)>) {
    let map: std::collections::BTreeMap<String, String> = args.iter().cloned().collect();
    env.add_global("template_args", minijinja::Value::from_serialize(&map));
}

/// Relies on minijinja::Environment::add_template_owned: registers the
/// source under the name; fails exactly when the template has a syntax
/// error, which depends on the source alone.
#[verifier::external_body]
fn env_add_template(
    env: &mut minijinja::Environment<'static>,
    name: &str,
    source: &str,
) -> (r: Result<(), String>)
    ensures
        r is Ok <==> template_valid(source@),
{
    env.add_template_owned(name.to_string(), source.to_string()).map_err(|e| e.to_string())
}

/// Relies on minijinja::Environment::compile_expression: succeeds exactly
/// when the expression parses, which depends on the source alone.
#[verifier::external_body]
pub(crate) fn expr_check(env: &minijinja::Environment<'static>, src: &str) -> (r: Result<
    (),
    String,
>)
    ensures
        r is Ok <==> expr_valid(src@),
{
    env.compile_expression(src).map(|_| ()).map_err(|e| e.to_string())
}

/// Relies on Environment::compile_expression, Expression::eval and
/// Value::is_true: evaluates the expression against the context and reports
/// truthiness.  The value may depend on engine-visible state such as the
/// clock, so only the parse failure is pinned down.
#[verifier::external_body]
pub(crate) fn eval_expr_truthy(
    env: &minijinja::Environment<'static>,
    src: &str,
    ctx: &minijinja::Value,
) -> (r: Result<bool, String>)
    ensures
        !expr_valid(src@) ==> r is Err,
{
    match env.compile_expression(src) {
        Ok(expr) => match expr.eval(ctx) {
            Ok(v) => Ok(v.is_true()),
            Err(e) => Err(e.to_string()),
        },
        Err(e) => Err(e.to_string()),
    }
}

/// Relies on Environment::compile_expression, Expression::eval,
/// Value::as_bytes and Value::to_string: the bytes the engine's view of the
/// value hashes as — its byte representation where it has one, else the
/// bytes of its string rendering.
#[verifier::external_body]
fn eval_expr_bytes(
    env: &minijinja::Environment<'static>,
    src: &str,
    ctx: &minijinja::Value,
) -> (r: Result<Vec<u8>, String>)
    ensures
        !expr_valid(src@) ==> r is Err,
{
    match env.compile_expression(src) {
        Ok(expr) => match expr.eval(ctx) {
            Ok(v) => Ok(
                match v.as_bytes() {
                    Some(b) => b.to_vec(),
                    None => v.to_string().into_bytes(),
                },
            ),
            Err(e) => Err(e.to_string()),
        },
        Err(e) => Err(e.to_string()),
    }
}

/// Relies on Environment::get_template and Template::render: renders the
/// named template against the context.  Rendered text may depend on
/// engine-visible state, so nothing is claimed of it.
#[verifier::external_body]
fn env_render(
    env: &minijinja::Environment<'static>,
    name: &str,
    ctx: &minijinja::Value,
) -> (r: Result<String, String>)
{
    match env.get_template(name) {
        Ok(t) => t.render(ctx).map_err(|e| e.to_string()),
        Err(e) => Err(e.to_string()),
    }
}

/// The four template slots of a group.
pub enum TemplateName {
    ItemSubject,
    DigestSubject,
    ItemBody,
    DigestBody,
}

/// The engine-side name of each template slot.
pub open spec fn template_name_of(n: TemplateName) -> Seq<char> {
    match n {
        TemplateName::ItemSubject => "item-subject.txt"@,
        TemplateName::DigestSubject => "digest-subject.txt"@,
        TemplateName::ItemBody => "item-body.html"@,
        TemplateName::DigestBody => "digest-body.html"@,
    }
}

impl TemplateName {
    /// The engine-side name of this template slot.
    pub fn as_ref(&self) -> (r: &'static str)
        ensures
            r@ == template_name_of(*self),
    {
        match self {
            TemplateName::ItemSubject => "item-subject.txt",
            TemplateName::DigestSubject => "digest-subject.txt",
            TemplateName::ItemBody => "item-body.html",
            TemplateName::DigestBody => "digest-body.html",
        }
    }
}

/// The four template texts after the caller resolved file sources to
/// strings.
pub struct ResolvedTemplates {
    pub item_subject: String,
    pub digest_subject: String,
    pub item_body: String,
    pub digest_body: String,
}

/// Take the four template texts straight from the settings where all four
/// are inline; a file source needs the caller to read it first.
pub fn resolve_inline_templates(s: &Settings) -> (r: Option<ResolvedTemplates>)
    ensures
        r is Some <==> (s.item_subject is Inline && s.digest_subject is Inline && s.item_body
            is Inline && s.digest_body is Inline),
        (r matches Some(t) ==> (s.item_subject matches TemplateSource::Inline(x) && t.item_subject@
            == x@) && (s.digest_subject matches TemplateSource::Inline(x) && t.digest_subject@
            == x@) && (s.item_body matches TemplateSource::Inline(x) && t.item_body@ == x@)
            && (s.digest_body matches TemplateSource::Inline(x) && t.digest_body@ == x@)),
{
    match (&s.item_subject, &s.digest_subject, &s.item_body, &s.digest_body) {
        (
            TemplateSource::Inline(a),
            TemplateSource::Inline(b),
            TemplateSource::Inline(c),
            TemplateSource::Inline(d),
        ) => Some(
            ResolvedTemplates {
                item_subject: a.clone(),
                digest_subject: b.clone(),
                item_body: c.clone(),
                digest_body: d.clone(),
            },
        ),
        _ => None,
    }
}

/// Whether every update-key expression parses.
pub open spec fn all_exprs_valid(keys: Seq<String>) -> bool {
    forall|i: int| 0 <= i < keys.len() ==> expr_valid(keys[i]@)
}

/// Whether a renderer can be built for the group with the given template
/// texts: the four templates parse, the update keys parse, and the filter
/// compiles.
pub open spec fn renderer_buildable(
    feed: FeedGroup,
    templates: ResolvedTemplates,
) -> bool {
    &&& template_valid(templates.item_subject@)
    &&& template_valid(templates.digest_subject@)
    &&& template_valid(templates.item_body@)
    &&& template_valid(templates.digest_body@)
    &&& all_exprs_valid(feed.settings.update_keys@)
    &&& (feed.filter matches Some(f) ==> filter_compilable(f))
}

/// A group's renderer: its template environment, its compiled filter, and
/// its update-key expressions.
pub struct Renderer {
    env: minijinja::Environment<'static>,
    filter: Option<CompiledFilter>,
    update_keys: Vec<String>,
}

impl Renderer {
    /// The compiled filter, if the group has one.
    pub closed spec fn spec_filter(self) -> Option<CompiledFilter> {
        self.filter
    }

    /// The update-key expression sources.
    pub closed spec fn spec_update_keys(self) -> Seq<String> {
        self.update_keys@
    }

    /// Build the group's renderer: register helpers, template arguments and
    /// the four templates, check every update-key expression, and compile
    /// the filter.  Succeeds exactly when all of those are accepted.
    #[verifier::loop_isolation(false)]
    pub fn from_feed(feed: &FeedGroup, templates: &ResolvedTemplates) -> (r: Result<
        Renderer,
        String,
    >)
        ensures
            r is Ok <==> renderer_buildable(*feed, *templates),
            (r matches Ok(ren) ==> {
                &&& ren.spec_update_keys() == feed.settings.update_keys@
                &&& (feed.filter matches Some(f) ==> (ren.spec_filter() matches Some(c)
                    && compiled_from(c, f)))
                &&& (feed.filter is None ==> ren.spec_filter() is None)
            }),
    {
        let mut env = env_new_with_helpers();
        env_add_template_args(&mut env, &feed.settings.template_args);
        match env_add_template(&mut env, "item-subject.txt", templates.item_subject.as_str()) {
            Ok(()) => (),
            Err(e) => {
                return Err(e);
            },
        }
        match env_add_template(&mut env, "digest-subject.txt", templates.digest_subject.as_str()) {
            Ok(()) => (),
            Err(e) => {
                return Err(e);
            },
        }
        match env_add_template(&mut env, "item-body.html", templates.item_body.as_str()) {
            Ok(()) => (),
            Err(e) => {
                return Err(e);
            },
        }
        match env_add_template(&mut env, "digest-body.html", templates.digest_body.as_str()) {
            Ok(()) => (),
            Err(e) => {
                return Err(e);
            },
        }
        let keys = &feed.settings.update_keys;
        for i in 0..keys.len()
            invariant
                forall|j: int| 0 <= j < i ==> expr_valid(keys@[j]@),
        {
            match expr_check(&env, keys[i].as_str()) {
                Ok(()) => (),
                Err(e) => {
                    return Err(e);
                },
            }
        }
        let filter = match &feed.filter {
            Option::Some(f) => match CompiledFilter::compile(f, &env) {
                Ok(c) => Some(c),
                Err(e) => {
                    return Err(e);
                },
            },
            Option::None => None,
        };
        Ok(Renderer { env, filter, update_keys: crate::config::clone_strings(keys) })
    }

    /// Render the named template against the context.  The text is the
    /// engine's; nothing is claimed of it.
    pub fn render(&self, name: TemplateName, ctx: &minijinja::Value) -> Result<String, String> {
        env_render(&self.env, name.as_ref(), ctx)
    }

    /// The item's dedup hash: `H(H(v_1) ++ H(v_2) ++ ...)` over the values
    /// of the update-key expressions in order, each value hashed through its
    /// engine byte representation.
    #[verifier::loop_isolation(false)]
    pub fn update_hash(&self, ctx: &minijinja::Value) -> (r: Result<Vec<u8>, String>)
        ensures
            (r matches Ok(h) ==> h@.len() == 32 && exists|vals: Seq<Seq<u8>>|
                vals.len() == self.spec_update_keys().len() && h@ == chain_digest(vals)),
            !all_exprs_valid(self.spec_update_keys()) ==> r is Err,
    {
        let mut buf: Vec<u8> = Vec::new();
        let ghost mut vals: Seq<Seq<u8>> = Seq::empty();
        for i in 0..self.update_keys.len()
            invariant
                vals.len() == i,
                buf@ == digests_concat(vals),
                forall|j: int| 0 <= j < i ==> expr_valid(self.spec_update_keys()[j]@),
        {
            let bytes = match eval_expr_bytes(&self.env, self.update_keys[i].as_str(), ctx) {
                Ok(b) => b,
                Err(e) => {
                    return Err(e);
                },
            };
            proof {
                assert(expr_valid(self.spec_update_keys()[i as int]@));
            }
            let mut h = hash_bytes(bytes.as_slice());
            proof {
                assert(vals.push(bytes@).drop_last() =~= vals);
            }
            buf.append(&mut h);
            proof {
                vals = vals.push(bytes@);
            }
        }
        let h = hash_bytes(buf.as_slice());
        proof {
            assert(vals.len() == self.spec_update_keys().len());
            assert(h@ == chain_digest(vals));
        }
        Ok(h)
    }

    /// Evaluate the group's filter for the item: an absent filter accepts
    /// everything; an expression-free filter decides exactly as
    /// [`filter_eval`] says.
    pub fn filter(&self, ctx: &minijinja::Value, item: &FeedItem) -> (r: Result<bool, String>)
        ensures
            self.spec_filter() is None ==> r == Ok::<bool, String>(true),
            (self.spec_filter() matches Some(f) ==> (expr_free(f) ==> r == Ok::<bool, String>(
                filter_eval(f, *item),
            ))),
    {
        match &self.filter {
            Option::Some(f) => f.evaluate(&self.env, ctx, item),
            Option::None => Ok(true),
        }
    }
}

} // verus!
