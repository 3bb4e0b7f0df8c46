//! In-memory configuration model: per-group settings, the filter tree, and
//! the two identity digests of a feed group.
//!
//! Parsing the configuration file is left to the surrounding program; it
//! hands the library plain values.  This module resolves per-feed overrides
//! against global defaults and computes `urls_hash` (the group's stable
//! identity) and `criteria_hash` (the identity of its matching semantics).

use vstd::prelude::*;

verus! {

use vstd::utf8::encode_utf8;
use crate::hashing::{
    blake3_of, strings_digest, zero_digest, chain_hash_strings, hash_bytes, hash_str, bytes_eq,
    zero_digest_bytes, append_bytes,
};

/// Where a template's text comes from: given inline, or read from a file by
/// the surrounding program.
#[derive(Debug, PartialEq, Eq)]
pub enum TemplateSource {
    Inline(String),
    File(String),
}

/// A user-supplied filter tree over feed items.
#[derive(Debug)]
pub enum Filter {
    And(Vec<Filter>),
    Or(Vec<Filter>),
    Not(Box<Filter>),
    TitleRegex(String),
    BodyRegex(String),
    Regex(String),
    JinjaExpr(String),
}

/// The digest of one filter node: a label for the variant is mixed in before
/// the children or the pattern, so structurally distinct trees digest
/// differently.
pub open spec fn filter_digest(f: Filter) -> Seq<u8>
    decreases f,
{
    match f {
        Filter::And(subs) => blake3_of(encode_utf8("And"@) + subfilter_digests(subs@, 0)),
        Filter::Or(subs) => blake3_of(encode_utf8("Or"@) + subfilter_digests(subs@, 0)),
        Filter::Not(sub) => blake3_of(encode_utf8("Not"@) + filter_digest(*sub)),
        Filter::TitleRegex(p) => blake3_of(
            encode_utf8("TitleRegex"@) + blake3_of(encode_utf8(p@)),
        ),
        Filter::BodyRegex(p) => blake3_of(encode_utf8("BodyRegex"@) + blake3_of(encode_utf8(p@))),
        Filter::Regex(p) => blake3_of(encode_utf8("Regex"@) + blake3_of(encode_utf8(p@))),
        Filter::JinjaExpr(e) => blake3_of(encode_utf8("JinjaExpr"@) + blake3_of(encode_utf8(e@))),
    }
}

/// The concatenated digests of the subfilters from index `i` on.
pub open spec fn subfilter_digests(subs: Seq<Filter>, i: int) -> Seq<u8>
    decreases subs, subs.len() - i,
{
    if i < 0 || i >= subs.len() {
        Seq::empty()
    } else {
        filter_digest(subs[i]) + subfilter_digests(subs, i + 1)
    }
}

/// The digest standing for an optional filter: all zeroes when absent.
pub open spec fn opt_filter_digest(f: Option<Filter>) -> Seq<u8> {
    match f {
        Option::None => zero_digest(),
        Option::Some(g) => filter_digest(g),
    }
}

impl Filter {
    /// Compute the labelled recursive digest of this filter tree.
    pub fn hash(&self) -> (r: Vec<u8>)
        ensures
            r@ == filter_digest(*self),
            r@.len() == 32,
        decreases *self,
    {
        match self {
            Filter::And(subs) => {
                let mut buf: Vec<u8> = Vec::new();
                append_bytes(&mut buf, "And".as_bytes());
                hash_labelled_subs(buf, subs)
            },
            Filter::Or(subs) => {
                let mut buf: Vec<u8> = Vec::new();
                append_bytes(&mut buf, "Or".as_bytes());
                hash_labelled_subs(buf, subs)
            },
            Filter::Not(sub) => {
                let mut buf: Vec<u8> = Vec::new();
                append_bytes(&mut buf, "Not".as_bytes());
                let mut h = sub.hash();
                buf.append(&mut h);
                hash_bytes(buf.as_slice())
            },
            Filter::TitleRegex(p) => hash_labelled_pattern("TitleRegex", p.as_str()),
            Filter::BodyRegex(p) => hash_labelled_pattern("BodyRegex", p.as_str()),
            Filter::Regex(p) => hash_labelled_pattern("Regex", p.as_str()),
            Filter::JinjaExpr(e) => hash_labelled_pattern("JinjaExpr", e.as_str()),
        }
    }
}

/// Append the digest of every subfilter to `buf` and hash the whole buffer.
fn hash_labelled_subs(buf: Vec<u8>, subs: &Vec<Filter>) -> (r: Vec<u8>)
    ensures
        r@ == blake3_of(buf@ + subfilter_digests(subs@, 0)),
        r@.len() == 32,
    decreases subs@,
{
    let mut acc = buf;
    let ghost start: Seq<u8> = acc@;
    for i in 0..subs.len()
        invariant
            acc@ + subfilter_digests(subs@, i as int) == start + subfilter_digests(subs@, 0),
        decreases subs.len() - i,
    {
        let mut h = subs[i].hash();
        acc.append(&mut h);
    }
    hash_bytes(acc.as_slice())
}

/// Hash a leaf node: the label bytes followed by the digest of the pattern.
fn hash_labelled_pattern(label: &str, pattern: &str) -> (r: Vec<u8>)
    ensures
        r@ == blake3_of(encode_utf8(label@) + blake3_of(encode_utf8(pattern@))),
        r@.len() == 32,
{
    let mut buf: Vec<u8> = Vec::new();
    append_bytes(&mut buf, label.as_bytes());
    let mut h = hash_str(pattern);
    buf.append(&mut h);
    hash_bytes(buf.as_slice())
}

/// The resolved per-group settings.  Durations are whole seconds, the HTTP
/// timeout whole milliseconds; all timestamps in the library are UTC unix
/// seconds.
#[derive(Debug)]
pub struct Settings {
    pub to: Vec<String>,
    pub cc: Vec<String>,
    pub bcc: Vec<String>,
    pub digest: bool,
    pub item_subject: TemplateSource,
    pub digest_subject: TemplateSource,
    pub item_body: TemplateSource,
    pub digest_body: TemplateSource,
    pub template_args: Vec<(String, String)>,
    pub update_keys: Vec<String>,
    pub interval_secs: i64,
    pub keep_old_secs: i64,
    pub timeout_ms: u64,
    pub max_mails_per_check: usize,
    pub sanitize: bool,
    pub sort_by_last_modified: bool,
    pub http_headers: Vec<(String, String)>,
}

/// One feed group: identity digests, URL list, optional filter, settings.
#[derive(Debug)]
pub struct FeedGroup {
    pub urls_hash: Vec<u8>,
    pub criteria_hash: Vec<u8>,
    pub urls: Vec<String>,
    pub filter: Option<Filter>,
    pub settings: Settings,
}

/// The group's criteria digest:
/// `H(urls_hash ++ H(H(key_1) ++ ...) ++ filter_digest)`.
pub open spec fn criteria_digest(
    urls: Seq<Seq<char>>,
    keys: Seq<Seq<char>>,
    filter: Option<Filter>,
) -> Seq<u8> {
    blake3_of(strings_digest(urls) + strings_digest(keys) + opt_filter_digest(filter))
}

impl FeedGroup {
    /// The two digests agree with the group's URL list, update keys and
    /// filter, and the URL list is non-empty.
    pub open spec fn well_formed(self) -> bool {
        &&& self.urls_hash@ == strings_digest(self.urls.deep_view())
        &&& self.criteria_hash@ == criteria_digest(
            self.urls.deep_view(),
            self.settings.update_keys.deep_view(),
            self.filter,
        )
        &&& self.urls@.len() > 0
    }
}

/// The built-in defaults used where neither the feed entry nor the global
/// settings give a value.
pub const DEFAULT_ITEM_SUBJECT: &'static str = "{{ item.title.content if item.title else item.id }}";

pub const DEFAULT_DIGEST_SUBJECT: &'static str = "{{ items | length }} new feed items";

pub const DEFAULT_ITEM_BODY: &'static str = "<div>{{ item.content.body if item.content else (item.summary.content if item.summary else '') }}</div>";

pub const DEFAULT_DIGEST_BODY: &'static str = "<ul>{% for item in items %}<li>{{ item.title.content if item.title else item.id }}</li>{% endfor %}</ul>";

pub const DEFAULT_UPDATE_KEY: &'static str = "item.id";

pub const DEFAULT_INTERVAL_SECS: i64 = 3600;

pub const DEFAULT_KEEP_OLD_SECS: i64 = 604800;

pub const DEFAULT_TIMEOUT_MS: u64 = 30000;

pub const DEFAULT_MAX_MAILS_PER_CHECK: usize = 5;

/// Per-feed overrides as they come from the configuration file: every field
/// optional, falling back to the global settings.
#[derive(Debug)]
pub struct OptionalSettings {
    pub to: Option<Vec<String>>,
    pub cc: Option<Vec<String>>,
    pub bcc: Option<Vec<String>>,
    pub digest: Option<bool>,
    pub item_subject: Option<TemplateSource>,
    pub digest_subject: Option<TemplateSource>,
    pub item_body: Option<TemplateSource>,
    pub digest_body: Option<TemplateSource>,
    pub template_args: Option<Vec<(String, String)>>,
    pub update_keys: Option<Vec<String>>,
    pub interval_secs: Option<i64>,
    pub keep_old_secs: Option<i64>,
    pub timeout_ms: Option<u64>,
    pub max_mails_per_check: Option<usize>,
    pub sanitize: Option<bool>,
    pub sort_by_last_modified: Option<bool>,
    pub http_headers: Option<Vec<(String, String)>>,
}

/// One feed entry before resolution: its URL list, its overrides, and its
/// optional filter.
#[derive(Debug)]
pub struct FeedConfig {
    pub urls: Vec<String>,
    pub settings: OptionalSettings,
    pub filter: Option<Filter>,
}

/// Keep the local value where one was given, else the global one.
pub fn pick<T>(local: Option<T>, global: T) -> (r: T)
    ensures
        local matches Some(v) ==> r == v,
        local is None ==> r == global,
{
    match local {
        Option::Some(v) => v,
        Option::None => global,
    }
}

/// Copy a list of strings.
pub fn clone_strings(v: &Vec<String>) -> (r: Vec<String>)
    ensures
        r@ == v@,
{
    let r = v.clone();
    proof {
        assert forall|i: int| 0 <= i < v@.len() implies r@[i] == v@[i] by {
            assert(vstd::pervasive::cloned::<String>(v@[i], r@[i]));
        }
        assert(r@ =~= v@);
    }
    r
}

/// Copy a list of string pairs.
pub fn clone_string_pairs(v: &Vec<(String, String)>) -> (r: Vec<(String, String)>)
    ensures
        r@ == v@,
{
    let mut r: Vec<(String, String)> = Vec::new();
    for i in 0..v.len()
        invariant
            r@ =~= v@.take(i as int),
    {
        let k = v[i].0.clone();
        let val = v[i].1.clone();
        r.push((k, val));
        proof {
            assert(r@ =~= v@.take(i + 1));
        }
    }
    proof {
        assert(v@.take(v@.len() as int) =~= v@);
    }
    r
}

/// Copy a template source.
pub fn clone_template_source(t: &TemplateSource) -> (r: TemplateSource)
    ensures
        r == *t,
{
    match t {
        TemplateSource::Inline(s) => TemplateSource::Inline(s.clone()),
        TemplateSource::File(p) => TemplateSource::File(p.clone()),
    }
}

/// Whether the argument list binds the key.
pub open spec fn args_has_key(args: Seq<(String, String)>, key: Seq<char>) -> bool {
    exists|i: int| 0 <= i < args.len() && args[i].0@ == key
}

fn has_key(args: &Vec<(String, String)>, key: &String) -> (r: bool)
    ensures
        r == args_has_key(args@, key@),
{
    for i in 0..args.len()
        invariant
            forall|j: int| 0 <= j < i ==> args@[j].0@ != key@,
    {
        if args[i].0 == *key {
            return true;
        }
    }
    false
}

/// The entries of `global` from index `i` on whose keys `local` does not bind.
pub open spec fn merged_rest(
    local: Seq<(String, String)>,
    global: Seq<(String, String)>,
    i: int,
) -> Seq<(String, String)>
    decreases global.len() - i,
{
    if i < 0 || i >= global.len() {
        Seq::empty()
    } else if args_has_key(local, global[i].0@) {
        merged_rest(local, global, i + 1)
    } else {
        seq![global[i]] + merged_rest(local, global, i + 1)
    }
}

/// Per-feed template arguments merged over the global ones: the local
/// binding wins on a shared key.
pub open spec fn merged_args(
    local: Seq<(String, String)>,
    global: Seq<(String, String)>,
) -> Seq<(String, String)> {
    local + merged_rest(local, global, 0)
}

/// Merge per-feed template arguments over the global ones.
pub fn merge_template_args(
    local: Vec<(String, String)>,
    global: &Vec<(String, String)>,
) -> (r: Vec<(String, String)>)
    ensures
        r@ == merged_args(local@, global@),
{
    let mut extra: Vec<(String, String)> = Vec::new();
    for i in 0..global.len()
        invariant
            extra@ + merged_rest(local@, global@, i as int) == merged_rest(local@, global@, 0),
    {
        if !has_key(&local, &global[i].0) {
            let k = global[i].0.clone();
            let v = global[i].1.clone();
            extra.push((k, v));
            proof {
                assert(extra@.drop_last() + (seq![global@[i as int]] + merged_rest(
                    local@,
                    global@,
                    i + 1,
                )) =~= extra@ + merged_rest(local@, global@, i + 1));
            }
        }
    }
    let mut r = local;
    let mut extra = extra;
    r.append(&mut extra);
    r
}

impl OptionalSettings {
    /// Fill every absent field with the built-in default.
    pub fn with_default(self) -> (r: Settings)
        ensures
            (self.to matches Some(v) ==> r.to@ == v@),
            self.to is None ==> r.to@ == Seq::<String>::empty(),
            (self.cc matches Some(v) ==> r.cc@ == v@),
            self.cc is None ==> r.cc@ == Seq::<String>::empty(),
            (self.bcc matches Some(v) ==> r.bcc@ == v@),
            self.bcc is None ==> r.bcc@ == Seq::<String>::empty(),
            (self.digest matches Some(d) ==> r.digest == d),
            self.digest is None ==> r.digest == false,
            (self.item_subject matches Some(t) ==> r.item_subject == t),
            self.item_subject is None ==> (r.item_subject matches TemplateSource::Inline(s)
                && s@ == DEFAULT_ITEM_SUBJECT@),
            (self.digest_subject matches Some(t) ==> r.digest_subject == t),
            self.digest_subject is None ==> (r.digest_subject matches TemplateSource::Inline(s)
                && s@ == DEFAULT_DIGEST_SUBJECT@),
            (self.item_body matches Some(t) ==> r.item_body == t),
            self.item_body is None ==> (r.item_body matches TemplateSource::Inline(s) && s@
                == DEFAULT_ITEM_BODY@),
            (self.digest_body matches Some(t) ==> r.digest_body == t),
            self.digest_body is None ==> (r.digest_body matches TemplateSource::Inline(s) && s@
                == DEFAULT_DIGEST_BODY@),
            (self.template_args matches Some(v) ==> r.template_args@ == v@),
            self.template_args is None ==> r.template_args@ == Seq::<(String, String)>::empty(),
            (self.update_keys matches Some(v) ==> r.update_keys@ == v@),
            self.update_keys is None ==> r.update_keys@.len() == 1 && r.update_keys@[0]@
                == DEFAULT_UPDATE_KEY@,
            r.interval_secs == self.interval_secs.unwrap_or(DEFAULT_INTERVAL_SECS),
            r.keep_old_secs == self.keep_old_secs.unwrap_or(DEFAULT_KEEP_OLD_SECS),
            r.timeout_ms == self.timeout_ms.unwrap_or(DEFAULT_TIMEOUT_MS),
            r.max_mails_per_check == self.max_mails_per_check.unwrap_or(
                DEFAULT_MAX_MAILS_PER_CHECK,
            ),
            r.sanitize == self.sanitize.unwrap_or(true),
            r.sort_by_last_modified == self.sort_by_last_modified.unwrap_or(false),
            (self.http_headers matches Some(v) ==> r.http_headers@ == v@),
            self.http_headers is None ==> r.http_headers@ == Seq::<(String, String)>::empty(),
    {
        Settings {
            to: unwrap_or_empty_strings(self.to),
            cc: unwrap_or_empty_strings(self.cc),
            bcc: unwrap_or_empty_strings(self.bcc),
            digest: self.digest.unwrap_or(false),
            item_subject: unwrap_or_inline(self.item_subject, DEFAULT_ITEM_SUBJECT),
            digest_subject: unwrap_or_inline(self.digest_subject, DEFAULT_DIGEST_SUBJECT),
            item_body: unwrap_or_inline(self.item_body, DEFAULT_ITEM_BODY),
            digest_body: unwrap_or_inline(self.digest_body, DEFAULT_DIGEST_BODY),
            template_args: unwrap_or_empty_pairs(self.template_args),
            update_keys: default_update_keys(self.update_keys),
            interval_secs: self.interval_secs.unwrap_or(DEFAULT_INTERVAL_SECS),
            keep_old_secs: self.keep_old_secs.unwrap_or(DEFAULT_KEEP_OLD_SECS),
            timeout_ms: self.timeout_ms.unwrap_or(DEFAULT_TIMEOUT_MS),
            max_mails_per_check: self.max_mails_per_check.unwrap_or(DEFAULT_MAX_MAILS_PER_CHECK),
            sanitize: self.sanitize.unwrap_or(true),
            sort_by_last_modified: self.sort_by_last_modified.unwrap_or(false),
            http_headers: unwrap_or_empty_pairs(self.http_headers),
        }
    }
}

fn unwrap_or_empty_strings(v: Option<Vec<String>>) -> (r: Vec<String>)
    ensures
        (v matches Some(w) ==> r@ == w@),
        v is None ==> r@ == Seq::<String>::empty(),
{
    match v {
        Option::Some(w) => w,
        Option::None => Vec::new(),
    }
}

fn unwrap_or_empty_pairs(v: Option<Vec<(String, String)>>) -> (r: Vec<(String, String)>)
    ensures
        (v matches Some(w) ==> r@ == w@),
        v is None ==> r@ == Seq::<(String, String)>::empty(),
{
    match v {
        Option::Some(w) => w,
        Option::None => Vec::new(),
    }
}

fn unwrap_or_inline(t: Option<TemplateSource>, default: &str) -> (r: TemplateSource)
    ensures
        (t matches Some(v) ==> r == v),
        t is None ==> (r matches TemplateSource::Inline(s) && s@ == default@),
{
    match t {
        Option::Some(v) => v,
        Option::None => TemplateSource::Inline(String::from_str(default)),
    }
}

fn default_update_keys(keys: Option<Vec<String>>) -> (r: Vec<String>)
    ensures
        (keys matches Some(v) ==> r@ == v@),
        keys is None ==> r@.len() == 1 && r@[0]@ == DEFAULT_UPDATE_KEY@,
{
    match keys {
        Option::Some(v) => v,
        Option::None => {
            let mut r: Vec<String> = Vec::new();
            r.push(String::from_str(DEFAULT_UPDATE_KEY));
            r
        },
    }
}

impl FeedConfig {
    /// Resolve this entry against the global settings and compute the two
    /// identity digests of the resulting group.
    pub fn resolve(self, global: &Settings) -> (r: FeedGroup)
        requires
            self.urls@.len() > 0,
        ensures
            r.well_formed(),
            r.urls@ == self.urls@,
            r.filter == self.filter,
            (self.settings.to matches Some(v) ==> r.settings.to@ == v@),
            self.settings.to is None ==> r.settings.to@ == global.to@,
            (self.settings.cc matches Some(v) ==> r.settings.cc@ == v@),
            self.settings.cc is None ==> r.settings.cc@ == global.cc@,
            (self.settings.bcc matches Some(v) ==> r.settings.bcc@ == v@),
            self.settings.bcc is None ==> r.settings.bcc@ == global.bcc@,
            (self.settings.digest matches Some(d) ==> r.settings.digest == d),
            self.settings.digest is None ==> r.settings.digest == global.digest,
            (self.settings.item_subject matches Some(t) ==> r.settings.item_subject == t),
            self.settings.item_subject is None ==> r.settings.item_subject == global.item_subject,
            (self.settings.digest_subject matches Some(t) ==> r.settings.digest_subject == t),
            self.settings.digest_subject is None ==> r.settings.digest_subject
                == global.digest_subject,
            (self.settings.item_body matches Some(t) ==> r.settings.item_body == t),
            self.settings.item_body is None ==> r.settings.item_body == global.item_body,
            (self.settings.digest_body matches Some(t) ==> r.settings.digest_body == t),
            self.settings.digest_body is None ==> r.settings.digest_body == global.digest_body,
            (self.settings.template_args matches Some(v) ==> r.settings.template_args@
                == merged_args(v@, global.template_args@)),
            self.settings.template_args is None ==> r.settings.template_args@
                == global.template_args@,
            (self.settings.update_keys matches Some(v) ==> r.settings.update_keys@ == v@),
            self.settings.update_keys is None ==> r.settings.update_keys@ == global.update_keys@,
            r.settings.interval_secs == self.settings.interval_secs.unwrap_or(
                global.interval_secs,
            ),
            r.settings.keep_old_secs == self.settings.keep_old_secs.unwrap_or(
                global.keep_old_secs,
            ),
            r.settings.timeout_ms == self.settings.timeout_ms.unwrap_or(global.timeout_ms),
            r.settings.max_mails_per_check == self.settings.max_mails_per_check.unwrap_or(
                global.max_mails_per_check,
            ),
            r.settings.sanitize == self.settings.sanitize.unwrap_or(global.sanitize),
            r.settings.sort_by_last_modified == self.settings.sort_by_last_modified.unwrap_or(
                global.sort_by_last_modified,
            ),
            (self.settings.http_headers matches Some(v) ==> r.settings.http_headers@ == v@),
            self.settings.http_headers is None ==> r.settings.http_headers@
                == global.http_headers@,
    {
        let to = pick(self.settings.to, clone_strings(&global.to));
        let cc = pick(self.settings.cc, clone_strings(&global.cc));
        let bcc = pick(self.settings.bcc, clone_strings(&global.bcc));
        let digest = self.settings.digest.unwrap_or(global.digest);
        let item_subject = pick(
            self.settings.item_subject,
            clone_template_source(&global.item_subject),
        );
        let digest_subject = pick(
            self.settings.digest_subject,
            clone_template_source(&global.digest_subject),
        );
        let item_body = pick(self.settings.item_body, clone_template_source(&global.item_body));
        let digest_body = pick(
            self.settings.digest_body,
            clone_template_source(&global.digest_body),
        );
        let template_args = match self.settings.template_args {
            Option::Some(args) => merge_template_args(args, &global.template_args),
            Option::None => clone_string_pairs(&global.template_args),
        };
        let update_keys = pick(self.settings.update_keys, clone_strings(&global.update_keys));
        let interval_secs = self.settings.interval_secs.unwrap_or(global.interval_secs);
        let keep_old_secs = self.settings.keep_old_secs.unwrap_or(global.keep_old_secs);
        let timeout_ms = self.settings.timeout_ms.unwrap_or(global.timeout_ms);
        let max_mails_per_check = self.settings.max_mails_per_check.unwrap_or(
            global.max_mails_per_check,
        );
        let sanitize = self.settings.sanitize.unwrap_or(global.sanitize);
        let sort_by_last_modified = self.settings.sort_by_last_modified.unwrap_or(
            global.sort_by_last_modified,
        );
        let http_headers = pick(
            self.settings.http_headers,
            clone_string_pairs(&global.http_headers),
        );

        let urls_hash = chain_hash_strings(&self.urls);
        let keys_hash = chain_hash_strings(&update_keys);
        let filter_hash = match &self.filter {
            Option::Some(f) => f.hash(),
            Option::None => zero_digest_bytes(),
        };
        let mut buf: Vec<u8> = Vec::new();
        append_bytes(&mut buf, urls_hash.as_slice());
        append_bytes(&mut buf, keys_hash.as_slice());
        append_bytes(&mut buf, filter_hash.as_slice());
        let criteria_hash = hash_bytes(buf.as_slice());

        FeedGroup {
            urls_hash,
            criteria_hash,
            urls: self.urls,
            filter: self.filter,
            settings: Settings {
                to,
                cc,
                bcc,
                digest,
                item_subject,
                digest_subject,
                item_body,
                digest_body,
                template_args,
                update_keys,
                interval_secs,
                keep_old_secs,
                timeout_ms,
                max_mails_per_check,
                sanitize,
                sort_by_last_modified,
                http_headers,
            },
        }
    }
}

/// Whether every group in the list carries a distinct `urls_hash`.
pub open spec fn group_hashes_unique(groups: Seq<FeedGroup>) -> bool {
    forall|i: int, j: int|
        0 <= i < j < groups.len() ==> groups[i].urls_hash@ != groups[j].urls_hash@
}

/// Look for two groups sharing a `urls_hash`: a configuration error.
/// Returns the index of the second member of the first clashing pair.
pub fn find_duplicate_group(groups: &Vec<FeedGroup>) -> (r: Option<usize>)
    ensures
        r is None ==> group_hashes_unique(groups@),
        (r matches Some(j) ==> j < groups@.len() && exists|i: int|
            0 <= i < j && groups@[i].urls_hash@ == groups@[j as int].urls_hash@),
{
    for j in 0..groups.len()
        invariant
            forall|a: int, b: int|
                0 <= a < b < j ==> groups@[a].urls_hash@ != groups@[b].urls_hash@,
    {
        for i in 0..j
            invariant
                j < groups@.len(),
                forall|a: int| 0 <= a < i ==> groups@[a].urls_hash@ != groups@[j as int].urls_hash@,
        {
            if bytes_eq(&groups[i].urls_hash, &groups[j].urls_hash) {
                return Some(j);
            }
        }
    }
    None
}

/// Hash stability: the identity digests are functions of the URL list, the
/// update keys and the filter alone.  Two well-formed groups agreeing on
/// those three inputs carry equal `urls_hash` and `criteria_hash`, whatever
/// their other settings.
pub proof fn lemma_hash_stability(a: FeedGroup, b: FeedGroup)
    requires
        a.well_formed(),
        b.well_formed(),
        a.urls.deep_view() == b.urls.deep_view(),
        a.settings.update_keys.deep_view() == b.settings.update_keys.deep_view(),
        a.filter == b.filter,
    ensures
        a.urls_hash@ == b.urls_hash@,
        a.criteria_hash@ == b.criteria_hash@,
{
}

} // verus!
