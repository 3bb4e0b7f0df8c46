use yaf2m::config::{
    merge_template_args, pick, FeedConfig, Filter, OptionalSettings, TemplateSource,
    find_duplicate_group,
};
use yaf2m::failures::{build_failure_report, sort_failures, FailureEntry, FailureTracker};
use yaf2m::hashing::{chain_hash_strings, hash_bytes};
use yaf2m::regexes::{capture_str, match_str, replace_str};
use yaf2m::render::{resolve_inline_templates, Renderer};
use yaf2m::sanitize::{render_error_html, sanitize_feed};
use yaf2m::item::{FeedDoc, FeedItem, FeedText};

fn empty_optional() -> OptionalSettings {
    OptionalSettings {
        to: None,
        cc: None,
        bcc: None,
        digest: None,
        item_subject: None,
        digest_subject: None,
        item_body: None,
        digest_body: None,
        template_args: None,
        update_keys: None,
        interval_secs: None,
        keep_old_secs: None,
        timeout_ms: None,
        max_mails_per_check: None,
        sanitize: None,
        sort_by_last_modified: None,
        http_headers: None,
    }
}

fn resolved(urls: Vec<&str>, filter: Option<Filter>) -> yaf2m::config::FeedGroup {
    let global = empty_optional().with_default();
    FeedConfig {
        urls: urls.into_iter().map(|u| u.to_string()).collect(),
        settings: empty_optional(),
        filter,
    }
    .resolve(&global)
}

fn failure_entry(key: u8, error: &str) -> FailureEntry {
    FailureEntry {
        urls_hash: vec![key; 32],
        urls: vec![format!("https://example.com/{key}")],
        error: error.to_string(),
    }
}

#[test]
fn identical_failing_set_reports_once_at_threshold() {
    let mut tracker = FailureTracker::new();
    tracker.set_report_to(vec!["admin@example.com".to_string()]);

    let mut sends = Vec::new();
    for _ in 0..8 {
        let (sorted, send) = tracker.record(vec![failure_entry(1, "boom")]);
        assert_eq!(sorted.len(), 1);
        if send {
            tracker.report_sent();
        }
        sends.push(send);
    }
    assert_eq!(sends, vec![false, false, false, false, false, true, false, false]);
}

#[test]
fn changed_failing_set_restarts_countdown() {
    let mut tracker = FailureTracker::new();
    for _ in 0..4 {
        let (_, send) = tracker.record(vec![failure_entry(1, "boom")]);
        assert!(!send);
    }
    for _ in 0..5 {
        let (_, send) = tracker.record(vec![failure_entry(1, "boom"), failure_entry(2, "bang")]);
        assert!(!send);
    }
    let (_, send) = tracker.record(vec![failure_entry(1, "boom"), failure_entry(2, "bang")]);
    assert!(send);
}

#[test]
fn error_churn_within_unchanged_set_does_not_restart() {
    let mut tracker = FailureTracker::new();
    let mut sends = Vec::new();
    for cycle in 0..6 {
        let (_, send) = tracker.record(vec![failure_entry(1, &format!("error {cycle}"))]);
        sends.push(send);
    }
    assert_eq!(sends, vec![false, false, false, false, false, true]);
}

#[test]
fn recovery_after_failures_reports_all_clear() {
    let mut tracker = FailureTracker::new();
    for _ in 0..6 {
        let (_, send) = tracker.record(vec![failure_entry(1, "boom")]);
        if send {
            tracker.report_sent();
        }
    }
    let mut sends = Vec::new();
    for _ in 0..6 {
        let (sorted, send) = tracker.record(Vec::new());
        assert!(sorted.is_empty());
        sends.push(send);
    }
    assert_eq!(sends, vec![false, false, false, false, false, true]);

    let mail = build_failure_report(&Vec::new(), "2001-01-01T00:00:00Z");
    assert_eq!(mail.subject, "\u{2705} All feeds are working");
    assert_eq!(mail.body, "All feeds are back to normal now (2001-01-01T00:00:00Z).");
}

#[test]
fn failure_report_lists_urls_and_errors() {
    let failures = vec![failure_entry(1, "first error"), failure_entry(2, "second error")];
    let mail = build_failure_report(&failures, "now");
    assert_eq!(mail.subject, "\u{1f534} Error processing feeds");
    assert!(mail.body.contains("https://example.com/1"));
    assert!(mail.body.contains("first error"));
    assert!(mail.body.contains("https://example.com/2"));
    assert!(mail.body.contains("second error"));
    assert!(mail.body.starts_with("<div>Failing feeds (now):<ul><li>"));
}

#[test]
fn failing_set_is_sorted_by_group_key() {
    let sorted = sort_failures(vec![
        failure_entry(9, "c"),
        failure_entry(1, "a"),
        failure_entry(5, "b"),
    ]);
    let keys: Vec<u8> = sorted.iter().map(|e| e.urls_hash[0]).collect();
    assert_eq!(keys, vec![1, 5, 9]);
}

#[test]
fn group_hashes_are_stable_across_unrelated_settings() {
    let a = resolved(vec!["https://example.com/rss"], None);
    let global = empty_optional().with_default();
    let mut settings = empty_optional();
    settings.to = Some(vec!["other@example.com".to_string()]);
    settings.digest = Some(true);
    let b = FeedConfig {
        urls: vec!["https://example.com/rss".to_string()],
        settings,
        filter: None,
    }
    .resolve(&global);

    assert_eq!(a.urls_hash, b.urls_hash);
    assert_eq!(a.criteria_hash, b.criteria_hash);
}

#[test]
fn hash_inputs_change_the_digests() {
    let base = resolved(vec!["https://example.com/rss"], None);

    let reordered = resolved(vec!["https://example.com/rss", "https://example.com/atom"], None);
    assert_ne!(base.urls_hash, reordered.urls_hash);

    let global = empty_optional().with_default();
    let mut keyed = empty_optional();
    keyed.update_keys = Some(vec!["item.title.content".to_string()]);
    let with_keys = FeedConfig {
        urls: vec!["https://example.com/rss".to_string()],
        settings: keyed,
        filter: None,
    }
    .resolve(&global);
    assert_eq!(base.urls_hash, with_keys.urls_hash);
    assert_ne!(base.criteria_hash, with_keys.criteria_hash);

    let with_filter = resolved(
        vec!["https://example.com/rss"],
        Some(Filter::TitleRegex("x".into())),
    );
    assert_ne!(base.criteria_hash, with_filter.criteria_hash);
}

#[test]
fn structurally_distinct_filters_digest_differently() {
    let and = Filter::And(vec![Filter::TitleRegex("x".into())]);
    let or = Filter::Or(vec![Filter::TitleRegex("x".into())]);
    assert_ne!(and.hash(), or.hash());

    let title = Filter::TitleRegex("x".into());
    let body = Filter::BodyRegex("x".into());
    assert_ne!(title.hash(), body.hash());
}

#[test]
fn urls_hash_matches_reference_digest() {
    let urls = vec![
        "https://example.com/a".to_string(),
        "https://example.com/b".to_string(),
    ];
    let expected = {
        let mut hasher = blake3::Hasher::new();
        for url in &urls {
            hasher.update(blake3::hash(url.as_bytes()).as_bytes());
        }
        hasher.finalize().as_bytes().to_vec()
    };
    assert_eq!(chain_hash_strings(&urls), expected);
    assert_eq!(
        hash_bytes(b"abc"),
        blake3::hash(b"abc").as_bytes().to_vec()
    );
}

#[test]
fn duplicate_url_lists_are_detected() {
    let a = resolved(vec!["https://example.com/rss"], None);
    let b = resolved(vec!["https://example.com/rss"], None);
    let c = resolved(vec!["https://example.com/other"], None);

    let unique = vec![resolved(vec!["https://example.com/rss"], None), c];
    assert!(find_duplicate_group(&unique).is_none());

    let clashing = vec![a, b];
    assert_eq!(find_duplicate_group(&clashing), Some(1));
}

#[test]
fn defaults_fill_missing_settings() {
    let s = empty_optional().with_default();
    assert_eq!(s.interval_secs, 3600);
    assert_eq!(s.keep_old_secs, 604800);
    assert_eq!(s.timeout_ms, 30000);
    assert_eq!(s.max_mails_per_check, 5);
    assert!(s.sanitize);
    assert!(!s.sort_by_last_modified);
    assert!(!s.digest);
    assert_eq!(s.update_keys, vec!["item.id".to_string()]);
    assert!(s.to.is_empty());
}

#[test]
fn per_feed_template_args_win_over_global() {
    let local = vec![("greeting".to_string(), "Hi".to_string())];
    let global = vec![
        ("greeting".to_string(), "Hello".to_string()),
        ("name".to_string(), "World".to_string()),
    ];
    let merged = merge_template_args(local, &global);
    assert_eq!(
        merged,
        vec![
            ("greeting".to_string(), "Hi".to_string()),
            ("name".to_string(), "World".to_string()),
        ]
    );

    assert_eq!(pick(Some(1), 2), 1);
    assert_eq!(pick(None::<i32>, 2), 2);
}

#[test]
fn regex_helpers_match_capture_and_replace() {
    assert!(match_str("abc", "a.*").unwrap());
    assert!(!match_str("xyz", "a.*").unwrap());
    assert!(match_str("abc", "[").is_err());

    assert_eq!(
        capture_str("item-123", "item-(\\d+)", Some(1)).unwrap(),
        Some("123".to_string())
    );
    assert_eq!(capture_str("item-123", "item-(\\d+)", None).unwrap(), Some("item-123".to_string()));
    assert_eq!(capture_str("nope", "item-(\\d+)", None).unwrap(), None);
    assert!(capture_str("x", "[", None).is_err());

    assert_eq!(replace_str("banana", "a", "A").unwrap(), "bAnAnA");
    assert!(replace_str("x", "[", "y").is_err());
}

#[test]
fn renderer_construction_rejects_bad_inputs() {
    let bad_filter = resolved(
        vec!["https://example.com/rss"],
        Some(Filter::TitleRegex("[".into())),
    );
    let templates = resolve_inline_templates(&bad_filter.settings).unwrap();
    assert!(Renderer::from_feed(&bad_filter, &templates).is_err());

    let global = empty_optional().with_default();
    let mut bad_key = empty_optional();
    bad_key.update_keys = Some(vec!["item.".to_string()]);
    let bad_key_group = FeedConfig {
        urls: vec!["https://example.com/rss".to_string()],
        settings: bad_key,
        filter: None,
    }
    .resolve(&global);
    let templates = resolve_inline_templates(&bad_key_group.settings).unwrap();
    assert!(Renderer::from_feed(&bad_key_group, &templates).is_err());

    let mut bad_template = empty_optional();
    bad_template.item_subject = Some(TemplateSource::Inline("{% if %}".into()));
    let bad_template_group = FeedConfig {
        urls: vec!["https://example.com/rss".to_string()],
        settings: bad_template,
        filter: None,
    }
    .resolve(&global);
    let templates = resolve_inline_templates(&bad_template_group.settings).unwrap();
    assert!(Renderer::from_feed(&bad_template_group, &templates).is_err());
}

#[test]
fn file_template_sources_need_the_caller() {
    let global = empty_optional().with_default();
    let mut with_file = empty_optional();
    with_file.item_body = Some(TemplateSource::File("body.html".into()));
    let group = FeedConfig {
        urls: vec!["https://example.com/rss".to_string()],
        settings: with_file,
        filter: None,
    }
    .resolve(&global);
    assert!(resolve_inline_templates(&group.settings).is_none());
}

#[test]
fn error_text_is_rendered_safely() {
    let plain = render_error_html("plain error");
    assert!(plain.contains("plain error"));

    let markup = render_error_html("<b>bold</b>");
    assert_ne!(markup, "<b>bold</b>");
    assert!(!markup.contains("<b>"));

    let ansi = render_error_html("\u{1b}[31mred\u{1b}[0m");
    assert!(ansi.contains("red"));
    assert!(!ansi.contains("\u{1b}"));
}

#[test]
fn sanitizer_strips_scripts_and_escapes_text() {
    let feed = FeedDoc {
        id: "https://example.com/".to_string(),
        title: Some(FeedText {
            is_html: true,
            src: None,
            content: "<script>alert(1)</script><b>Feed</b>".to_string(),
        }),
        description: Some(FeedText {
            is_html: false,
            src: None,
            content: "a < b".to_string(),
        }),
        rights: None,
        links: Vec::new(),
        entries: vec![FeedItem {
            id: "e1".to_string(),
            title: Some(FeedText {
                is_html: false,
                src: None,
                content: "plain & title".to_string(),
            }),
            summary: Some(FeedText {
                is_html: false,
                src: None,
                content: "x < y".to_string(),
            }),
            content: None,
            rights: None,
            links: Vec::new(),
            updated: None,
            published: None,
        }],
    };
    let clean = sanitize_feed(feed);
    let title = clean.title.unwrap().content;
    assert!(!title.contains("script"));
    assert!(title.contains("<b>Feed</b>"));
    assert!(clean.description.unwrap().content.contains("&lt;"));
    let item = &clean.entries[0];
    assert_eq!(item.title.as_ref().unwrap().content, "plain & title");
    assert!(item.summary.as_ref().unwrap().content.contains("&lt;"));
}
