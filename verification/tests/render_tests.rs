use yaf2m::config::{FeedGroup, Filter, Settings, TemplateSource};
use yaf2m::item::{FeedContent, FeedDoc, FeedItem, FeedText};
use yaf2m::render::{item_context, resolve_inline_templates, Renderer, TemplateName};

fn build_feed_group(
    item_subject: TemplateSource,
    update_keys: Vec<String>,
    filter: Option<Filter>,
) -> FeedGroup {
    let urls = vec!["https://example.com/rss".to_string()];
    let mut urls_hasher = blake3::Hasher::new();
    for url in &urls {
        urls_hasher.update(blake3::hash(url.as_bytes()).as_bytes());
    }

    let template_args = vec![("greeting".to_string(), "Hello".to_string())];

    FeedGroup {
        urls_hash: urls_hasher.finalize().as_bytes().to_vec(),
        criteria_hash: Vec::new(),
        urls,
        filter,
        settings: Settings {
            to: Vec::new(),
            cc: Vec::new(),
            bcc: Vec::new(),
            digest: false,
            item_subject,
            digest_subject: TemplateSource::Inline("digest-subject".into()),
            item_body: TemplateSource::Inline("item-body".into()),
            digest_body: TemplateSource::Inline("digest-body".into()),
            template_args,
            update_keys,
            interval_secs: 3600,
            keep_old_secs: 604800,
            timeout_ms: 30000,
            max_mails_per_check: 5,
            sanitize: true,
            sort_by_last_modified: false,
            http_headers: Vec::new(),
        },
    }
}

fn renderer_for(feed: &FeedGroup) -> Renderer {
    let templates = resolve_inline_templates(&feed.settings).unwrap();
    Renderer::from_feed(feed, &templates).unwrap()
}

fn text_plain(content: &str) -> FeedText {
    FeedText {
        is_html: false,
        src: None,
        content: content.to_string(),
    }
}

fn sample_feed_and_item(id: &str, title: &str, summary: Option<&str>) -> (FeedDoc, FeedItem) {
    let feed = FeedDoc {
        id: "feed-id".into(),
        title: None,
        description: None,
        rights: None,
        links: Vec::new(),
        entries: Vec::new(),
    };

    let item = FeedItem {
        id: id.to_string(),
        title: Some(text_plain(title)),
        summary: summary.map(text_plain),
        content: Some(FeedContent {
            is_html: true,
            src: None,
            body: Some("<p>Body</p>".into()),
        }),
        rights: None,
        links: Vec::new(),
        updated: None,
        published: None,
    };

    (feed, item)
}

#[test]
fn renders_item_template_with_globals_and_custom_test() {
    let template = TemplateSource::Inline(
        "Subject: {{ template_args.greeting }} {{ item.id }} {% if 'abc' is matches('a.*') %}ok{% endif %}".into(),
    );
    let feed_group = build_feed_group(template, vec!["item.id".into()], None);
    let renderer = renderer_for(&feed_group);

    let (feed, item) = sample_feed_and_item("item-1", "Rust", Some("Summary"));
    let ctx = item_context(&feed, &item);

    let rendered = renderer.render(TemplateName::ItemSubject, &ctx).unwrap();

    assert_eq!(rendered, "Subject: Hello item-1 ok");
}

#[test]
fn update_hash_uses_compiled_expressions_in_order() {
    let feed_group = build_feed_group(
        TemplateSource::Inline("unused".into()),
        vec!["item.id".into(), "feed.id".into()],
        None,
    );
    let renderer = renderer_for(&feed_group);

    let (feed, item) = sample_feed_and_item("item-42", "Title", Some("Body"));
    let ctx = item_context(&feed, &item);

    let expected = {
        let mut hasher = blake3::Hasher::new();
        hasher.update(blake3::hash(b"item-42").as_bytes());
        hasher.update(blake3::hash(b"feed-id").as_bytes());
        hasher.finalize().as_bytes().to_vec()
    };

    let actual = renderer.update_hash(&ctx).unwrap();

    assert_eq!(actual, expected);
}

#[test]
fn filter_combines_regex_and_jinja_expression() {
    let filter = Filter::And(vec![
        Filter::TitleRegex("Rust".into()),
        Filter::BodyRegex("Body".into()),
        Filter::JinjaExpr("item.id == 'matchme'".into()),
    ]);

    let feed_group = build_feed_group(
        TemplateSource::Inline("unused".into()),
        vec!["item.id".into()],
        Some(filter),
    );
    let renderer = renderer_for(&feed_group);

    let (feed, matching_item) = sample_feed_and_item("matchme", "Rustacean", Some("Body text"));
    let matching_ctx = item_context(&feed, &matching_item);

    let (_, non_matching_item) = sample_feed_and_item("other", "Python", Some("Body text"));
    let non_matching_ctx = item_context(&feed, &non_matching_item);

    assert!(renderer.filter(&matching_ctx, &matching_item).unwrap());
    assert!(!renderer.filter(&non_matching_ctx, &non_matching_item).unwrap());
}

#[test]
fn renders_all_template_types() {
    let feed_group = build_feed_group(
        TemplateSource::Inline("item-subject".into()),
        vec!["item.id".into()],
        None,
    );
    let renderer = renderer_for(&feed_group);

    let (feed, item) = sample_feed_and_item("test-id", "Test Title", Some("Summary"));
    let ctx = item_context(&feed, &item);

    assert_eq!(
        renderer.render(TemplateName::ItemSubject, &ctx).unwrap(),
        "item-subject"
    );
    assert_eq!(
        renderer.render(TemplateName::DigestSubject, &ctx).unwrap(),
        "digest-subject"
    );
    assert_eq!(renderer.render(TemplateName::ItemBody, &ctx).unwrap(), "item-body");
    assert_eq!(
        renderer.render(TemplateName::DigestBody, &ctx).unwrap(),
        "digest-body"
    );
}

#[test]
fn filter_or_returns_true_on_first_match() {
    let filter = Filter::Or(vec![
        Filter::TitleRegex("Match".into()),
        Filter::TitleRegex("NeverMatch".into()),
    ]);

    let feed_group = build_feed_group(
        TemplateSource::Inline("unused".into()),
        vec!["item.id".into()],
        Some(filter),
    );
    let renderer = renderer_for(&feed_group);

    let (feed, item) = sample_feed_and_item("id", "Match This", None);
    let ctx = item_context(&feed, &item);

    assert!(renderer.filter(&ctx, &item).unwrap());
}

#[test]
fn filter_or_returns_false_when_all_fail() {
    let filter = Filter::Or(vec![
        Filter::TitleRegex("NoMatch1".into()),
        Filter::TitleRegex("NoMatch2".into()),
    ]);

    let feed_group = build_feed_group(
        TemplateSource::Inline("unused".into()),
        vec!["item.id".into()],
        Some(filter),
    );
    let renderer = renderer_for(&feed_group);

    let (feed, item) = sample_feed_and_item("id", "Different Title", None);
    let ctx = item_context(&feed, &item);

    assert!(!renderer.filter(&ctx, &item).unwrap());
}

#[test]
fn filter_not_inverts_result() {
    let filter = Filter::Not(Box::new(Filter::TitleRegex("Skip".into())));

    let feed_group = build_feed_group(
        TemplateSource::Inline("unused".into()),
        vec!["item.id".into()],
        Some(filter),
    );
    let renderer = renderer_for(&feed_group);

    let (feed, matching_item) = sample_feed_and_item("id", "Normal Title", None);
    let matching_ctx = item_context(&feed, &matching_item);

    let (_, skipped_item) = sample_feed_and_item("id2", "Skip This", None);
    let skipped_ctx = item_context(&feed, &skipped_item);

    assert!(renderer.filter(&matching_ctx, &matching_item).unwrap());
    assert!(!renderer.filter(&skipped_ctx, &skipped_item).unwrap());
}

#[test]
fn body_regex_matches_content_body_when_no_summary() {
    let filter = Filter::BodyRegex("Body".into());

    let feed_group = build_feed_group(
        TemplateSource::Inline("unused".into()),
        vec!["item.id".into()],
        Some(filter),
    );
    let renderer = renderer_for(&feed_group);

    let (feed, item) = sample_feed_and_item("id", "Title", None);
    let ctx = item_context(&feed, &item);

    assert!(renderer.filter(&ctx, &item).unwrap());
}

#[test]
fn body_regex_matches_summary_over_content() {
    let filter = Filter::BodyRegex("SummaryText".into());

    let feed_group = build_feed_group(
        TemplateSource::Inline("unused".into()),
        vec!["item.id".into()],
        Some(filter),
    );
    let renderer = renderer_for(&feed_group);

    let (feed, item) = sample_feed_and_item("id", "Title", Some("SummaryText here"));
    let ctx = item_context(&feed, &item);

    assert!(renderer.filter(&ctx, &item).unwrap());
}

#[test]
fn update_hash_handles_non_string_values() {
    let feed_group = build_feed_group(
        TemplateSource::Inline("unused".into()),
        vec!["feed.entries | length".into()],
        None,
    );
    let renderer = renderer_for(&feed_group);

    let (feed, item) = sample_feed_and_item("test", "Title", None);
    let ctx = item_context(&feed, &item);

    let hash1 = renderer.update_hash(&ctx).unwrap();
    let hash2 = renderer.update_hash(&ctx).unwrap();
    assert_eq!(hash1, hash2);
}

#[test]
fn regex_capture_extracts_groups() {
    let template =
        TemplateSource::Inline("Captured: {{ item.id | capture('item-(\\\\d+)') }}".into());
    let feed_group = build_feed_group(template, vec!["item.id".into()], None);
    let renderer = renderer_for(&feed_group);

    let (feed, item) = sample_feed_and_item("item-123", "Title", None);
    let ctx = item_context(&feed, &item);

    let rendered = renderer.render(TemplateName::ItemSubject, &ctx).unwrap();
    assert_eq!(rendered, "Captured: item-123");
}

#[test]
fn regex_capture_with_group_index() {
    let template =
        TemplateSource::Inline("Number: {{ item.id | capture('item-(\\\\d+)', 1) }}".into());
    let feed_group = build_feed_group(template, vec!["item.id".into()], None);
    let renderer = renderer_for(&feed_group);

    let (feed, item) = sample_feed_and_item("item-456", "Title", None);
    let ctx = item_context(&feed, &item);

    let rendered = renderer.render(TemplateName::ItemSubject, &ctx).unwrap();
    assert_eq!(rendered, "Number: 456");
}

#[test]
fn regex_capture_returns_none_when_no_match() {
    let template = TemplateSource::Inline("Result: {{ item.id | capture('notfound') }}".into());
    let feed_group = build_feed_group(template, vec!["item.id".into()], None);
    let renderer = renderer_for(&feed_group);

    let (feed, item) = sample_feed_and_item("item-789", "Title", None);
    let ctx = item_context(&feed, &item);

    let rendered = renderer.render(TemplateName::ItemSubject, &ctx).unwrap();
    assert_eq!(rendered, "Result: none");
}

#[test]
fn regex_replace_substitutes_matches() {
    let template = TemplateSource::Inline(
        "Replaced: {{ item.id | regex_replace('item-', 'item_') }}".into(),
    );
    let feed_group = build_feed_group(template, vec!["item.id".into()], None);
    let renderer = renderer_for(&feed_group);

    let (feed, item) = sample_feed_and_item("item-999", "Title", None);
    let ctx = item_context(&feed, &item);

    let rendered = renderer.render(TemplateName::ItemSubject, &ctx).unwrap();
    assert_eq!(rendered, "Replaced: item_999");
}

#[test]
fn regex_replace_with_capture_groups() {
    let template = TemplateSource::Inline(
        "Swapped: {{ item.id | regex_replace('(\\\\w+)-(\\\\d+)', '$2-$1') }}".into(),
    );
    let feed_group = build_feed_group(template, vec!["item.id".into()], None);
    let renderer = renderer_for(&feed_group);

    let (feed, item) = sample_feed_and_item("item-555", "Title", None);
    let ctx = item_context(&feed, &item);

    let rendered = renderer.render(TemplateName::ItemSubject, &ctx).unwrap();
    assert_eq!(rendered, "Swapped: 555-item");
}

#[test]
fn regex_replace_replaces_all_occurrences() {
    let template =
        TemplateSource::Inline("Result: {{ item.id | regex_replace('a', 'A') }}".into());
    let feed_group = build_feed_group(template, vec!["item.id".into()], None);
    let renderer = renderer_for(&feed_group);

    let (feed, item) = sample_feed_and_item("banana", "Title", None);
    let ctx = item_context(&feed, &item);

    let rendered = renderer.render(TemplateName::ItemSubject, &ctx).unwrap();
    assert_eq!(rendered, "Result: bAnAnA");
}

#[test]
fn regex_is_match_test() {
    let template = TemplateSource::Inline(
        "{% if item.id is match('item-\\\\d+') %}matches{% else %}no match{% endif %}".into(),
    );
    let feed_group = build_feed_group(template, vec!["item.id".into()], None);
    let renderer = renderer_for(&feed_group);

    let (feed, item) = sample_feed_and_item("item-123", "Title", None);
    let ctx = item_context(&feed, &item);

    let rendered = renderer.render(TemplateName::ItemSubject, &ctx).unwrap();
    assert_eq!(rendered, "matches");
}

#[test]
fn regex_is_match_test_no_match() {
    let template = TemplateSource::Inline(
        "{% if item.id is match('\\\\d+') %}matches{% else %}no match{% endif %}".into(),
    );
    let feed_group = build_feed_group(template, vec!["item.id".into()], None);
    let renderer = renderer_for(&feed_group);

    let (feed, item) = sample_feed_and_item("notanumber", "Title", None);
    let ctx = item_context(&feed, &item);

    let rendered = renderer.render(TemplateName::ItemSubject, &ctx).unwrap();
    assert_eq!(rendered, "no match");
}

#[test]
fn regex_returns_error_on_invalid_pattern() {
    let template = TemplateSource::Inline(
        "{% if item.id is match('[') %}matches{% else %}no match{% endif %}".into(),
    );
    let feed_group = build_feed_group(template, vec!["item.id".into()], None);
    let renderer = renderer_for(&feed_group);

    let (feed, item) = sample_feed_and_item("item-1", "Title", None);
    let ctx = item_context(&feed, &item);

    let result = renderer.render(TemplateName::ItemSubject, &ctx);
    assert!(result.is_err());
}

#[test]
fn filter_title_regex_matches_title() {
    let filter = Filter::TitleRegex("Rust".into());

    let feed_group = build_feed_group(
        TemplateSource::Inline("unused".into()),
        vec!["item.id".into()],
        Some(filter),
    );
    let renderer = renderer_for(&feed_group);

    let (feed, matching_item) =
        sample_feed_and_item("id", "Rust Programming", Some("Rust in summary"));
    let matching_ctx = item_context(&feed, &matching_item);

    let (_, non_matching_item) =
        sample_feed_and_item("id2", "Python Guide", Some("Rust in summary"));
    let non_matching_ctx = item_context(&feed, &non_matching_item);

    assert!(renderer.filter(&matching_ctx, &matching_item).unwrap());
    assert!(!renderer.filter(&non_matching_ctx, &non_matching_item).unwrap());
}

#[test]
fn filter_body_regex_matches_summary_and_content() {
    let filter = Filter::BodyRegex("important".into());

    let feed_group = build_feed_group(
        TemplateSource::Inline("unused".into()),
        vec!["item.id".into()],
        Some(filter),
    );
    let renderer = renderer_for(&feed_group);

    let (feed, summary_item) = sample_feed_and_item("id1", "Title", Some("important info"));
    let summary_ctx = item_context(&feed, &summary_item);

    let (_, title_item) =
        sample_feed_and_item("id2", "important Title", Some("irrelevant summary"));
    let title_ctx = item_context(&feed, &title_item);

    let (_, non_matching_item) = sample_feed_and_item("id3", "Title", Some("irrelevant"));
    let non_matching_ctx = item_context(&feed, &non_matching_item);

    assert!(renderer.filter(&summary_ctx, &summary_item).unwrap());
    assert!(!renderer.filter(&title_ctx, &title_item).unwrap());
    assert!(!renderer.filter(&non_matching_ctx, &non_matching_item).unwrap());
}

#[test]
fn filter_regex_matches_title_summary_and_content() {
    let filter = Filter::Regex("search".into());

    let feed_group = build_feed_group(
        TemplateSource::Inline("unused".into()),
        vec!["item.id".into()],
        Some(filter),
    );
    let renderer = renderer_for(&feed_group);

    let (feed, title_item) = sample_feed_and_item("id1", "search term", Some("summary"));
    let title_ctx = item_context(&feed, &title_item);

    let (_, summary_item) = sample_feed_and_item("id2", "Title", Some("search in summary"));
    let summary_ctx = item_context(&feed, &summary_item);

    let (_, non_matching_item) = sample_feed_and_item("id3", "No match", Some("irrelevant"));
    let non_matching_ctx = item_context(&feed, &non_matching_item);

    assert!(renderer.filter(&title_ctx, &title_item).unwrap());
    assert!(renderer.filter(&summary_ctx, &summary_item).unwrap());
    assert!(!renderer.filter(&non_matching_ctx, &non_matching_item).unwrap());
}

#[test]
fn empty_conjunction_accepts_and_empty_disjunction_rejects() {
    let and_group = build_feed_group(
        TemplateSource::Inline("unused".into()),
        vec!["item.id".into()],
        Some(Filter::And(Vec::new())),
    );
    let renderer = renderer_for(&and_group);
    let (feed, item) = sample_feed_and_item("id", "Title", None);
    let ctx = item_context(&feed, &item);
    assert!(renderer.filter(&ctx, &item).unwrap());

    let or_group = build_feed_group(
        TemplateSource::Inline("unused".into()),
        vec!["item.id".into()],
        Some(Filter::Or(Vec::new())),
    );
    let renderer = renderer_for(&or_group);
    assert!(!renderer.filter(&ctx, &item).unwrap());
}

#[test]
fn conjunction_short_circuits_past_failing_clause() {
    let erroring = "item.missing.attribute == 1";

    let alone = build_feed_group(
        TemplateSource::Inline("unused".into()),
        vec!["item.id".into()],
        Some(Filter::JinjaExpr(erroring.into())),
    );
    let renderer = renderer_for(&alone);
    let (feed, item) = sample_feed_and_item("id", "Title", None);
    let ctx = item_context(&feed, &item);
    assert!(renderer.filter(&ctx, &item).is_err());

    let and_group = build_feed_group(
        TemplateSource::Inline("unused".into()),
        vec!["item.id".into()],
        Some(Filter::And(vec![
            Filter::TitleRegex("NoSuchTitle".into()),
            Filter::JinjaExpr(erroring.into()),
        ])),
    );
    let renderer = renderer_for(&and_group);
    assert!(!renderer.filter(&ctx, &item).unwrap());

    let or_group = build_feed_group(
        TemplateSource::Inline("unused".into()),
        vec!["item.id".into()],
        Some(Filter::Or(vec![
            Filter::TitleRegex("Title".into()),
            Filter::JinjaExpr(erroring.into()),
        ])),
    );
    let renderer = renderer_for(&or_group);
    assert!(renderer.filter(&ctx, &item).unwrap());
}
