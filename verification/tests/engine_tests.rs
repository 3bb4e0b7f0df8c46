use yaf2m::config::{FeedConfig, FeedGroup, Filter, OptionalSettings, TemplateSource};
use yaf2m::engine::{
    classify_mail_mode, dedup_new_items, match_failing_feeds, prefixed_subject, retry_delay_secs,
    should_send, sort_new_items, subject_prefix, MailMode,
};
use yaf2m::item::{FeedContent, FeedDoc, FeedItem, FeedText};
use yaf2m::render::{item_context, resolve_inline_templates, Renderer};
use yaf2m::store::{FeedStatus, Store};

fn empty_optional() -> OptionalSettings {
    OptionalSettings {
        to: None,
        cc: None,
        bcc: None,
        digest: None,
        item_subject: None,
        digest_subject: None,
        item_body: None,
        digest_body: None,
        template_args: None,
        update_keys: None,
        interval_secs: None,
        keep_old_secs: None,
        timeout_ms: None,
        max_mails_per_check: None,
        sanitize: None,
        sort_by_last_modified: None,
        http_headers: None,
    }
}

fn make_group(urls: Vec<&str>, filter: Option<Filter>) -> FeedGroup {
    let global = empty_optional().with_default();
    let mut settings = empty_optional();
    settings.to = Some(vec!["ops@example.com".to_string()]);
    settings.item_subject = Some(TemplateSource::Inline("{{ item.id }}".into()));
    settings.digest_subject = Some(TemplateSource::Inline("digest".into()));
    settings.item_body = Some(TemplateSource::Inline("{{ item.id }}".into()));
    settings.digest_body = Some(TemplateSource::Inline("{{ items | length }}".into()));
    let config = FeedConfig {
        urls: urls.into_iter().map(|u| u.to_string()).collect(),
        settings,
        filter,
    };
    config.resolve(&global)
}

fn entry(id: &str, title: &str) -> FeedItem {
    FeedItem {
        id: id.to_string(),
        title: Some(FeedText {
            is_html: false,
            src: None,
            content: title.to_string(),
        }),
        summary: Some(FeedText {
            is_html: false,
            src: None,
            content: "S".to_string(),
        }),
        content: Some(FeedContent {
            is_html: false,
            src: None,
            body: Some("body".to_string()),
        }),
        rights: None,
        links: Vec::new(),
        updated: None,
        published: None,
    }
}

fn feed_doc(entries: Vec<FeedItem>) -> FeedDoc {
    FeedDoc {
        id: "feed-id".to_string(),
        title: None,
        description: None,
        rights: None,
        links: Vec::new(),
        entries,
    }
}

fn item_hashes(group: &FeedGroup, feed: &FeedDoc, items: &[FeedItem]) -> Vec<Vec<u8>> {
    let templates = resolve_inline_templates(&group.settings).unwrap();
    let renderer = Renderer::from_feed(group, &templates).unwrap();
    items
        .iter()
        .map(|it| renderer.update_hash(&item_context(feed, it)).unwrap())
        .collect()
}

#[test]
fn first_run_single_group_single_item() {
    let group = make_group(vec!["https://example.com/rss"], None);
    let mut store = Store::new();
    let now = 1000i64;

    store.touch_feed_group_last_seen(&group.urls_hash, now);
    let status = store.try_check_feed_group(&group, now);
    assert_eq!(status, FeedStatus::NewFeed);

    let item = entry("a", "T");
    let feed = feed_doc(vec![item.clone()]);
    let hashes = item_hashes(&group, &feed, &[item]);

    let expected = {
        let mut hasher = blake3::Hasher::new();
        hasher.update(blake3::hash(b"a").as_bytes());
        hasher.finalize().as_bytes().to_vec()
    };
    assert_eq!(hashes[0], expected);

    let new = dedup_new_items(&mut store, &group.urls_hash, &hashes, now);
    assert_eq!(new, vec![0]);

    assert_eq!(
        classify_mail_mode(status, group.settings.digest, new.len(), group.settings.max_mails_per_check),
        MailMode::Digest
    );
    let subject = prefixed_subject(status, "digest".to_string());
    assert_eq!(subject, "[New Feed] digest");

    store.set_feed_group_update_time(&group.urls_hash, now);
    store.clear_failure(&group.urls_hash);
    store.delete_old_items(&group.urls_hash, group.settings.keep_old_secs, now);

    assert_eq!(store.groups.len(), 1);
    assert_eq!(store.items.len(), 1);
    assert_eq!(store.groups[0].last_update, Some(now));
}

#[test]
fn repeat_cycle_emits_nothing() {
    let group = make_group(vec!["https://example.com/rss"], None);
    let mut store = Store::new();
    let now1 = 1000i64;

    store.touch_feed_group_last_seen(&group.urls_hash, now1);
    assert_eq!(store.try_check_feed_group(&group, now1), FeedStatus::NewFeed);

    let item = entry("a", "T");
    let feed = feed_doc(vec![item.clone()]);
    let hashes = item_hashes(&group, &feed, &[item]);
    let new1 = dedup_new_items(&mut store, &group.urls_hash, &hashes, now1);
    assert_eq!(new1, vec![0]);

    let now2 = now1 + group.settings.interval_secs + 1;
    store.touch_feed_group_last_seen(&group.urls_hash, now2);
    let status = store.try_check_feed_group(&group, now2);
    assert_eq!(status, FeedStatus::Update);

    let new2 = dedup_new_items(&mut store, &group.urls_hash, &hashes, now2);
    assert!(new2.is_empty());

    assert_eq!(store.groups[0].last_seen, now2);
    assert_eq!(store.items[0].last_seen, now2);
}

#[test]
fn within_interval_second_claim_waits() {
    let group = make_group(vec!["https://example.com/rss"], None);
    let mut store = Store::new();

    assert_eq!(store.try_check_feed_group(&group, 1000), FeedStatus::NewFeed);
    assert_eq!(store.try_check_feed_group(&group, 1001), FeedStatus::Wait);
    assert_eq!(
        store.try_check_feed_group(&group, 1000 + group.settings.interval_secs),
        FeedStatus::Wait
    );
    assert_eq!(
        store.try_check_feed_group(&group, 1000 + group.settings.interval_secs + 1),
        FeedStatus::Update
    );
}

#[test]
fn filter_change_resets_dedup() {
    let group = make_group(vec!["https://example.com/rss"], None);
    let mut store = Store::new();
    let now1 = 1000i64;

    assert_eq!(store.try_check_feed_group(&group, now1), FeedStatus::NewFeed);

    let rust_item = entry("a", "Rust");
    let go_item = entry("b", "Go");
    let feed = feed_doc(vec![rust_item.clone(), go_item.clone()]);
    let hashes = item_hashes(&group, &feed, &[rust_item.clone(), go_item.clone()]);
    let new1 = dedup_new_items(&mut store, &group.urls_hash, &hashes, now1);
    assert_eq!(new1, vec![0, 1]);

    let filtered_group = make_group(
        vec!["https://example.com/rss"],
        Some(Filter::TitleRegex("Rust".into())),
    );
    assert_eq!(group.urls_hash, filtered_group.urls_hash);
    assert_ne!(group.criteria_hash, filtered_group.criteria_hash);

    let now2 = now1 + group.settings.interval_secs + 1;
    let status = store.try_check_feed_group(&filtered_group, now2);
    assert_eq!(status, FeedStatus::NewCriteria);
    assert!(store.items.is_empty());

    let templates = resolve_inline_templates(&filtered_group.settings).unwrap();
    let renderer = Renderer::from_feed(&filtered_group, &templates).unwrap();
    let mut kept = Vec::new();
    for it in [rust_item.clone(), go_item.clone()] {
        let ctx = item_context(&feed, &it);
        if renderer.filter(&ctx, &it).unwrap() {
            kept.push(renderer.update_hash(&ctx).unwrap());
        }
    }
    assert_eq!(kept.len(), 1);

    let new2 = dedup_new_items(&mut store, &filtered_group.urls_hash, &kept, now2);
    assert_eq!(new2, vec![0]);
    assert_eq!(prefixed_subject(status, "digest".to_string()), "[New Criteria] digest");

    let now3 = now2 + group.settings.interval_secs + 1;
    assert_eq!(store.try_check_feed_group(&filtered_group, now3), FeedStatus::Update);
    let new3 = dedup_new_items(&mut store, &filtered_group.urls_hash, &kept, now3);
    assert!(new3.is_empty());
}

#[test]
fn max_mails_threshold_switches_to_digest() {
    assert_eq!(classify_mail_mode(FeedStatus::Update, false, 3, 2), MailMode::Digest);
    assert_eq!(classify_mail_mode(FeedStatus::Update, false, 3, 3), MailMode::PerItem);
    assert_eq!(classify_mail_mode(FeedStatus::Update, true, 1, 5), MailMode::Digest);
    assert_eq!(classify_mail_mode(FeedStatus::NewFeed, false, 1, 5), MailMode::Digest);
    assert_eq!(classify_mail_mode(FeedStatus::NewCriteria, false, 1, 5), MailMode::Digest);
    assert_eq!(classify_mail_mode(FeedStatus::Update, false, 1, 5), MailMode::PerItem);
}

#[test]
fn duplicate_item_in_batch_keeps_earliest() {
    let group = make_group(vec!["https://example.com/rss"], None);
    let mut store = Store::new();
    let item = entry("a", "T");
    let feed = feed_doc(vec![item.clone()]);
    let one = item_hashes(&group, &feed, &[item])[0].clone();
    let hashes = vec![one.clone(), one.clone()];

    let new = dedup_new_items(&mut store, &group.urls_hash, &hashes, 1000);
    assert_eq!(new, vec![0]);
}

#[test]
fn retention_removes_stale_groups_and_cascades_items() {
    let live_group = make_group(vec!["https://example.com/live"], None);
    let stale_group = make_group(vec!["https://example.com/stale"], None);
    let mut store = Store::new();

    store.try_check_feed_group(&live_group, 1000);
    store.try_check_feed_group(&stale_group, 1000);
    store.upsert_and_check_item_new(&live_group.urls_hash, &vec![1u8], 1000);
    store.upsert_and_check_item_new(&stale_group.urls_hash, &vec![2u8], 1000);
    assert_eq!(store.groups.len(), 2);
    assert_eq!(store.items.len(), 2);

    let live_keys = vec![live_group.urls_hash.clone()];
    let keep_old = 500i64;
    let now = 2000i64;
    store.delete_old_groups(keep_old, now, &live_keys);

    assert_eq!(store.groups.len(), 1);
    assert_eq!(store.groups[0].urls_hash, live_group.urls_hash);
    assert_eq!(store.items.len(), 1);
    assert_eq!(store.items[0].urls_hash, live_group.urls_hash);
}

#[test]
fn old_failures_are_dropped() {
    let group = make_group(vec!["https://example.com/rss"], None);
    let mut store = Store::new();
    store.record_failure(&group.urls_hash, "boom".to_string(), 1000);
    store.delete_old_failures(500, 1400);
    assert_eq!(store.failures.len(), 1);
    store.delete_old_failures(500, 2000);
    assert!(store.failures.is_empty());
}

#[test]
fn failure_counter_increments_and_clears() {
    let group = make_group(vec!["https://example.com/rss"], None);
    let mut store = Store::new();

    store.record_failure(&group.urls_hash, "e1".to_string(), 1000);
    assert_eq!(store.failures[0].fail_count, 1);
    assert!(store.get_failing_feeds().is_empty());

    store.record_failure(&group.urls_hash, "e2".to_string(), 2000);
    assert_eq!(store.failures[0].fail_count, 2);
    assert_eq!(store.failures[0].error, "e2");
    let failing = store.get_failing_feeds();
    assert_eq!(failing.len(), 1);
    assert_eq!(failing[0].0, group.urls_hash);

    store.clear_failure(&group.urls_hash);
    assert!(store.failures.is_empty());
}

#[test]
fn failing_rows_match_back_to_live_groups() {
    let group = make_group(vec!["https://example.com/rss"], None);
    let gone = make_group(vec!["https://example.com/gone"], None);
    let failing = vec![
        (group.urls_hash.clone(), "err-a".to_string()),
        (gone.urls_hash.clone(), "err-b".to_string()),
    ];
    let feeds = vec![group];
    let entries = match_failing_feeds(&failing, &feeds);
    assert_eq!(entries.len(), 1);
    assert_eq!(entries[0].urls_hash, feeds[0].urls_hash);
    assert_eq!(entries[0].urls, feeds[0].urls);
    assert_eq!(entries[0].error, "err-a");
}

#[test]
fn sort_orders_newest_first_with_missing_dates_last() {
    let mut a = entry("a", "A");
    a.updated = Some(300);
    let mut b = entry("b", "B");
    b.published = Some(500);
    let c = entry("c", "C");
    let mut d = entry("d", "D");
    d.updated = Some(400);
    d.published = Some(100);

    let sorted = sort_new_items(vec![a, b, c, d]);
    let ids: Vec<&str> = sorted.iter().map(|i| i.id.as_str()).collect();
    assert_eq!(ids, vec!["b", "d", "a", "c"]);
}

#[test]
fn sort_is_stable_for_equal_timestamps() {
    let mut a = entry("a", "A");
    a.updated = Some(100);
    let mut b = entry("b", "B");
    b.updated = Some(100);
    let mut c = entry("c", "C");
    c.updated = Some(200);

    let sorted = sort_new_items(vec![a, b, c]);
    let ids: Vec<&str> = sorted.iter().map(|i| i.id.as_str()).collect();
    assert_eq!(ids, vec!["c", "a", "b"]);
}

#[test]
fn send_decisions_and_retry_delays() {
    assert!(!should_send(&Vec::new(), &Vec::new(), &Vec::new()));
    assert!(should_send(&vec!["a@b.c".to_string()], &Vec::new(), &Vec::new()));
    assert!(should_send(&Vec::new(), &Vec::new(), &vec!["a@b.c".to_string()]));

    assert_eq!(retry_delay_secs(1), 1);
    assert_eq!(retry_delay_secs(2), 2);
    assert_eq!(retry_delay_secs(3), 4);

    assert_eq!(subject_prefix(FeedStatus::Update), "");
    assert_eq!(subject_prefix(FeedStatus::Wait), "");
}

#[test]
fn waiting_window_matches_last_check() {
    let group = make_group(vec!["https://example.com/rss"], None);
    let mut store = Store::new();
    assert!(!store.is_feed_group_waiting(&group, 1000));
    store.try_check_feed_group(&group, 1000);
    assert!(store.is_feed_group_waiting(&group, 1001));
    assert!(!store.is_feed_group_waiting(&group, 1000 + group.settings.interval_secs + 1));
}
