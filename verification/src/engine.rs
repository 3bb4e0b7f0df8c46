//! The per-cycle engine around the store: which items of a fetched batch
//! are emitted, how the cycle's mails are classified, and the small
//! decisions the dispatch loop acts on.

use vstd::prelude::*;

verus! {

use crate::config::FeedGroup;
use crate::item::FeedItem;
use crate::store::{
    Store, ItemRowV, items_after_upsert, has_item, items_unique, keys_of,
};

/// How a cycle's new items go out: one digest mail, or one mail per item.
#[derive(Debug, Clone, Copy, PartialEq, Eq, Structural)]
pub enum MailMode {
    Digest,
    PerItem,
}

use crate::store::FeedStatus;

/// Whether the cycle mails a digest: on a first observation, on a criteria
/// change, when the group asks for digests, or when more new items arrived
/// than the per-cycle cap allows.
pub open spec fn spec_digest_mode(
    status: FeedStatus,
    digest_setting: bool,
    n_new: int,
    max_mails: int,
) -> bool {
    ||| status == FeedStatus::NewFeed
    ||| status == FeedStatus::NewCriteria
    ||| digest_setting
    ||| n_new > max_mails
}

/// Classify the cycle's mail mode: digest exactly under
/// [`spec_digest_mode`], per-item otherwise.
pub fn classify_mail_mode(
    status: FeedStatus,
    digest_setting: bool,
    n_new: usize,
    max_mails: usize,
) -> (r: MailMode)
    ensures
        r == MailMode::Digest <==> spec_digest_mode(
            status,
            digest_setting,
            n_new as int,
            max_mails as int,
        ),
        r == MailMode::PerItem <==> !spec_digest_mode(
            status,
            digest_setting,
            n_new as int,
            max_mails as int,
        ),
{
    if status == FeedStatus::NewFeed || status == FeedStatus::NewCriteria || digest_setting
        || n_new > max_mails {
        MailMode::Digest
    } else {
        MailMode::PerItem
    }
}

/// The digest subject prefix each status carries.
pub open spec fn spec_subject_prefix(status: FeedStatus) -> Seq<char> {
    match status {
        FeedStatus::NewFeed => "[New Feed] "@,
        FeedStatus::NewCriteria => "[New Criteria] "@,
        _ => ""@,
    }
}

/// The digest subject prefix: `"[New Feed] "` on a first observation,
/// `"[New Criteria] "` on a criteria change, empty otherwise.
pub fn subject_prefix(status: FeedStatus) -> (r: &'static str)
    ensures
        r@ == spec_subject_prefix(status),
{
    match status {
        FeedStatus::NewFeed => "[New Feed] ",
        FeedStatus::NewCriteria => "[New Criteria] ",
        FeedStatus::Update => "",
        FeedStatus::Wait => "",
    }
}

/// The status's prefix glued onto the rendered subject.
pub fn prefixed_subject(status: FeedStatus, subject: String) -> (r: String)
    ensures
        r@ == spec_subject_prefix(status) + subject@,
{
    let mut r = String::from_str(subject_prefix(status));
    r.append(subject.as_str());
    r
}

/// Whether any recipient is configured in to, cc or bcc.
pub fn should_send(to: &Vec<String>, cc: &Vec<String>, bcc: &Vec<String>) -> (r: bool)
    ensures
        r == !(to@.len() == 0 && cc@.len() == 0 && bcc@.len() == 0),
{
    !(to.len() == 0 && cc.len() == 0 && bcc.len() == 0)
}

/// The delay before the next mail-delivery attempt: 1 s, then 2 s, then
/// 4 s.
pub fn retry_delay_secs(attempt: u32) -> (r: u64)
    requires
        1 <= attempt <= 3,
    ensures
        r == (1u64 << (attempt - 1) as u64),
{
    1u64 << ((attempt - 1) as u64)
}

/// The ledger after upserting the first `n` of the batch's hashes in
/// order.
pub open spec fn ledger_after_rounds(
    items: Seq<ItemRowV>,
    key: Seq<u8>,
    hashes: Seq<Seq<u8>>,
    now: int,
    n: int,
) -> Seq<ItemRowV>
    decreases n,
{
    if n <= 0 {
        items
    } else {
        items_after_upsert(
            ledger_after_rounds(items, key, hashes, now, n - 1),
            key,
            hashes[n - 1],
            now,
        )
    }
}

/// Whether the batch's `j`-th hash is fresh when its turn comes: not yet in
/// the ledger after the first `j` upserts.  The first occurrence of a hash
/// in the batch is fresh and later ones are not, so of duplicate items the
/// earliest in the merged stream wins.
pub open spec fn fresh_at(
    items: Seq<ItemRowV>,
    key: Seq<u8>,
    hashes: Seq<Seq<u8>>,
    now: int,
    j: int,
) -> bool {
    !has_item(ledger_after_rounds(items, key, hashes, now, j), key, hashes[j])
}

/// The indices of the batch's fresh hashes, in order.
pub open spec fn fresh_indices(
    items: Seq<ItemRowV>,
    key: Seq<u8>,
    hashes: Seq<Seq<u8>>,
    now: int,
    n: int,
) -> Seq<int>
    decreases n,
{
    if n <= 0 {
        Seq::empty()
    } else {
        let prev = fresh_indices(items, key, hashes, now, n - 1);
        if fresh_at(items, key, hashes, now, n - 1) {
            prev.push(n - 1)
        } else {
            prev
        }
    }
}

/// Run the batch's hashes through the dedup ledger in order and report the
/// indices of the fresh ones: exactly those the cycle emits.
#[verifier::loop_isolation(false)]
pub fn dedup_new_items(
    store: &mut Store,
    key: &Vec<u8>,
    hashes: &Vec<Vec<u8>>,
    now: i64,
) -> (r: Vec<usize>)
    requires
        old(store).wf(),
    ensures
        final(store).wf(),
        final(store).items_v() == ledger_after_rounds(
            old(store).items_v(),
            key@,
            keys_of(hashes@),
            now as int,
            hashes@.len() as int,
        ),
        final(store).groups_v() == old(store).groups_v(),
        final(store).failures_v() == old(store).failures_v(),
        r@.map_values(|u: usize| u as int) == fresh_indices(
            old(store).items_v(),
            key@,
            keys_of(hashes@),
            now as int,
            hashes@.len() as int,
        ),
        forall|k: int| 0 <= k < r@.len() ==> r@[k] < hashes@.len(),
{
    let ghost items0: Seq<ItemRowV> = store.items_v();
    let ghost hs: Seq<Seq<u8>> = keys_of(hashes@);
    let mut out: Vec<usize> = Vec::new();
    for i in 0..hashes.len()
        invariant
            store.wf(),
            store.items_v() == ledger_after_rounds(items0, key@, hs, now as int, i as int),
            store.groups_v() == old(store).groups_v(),
            store.failures_v() == old(store).failures_v(),
            out@.map_values(|u: usize| u as int) =~= fresh_indices(
                items0,
                key@,
                hs,
                now as int,
                i as int,
            ),
            forall|k: int| 0 <= k < out@.len() ==> out@[k] < hashes@.len(),
    {
        let fresh = store.upsert_and_check_item_new(key, &hashes[i], now);
        if fresh {
            out.push(i);
        }
        proof {
            assert(store.items_v() == ledger_after_rounds(items0, key@, hs, now as int, i + 1));
            assert(out@.map_values(|u: usize| u as int) =~= fresh_indices(
                items0,
                key@,
                hs,
                now as int,
                i + 1,
            ));
        }
    }
    out
}

/// Whether `a` sorts at or before `b` in newest-first order: a later
/// modification timestamp comes first, and items without one come last.
pub open spec fn newer_or_equal(a: Option<i64>, b: Option<i64>) -> bool {
    match b {
        Option::None => true,
        Option::Some(tb) => (a matches Some(ta) && ta >= tb),
    }
}

/// Whether the items stand in newest-first order of their modification
/// timestamps.
pub open spec fn sorted_newest_first(items: Seq<FeedItem>) -> bool {
    forall|i: int, j: int|
        0 <= i < j < items.len() ==> newer_or_equal(
            items[i].spec_modified(),
            items[j].spec_modified(),
        )
}

/// Inserting into a sequence adds the element to its multiset.
pub proof fn lemma_insert_to_multiset<T>(s: Seq<T>, p: int, x: T)
    requires
        0 <= p <= s.len(),
    ensures
        s.insert(p, x).to_multiset() == s.to_multiset().insert(x),
{
    broadcast use vstd::seq_lib::group_to_multiset_ensures;

    vstd::seq_lib::lemma_multiset_commutative(s.take(p), seq![x] + s.skip(p));
    vstd::seq_lib::lemma_multiset_commutative(seq![x], s.skip(p));
    vstd::seq_lib::lemma_multiset_commutative(s.take(p), s.skip(p));
    assert(s.insert(p, x) =~= s.take(p) + (seq![x] + s.skip(p)));
    assert(s =~= s.take(p) + s.skip(p));
    assert(seq![x] =~= Seq::<T>::empty().push(x));
    assert(Seq::<T>::empty().push(x).to_multiset() =~= Seq::<T>::empty().to_multiset().insert(x));
    assert(Seq::<T>::empty().to_multiset() =~= vstd::multiset::Multiset::<T>::empty()) by {
        assert forall|a: T| Seq::<T>::empty().to_multiset().count(a) == 0 by {
            assert(!Seq::<T>::empty().contains(a));
        }
    }
    assert(s.insert(p, x).to_multiset() =~= s.to_multiset().insert(x));
}

/// Stable-sort the cycle's new items newest-first by their modification
/// timestamp: the result is a reordering holding the same items.
#[verifier::loop_isolation(false)]
pub fn sort_new_items(items: Vec<FeedItem>) -> (r: Vec<FeedItem>)
    ensures
        sorted_newest_first(r@),
        r@.to_multiset() == items@.to_multiset(),
{
    let mut src = items;
    // Reverse once so that the insertion loop below takes the items in
    // their original order; inserting each behind its equals keeps the
    // sort stable.
    let ghost src0 = src@;
    let mut rev: Vec<FeedItem> = Vec::new();
    while src.len() > 0
        invariant
            rev@.len() + src@.len() == src0.len(),
            src@ == src0.take(src@.len() as int),
            forall|k: int| 0 <= k < rev@.len() ==> rev@[k] == src0[src0.len() - 1 - k],
        decreases src@.len(),
    {
        let e = src.pop().unwrap();
        rev.push(e);
    }
    let mut src = rev;
    proof {
        broadcast use vstd::seq_lib::group_to_multiset_ensures;
        broadcast use vstd::multiset::group_multiset_axioms;

        lemma_reversed_multiset(src0, src@);
    }
    let mut out: Vec<FeedItem> = Vec::new();
    proof {
        broadcast use vstd::seq_lib::group_to_multiset_ensures;
        broadcast use vstd::multiset::group_multiset_axioms;

        assert(out@.to_multiset() =~= vstd::multiset::Multiset::<FeedItem>::empty()) by {
            assert forall|a: FeedItem| out@.to_multiset().count(a) == 0 by {
                assert(!out@.contains(a));
            }
        }
        assert(out@.to_multiset().add(src@.to_multiset()) =~= items@.to_multiset());
    }
    loop
        invariant
            sorted_newest_first(out@),
            out@.to_multiset().add(src@.to_multiset()) == items@.to_multiset(),
        decreases src@.len(),
    {
        let ghost old_src = src@;
        match src.pop() {
            Option::None => {
                proof {
                    broadcast use vstd::seq_lib::group_to_multiset_ensures;

                    assert(src@.to_multiset() =~= vstd::multiset::Multiset::<FeedItem>::empty())
                        by {
                        assert forall|a: FeedItem| src@.to_multiset().count(a) == 0 by {
                            assert(!src@.contains(a));
                        }
                    }
                    assert(out@.to_multiset() =~= items@.to_multiset());
                }
                return out;
            },
            Option::Some(e) => {
                let ghost popped = e;
                let key = e.modified();
                let mut p: usize = 0;
                while p < out.len() && newer_eq(out[p].modified(), key)
                    invariant
                        p <= out@.len(),
                        forall|q: int|
                            0 <= q < p ==> newer_or_equal(
                                out@[q].spec_modified(),
                                popped.spec_modified(),
                            ),
                    decreases out@.len() - p,
                {
                    p = p + 1;
                }
                let ghost old_out = out@;
                out.insert(p, e);
                proof {
                    broadcast use vstd::seq_lib::group_to_multiset_ensures;
                    broadcast use vstd::multiset::group_multiset_axioms;

                    lemma_insert_to_multiset(old_out, p as int, popped);
                    assert(old_src =~= src@.push(popped));
                    assert(old_src.to_multiset() == src@.to_multiset().insert(popped));
                    assert(out@.to_multiset().add(src@.to_multiset()) =~= items@.to_multiset());
                    assert(sorted_newest_first(out@)) by {
                        assert forall|i: int, j: int|
                            0 <= i < j < out@.len() implies newer_or_equal(
                            out@[i].spec_modified(),
                            out@[j].spec_modified(),
                        ) by {
                            if i < p && j == p {
                                assert(out@[i] == old_out[i]);
                            } else if i == p && j > p {
                                assert(out@[j] == old_out[j - 1]);
                                assert(!newer_or_equal(
                                    old_out[p as int].spec_modified(),
                                    popped.spec_modified(),
                                ));
                                lemma_newer_total(
                                    old_out[p as int].spec_modified(),
                                    popped.spec_modified(),
                                );
                                lemma_newer_trans(
                                    popped.spec_modified(),
                                    old_out[p as int].spec_modified(),
                                    old_out[j - 1].spec_modified(),
                                );
                            } else if i < p && j > p {
                                assert(out@[i] == old_out[i] && out@[j] == old_out[j - 1]);
                            } else if i > p && j > p {
                                assert(out@[i] == old_out[i - 1] && out@[j] == old_out[j - 1]);
                            } else {
                                assert(i < p && j < p);
                                assert(out@[i] == old_out[i] && out@[j] == old_out[j]);
                            }
                        }
                    }
                }
            },
        }
    }
}

/// A sequence and its reversal hold the same items.
proof fn lemma_reversed_multiset(orig: Seq<FeedItem>, rev: Seq<FeedItem>)
    requires
        rev.len() == orig.len(),
        forall|k: int| 0 <= k < rev.len() ==> rev[k] == orig[orig.len() - 1 - k],
    ensures
        rev.to_multiset() == orig.to_multiset(),
    decreases orig.len(),
{
    broadcast use vstd::seq_lib::group_to_multiset_ensures;
    broadcast use vstd::multiset::group_multiset_axioms;

    if orig.len() > 0 {
        let shorter_orig = orig.drop_first();
        let shorter_rev = rev.drop_last();
        assert(forall|k: int|
            0 <= k < shorter_rev.len() ==> shorter_rev[k] == shorter_orig[shorter_orig.len() - 1
                - k]);
        lemma_reversed_multiset(shorter_orig, shorter_rev);
        assert(rev =~= shorter_rev.push(orig[0]));
        assert(orig =~= seq![orig[0]] + shorter_orig);
        vstd::seq_lib::lemma_multiset_commutative(seq![orig[0]], shorter_orig);
        assert(seq![orig[0]] =~= Seq::<FeedItem>::empty().push(orig[0]));
        assert(Seq::<FeedItem>::empty().to_multiset() =~= vstd::multiset::Multiset::<
            FeedItem,
        >::empty()) by {
            assert forall|a: FeedItem| Seq::<FeedItem>::empty().to_multiset().count(a) == 0 by {
                assert(!Seq::<FeedItem>::empty().contains(a));
            }
        }
        assert(rev.to_multiset() =~= orig.to_multiset());
    }
}

/// One ordering probe of the sort.
fn newer_eq(a: Option<i64>, b: Option<i64>) -> (r: bool)
    ensures
        r == newer_or_equal(a, b),
{
    match b {
        Option::None => true,
        Option::Some(tb) => match a {
            Option::Some(ta) => ta >= tb,
            Option::None => false,
        },
    }
}

/// The newest-first order is total.
proof fn lemma_newer_total(a: Option<i64>, b: Option<i64>)
    ensures
        newer_or_equal(a, b) || newer_or_equal(b, a),
{
}

/// The newest-first order is transitive.
proof fn lemma_newer_trans(a: Option<i64>, b: Option<i64>, c: Option<i64>)
    requires
        newer_or_equal(a, b),
        newer_or_equal(b, c),
    ensures
        newer_or_equal(a, c),
{
}

/// Whether some live group carries the key.
pub open spec fn feed_with_key(feeds: Seq<FeedGroup>, key: Seq<u8>) -> bool {
    exists|i: int| 0 <= i < feeds.len() && feeds[i].urls_hash@ == key
}

/// The index of the live group carrying the key.
pub open spec fn feed_idx(feeds: Seq<FeedGroup>, key: Seq<u8>) -> int {
    choose|i: int| 0 <= i < feeds.len() && feeds[i].urls_hash@ == key
}

/// The failing rows matched back to live groups, from index `i` on: rows
/// whose group left the configuration are dropped, the others carry the
/// group's URLs beside the recorded error.
pub open spec fn matched_pairs(
    pairs: Seq<(Seq<u8>, Seq<char>)>,
    feeds: Seq<FeedGroup>,
    i: int,
) -> Seq<(Seq<u8>, Seq<String>, Seq<char>)>
    decreases pairs.len() - i,
{
    if i < 0 || i >= pairs.len() {
        Seq::empty()
    } else if feed_with_key(feeds, pairs[i].0) {
        seq![
            (pairs[i].0, feeds[feed_idx(feeds, pairs[i].0)].urls@, pairs[i].1),
        ] + matched_pairs(pairs, feeds, i + 1)
    } else {
        matched_pairs(pairs, feeds, i + 1)
    }
}

/// The mathematical value of a failure-entry list.
pub open spec fn entry_views(entries: Seq<crate::failures::FailureEntry>) -> Seq<
    (Seq<u8>, Seq<String>, Seq<char>),
> {
    entries.map_values(|e: crate::failures::FailureEntry| (e.urls_hash@, e.urls@, e.error@))
}

/// Match the failing rows back to the live configuration: each row whose
/// group is still configured becomes a tracker entry carrying the group's
/// URLs; rows of groups that left the configuration are dropped.
#[verifier::loop_isolation(false)]
pub fn match_failing_feeds(
    failing: &Vec<(Vec<u8>, String)>,
    feeds: &Vec<FeedGroup>,
) -> (r: Vec<crate::failures::FailureEntry>)
    requires
        crate::config::group_hashes_unique(feeds@),
    ensures
        entry_views(r@) == matched_pairs(crate::store::pairs_of(failing@), feeds@, 0),
{
    let ghost pv: Seq<(Seq<u8>, Seq<char>)> = crate::store::pairs_of(failing@);
    let mut out: Vec<crate::failures::FailureEntry> = Vec::new();
    for i in 0..failing.len()
        invariant
            entry_views(out@) + matched_pairs(pv, feeds@, i as int) == matched_pairs(
                pv,
                feeds@,
                0,
            ),
    {
        let mut matched: Option<usize> = None;
        for j in 0..feeds.len()
            invariant
                i < failing@.len(),
                (matched matches Some(m) ==> m < feeds@.len() && feeds@[m as int].urls_hash@
                    == pv[i as int].0),
                matched is None ==> (forall|q: int|
                    0 <= q < j ==> feeds@[q].urls_hash@ != pv[i as int].0),
        {
            if matched.is_none() && crate::hashing::bytes_eq(
                &feeds[j].urls_hash,
                &failing[i].0,
            ) {
                matched = Some(j);
            }
        }
        match matched {
            Option::Some(m) => {
                proof {
                    assert(feed_with_key(feeds@, pv[i as int].0)) by {
                        assert(feeds@[m as int].urls_hash@ == pv[i as int].0);
                    }
                    let c = feed_idx(feeds@, pv[i as int].0);
                    assert(0 <= c < feeds@.len() && feeds@[c].urls_hash@ == pv[i as int].0);
                    if c != m as int {
                        if c < m as int {
                            assert(feeds@[c].urls_hash@ != feeds@[m as int].urls_hash@);
                        } else {
                            assert(feeds@[m as int].urls_hash@ != feeds@[c].urls_hash@);
                        }
                    }
                }
                let entry = crate::failures::FailureEntry {
                    urls_hash: {
                        let k = failing[i].0.clone();
                        proof {
                            assert(k@ =~= failing@[i as int].0@);
                        }
                        k
                    },
                    urls: crate::config::clone_strings(&feeds[m].urls),
                    error: failing[i].1.clone(),
                };
                let ghost old_out = out@;
                out.push(entry);
                proof {
                    assert(matched_pairs(pv, feeds@, i as int) =~= seq![
                        (pv[i as int].0, feeds@[feed_idx(feeds@, pv[i as int].0)].urls@, pv[i as int].1),
                    ] + matched_pairs(pv, feeds@, i + 1));
                    assert(entry_views(out@) =~= entry_views(old_out).push(
                        (pv[i as int].0, feeds@[feed_idx(feeds@, pv[i as int].0)].urls@, pv[i as int].1),
                    ));
                    assert(entry_views(out@) + matched_pairs(pv, feeds@, i + 1) =~= matched_pairs(
                        pv,
                        feeds@,
                        0,
                    ));
                }
            },
            Option::None => {
                proof {
                    assert(!feed_with_key(feeds@, pv[i as int].0));
                    assert(matched_pairs(pv, feeds@, i as int) =~= matched_pairs(
                        pv,
                        feeds@,
                        i + 1,
                    ));
                }
            },
        }
    }
    proof {
        assert(matched_pairs(pv, feeds@, failing@.len() as int) =~= Seq::<
            (Seq<u8>, Seq<String>, Seq<char>),
        >::empty());
        assert(entry_views(out@) =~= matched_pairs(pv, feeds@, 0));
    }
    out
}

/// A single upsert never removes a ledger entry.
proof fn lemma_upsert_preserves_item(
    items: Seq<ItemRowV>,
    k0: Seq<u8>,
    u0: Seq<u8>,
    key: Seq<u8>,
    update: Seq<u8>,
    now: int,
)
    requires
        has_item(items, k0, u0),
    ensures
        has_item(items_after_upsert(items, key, update, now), k0, u0),
{
    let i = choose|i: int| 0 <= i < items.len() && items[i].key == k0 && items[i].update == u0;
    let after = items_after_upsert(items, key, update, now);
    if has_item(items, key, update) {
        assert(after[i].key == k0 && after[i].update == u0);
    } else {
        assert(after[i].key == k0 && after[i].update == u0);
    }
}

/// A single upsert keeps the ledger's key pairs unique.
proof fn lemma_upsert_keeps_unique(items: Seq<ItemRowV>, key: Seq<u8>, update: Seq<u8>, now: int)
    requires
        items_unique(items),
    ensures
        items_unique(items_after_upsert(items, key, update, now)),
{
    let after = items_after_upsert(items, key, update, now);
    if has_item(items, key, update) {
        assert forall|i: int, j: int|
            0 <= i < j < after.len() implies !(after[i].key == after[j].key && after[i].update
            == after[j].update) by {
            assert(after[i].key == items[i].key && after[i].update == items[i].update);
            assert(after[j].key == items[j].key && after[j].update == items[j].update);
        }
    } else {
        assert forall|i: int, j: int|
            0 <= i < j < after.len() implies !(after[i].key == after[j].key && after[i].update
            == after[j].update) by {
            if j < items.len() {
                assert(after[i] == items[i] && after[j] == items[j]);
            } else {
                assert(after[i] == items[i]);
                if after[i].key == key && after[i].update == update {
                    assert(has_item(items, key, update)) by {
                        assert(items[i].key == key && items[i].update == update);
                    }
                }
            }
        }
    }
}

/// No round of a batch removes a ledger entry.
proof fn lemma_rounds_preserve_item(
    items: Seq<ItemRowV>,
    key: Seq<u8>,
    hashes: Seq<Seq<u8>>,
    now: int,
    n: int,
    k0: Seq<u8>,
    u0: Seq<u8>,
)
    requires
        has_item(items, k0, u0),
    ensures
        has_item(ledger_after_rounds(items, key, hashes, now, n), k0, u0),
    decreases n,
{
    if n > 0 {
        lemma_rounds_preserve_item(items, key, hashes, now, n - 1, k0, u0);
        lemma_upsert_preserves_item(
            ledger_after_rounds(items, key, hashes, now, n - 1),
            k0,
            u0,
            key,
            hashes[n - 1],
            now,
        );
    }
}

/// The rounds of a batch keep the ledger's key pairs unique.
proof fn lemma_rounds_keep_unique(
    items: Seq<ItemRowV>,
    key: Seq<u8>,
    hashes: Seq<Seq<u8>>,
    now: int,
    n: int,
)
    requires
        items_unique(items),
    ensures
        items_unique(ledger_after_rounds(items, key, hashes, now, n)),
    decreases n,
{
    if n > 0 {
        lemma_rounds_keep_unique(items, key, hashes, now, n - 1);
        lemma_upsert_keeps_unique(
            ledger_after_rounds(items, key, hashes, now, n - 1),
            key,
            hashes[n - 1],
            now,
        );
    }
}

/// After a batch ran, every one of its hashes is in the ledger.
proof fn lemma_rounds_record_all(
    items: Seq<ItemRowV>,
    key: Seq<u8>,
    hashes: Seq<Seq<u8>>,
    now: int,
    n: int,
)
    requires
        items_unique(items),
        0 <= n <= hashes.len(),
    ensures
        forall|j: int| 0 <= j < n ==> has_item(
            ledger_after_rounds(items, key, hashes, now, n),
            key,
            hashes[j],
        ),
    decreases n,
{
    if n > 0 {
        lemma_rounds_record_all(items, key, hashes, now, n - 1);
        let before = ledger_after_rounds(items, key, hashes, now, n - 1);
        lemma_rounds_keep_unique(items, key, hashes, now, n - 1);
        crate::store::lemma_dedup_idempotence(before, key, hashes[n - 1], now, now);
        assert forall|j: int| 0 <= j < n implies has_item(
            ledger_after_rounds(items, key, hashes, now, n),
            key,
            hashes[j],
        ) by {
            if j < n - 1 {
                lemma_upsert_preserves_item(before, key, hashes[j], key, hashes[n - 1], now);
            }
        }
    }
}

/// Dedup idempotence across cycles: running the same batch again, against
/// the ledger the first pass left behind, emits nothing — whatever the two
/// cycles' clocks read.
pub proof fn lemma_dedup_second_pass_empty(
    items: Seq<ItemRowV>,
    key: Seq<u8>,
    hashes: Seq<Seq<u8>>,
    now1: int,
    now2: int,
)
    requires
        items_unique(items),
    ensures
        fresh_indices(
            ledger_after_rounds(items, key, hashes, now1, hashes.len() as int),
            key,
            hashes,
            now2,
            hashes.len() as int,
        ) == Seq::<int>::empty(),
{
    let items1 = ledger_after_rounds(items, key, hashes, now1, hashes.len() as int);
    lemma_rounds_record_all(items, key, hashes, now1, hashes.len() as int);
    assert forall|j: int| 0 <= j < hashes.len() implies !fresh_at(
        items1,
        key,
        hashes,
        now2,
        j,
    ) by {
        lemma_rounds_preserve_item(items1, key, hashes, now2, j, key, hashes[j]);
    }
    lemma_no_fresh_no_indices(items1, key, hashes, now2, hashes.len() as int);
}

/// A batch none of whose hashes is ever fresh emits no index.
proof fn lemma_no_fresh_no_indices(
    items: Seq<ItemRowV>,
    key: Seq<u8>,
    hashes: Seq<Seq<u8>>,
    now: int,
    n: int,
)
    requires
        0 <= n <= hashes.len(),
        forall|j: int| 0 <= j < n ==> !fresh_at(items, key, hashes, now, j),
    ensures
        fresh_indices(items, key, hashes, now, n) == Seq::<int>::empty(),
    decreases n,
{
    if n > 0 {
        lemma_no_fresh_no_indices(items, key, hashes, now, n - 1);
        assert(fresh_indices(items, key, hashes, now, n) =~= Seq::<int>::empty());
    }
}

/// A criteria change re-emits every matching item exactly once: against the
/// ledger a `NewCriteria` claim cleared, the whole batch is fresh on the
/// first pass, and a second pass over the same batch emits nothing.
pub proof fn lemma_criteria_reset_reemits_once(
    items: Seq<ItemRowV>,
    key: Seq<u8>,
    hashes: Seq<Seq<u8>>,
    now1: int,
    now2: int,
    j: int,
)
    requires
        items_unique(items),
        0 <= j < hashes.len(),
        forall|a: int, b: int| 0 <= a < b < hashes.len() ==> hashes[a] != hashes[b],
    ensures
        fresh_at(
            crate::store::items_after_claim(items, key, FeedStatus::NewCriteria),
            key,
            hashes,
            now1,
            j,
        ),
        fresh_indices(
            ledger_after_rounds(
                crate::store::items_after_claim(items, key, FeedStatus::NewCriteria),
                key,
                hashes,
                now1,
                hashes.len() as int,
            ),
            key,
            hashes,
            now2,
            hashes.len() as int,
        ) == Seq::<int>::empty(),
{
    let cleared = crate::store::items_after_claim(items, key, FeedStatus::NewCriteria);
    crate::store::lemma_criteria_change_resets(items, key, hashes[j], now1);
    assert(items_unique(cleared));
    lemma_fresh_after_clear(cleared, items, key, hashes, now1, j);
    lemma_dedup_second_pass_empty(cleared, key, hashes, now1, now2);
}

/// Against a ledger holding no row of the group, a batch of pairwise
/// distinct hashes is fresh throughout.
proof fn lemma_fresh_after_clear(
    cleared: Seq<ItemRowV>,
    items: Seq<ItemRowV>,
    key: Seq<u8>,
    hashes: Seq<Seq<u8>>,
    now: int,
    j: int,
)
    requires
        items_unique(items),
        cleared == crate::store::items_after_claim(items, key, FeedStatus::NewCriteria),
        0 <= j < hashes.len(),
        forall|a: int, b: int| 0 <= a < b < hashes.len() ==> hashes[a] != hashes[b],
    ensures
        fresh_at(cleared, key, hashes, now, j),
{
    lemma_group_rows_absent_until(cleared, items, key, hashes, now, j);
}

/// Rounds over hashes other than `hashes[j]` never put `(key, hashes[j])`
/// into a ledger that lacks every row of the group but those rounds added.
proof fn lemma_group_rows_absent_until(
    cleared: Seq<ItemRowV>,
    items: Seq<ItemRowV>,
    key: Seq<u8>,
    hashes: Seq<Seq<u8>>,
    now: int,
    j: int,
)
    requires
        items_unique(items),
        cleared == crate::store::items_after_claim(items, key, FeedStatus::NewCriteria),
        0 <= j < hashes.len(),
        forall|a: int, b: int| 0 <= a < b < hashes.len() ==> hashes[a] != hashes[b],
    ensures
        !has_item(ledger_after_rounds(cleared, key, hashes, now, j), key, hashes[j]),
{
    crate::store::lemma_criteria_change_resets(items, key, hashes[j], now);
    lemma_absent_rounds(cleared, key, hashes, now, j, hashes[j]);
}

/// A pair absent from the ledger stays absent through rounds whose hashes
/// all differ from its own.
proof fn lemma_absent_rounds(
    items: Seq<ItemRowV>,
    key: Seq<u8>,
    hashes: Seq<Seq<u8>>,
    now: int,
    n: int,
    u0: Seq<u8>,
)
    requires
        !has_item(items, key, u0),
        0 <= n <= hashes.len(),
        forall|a: int| 0 <= a < n ==> hashes[a] != u0,
    ensures
        !has_item(ledger_after_rounds(items, key, hashes, now, n), key, u0),
    decreases n,
{
    if n > 0 {
        lemma_absent_rounds(items, key, hashes, now, n - 1, u0);
        let before = ledger_after_rounds(items, key, hashes, now, n - 1);
        let after = items_after_upsert(before, key, hashes[n - 1], now);
        if has_item(after, key, u0) {
            let i = choose|i: int|
                0 <= i < after.len() && after[i].key == key && after[i].update == u0;
            if has_item(before, key, hashes[n - 1]) {
                assert(before[i].key == key && before[i].update == u0);
                assert(has_item(before, key, u0)) by {
                    assert(before[i].key == key && before[i].update == u0);
                }
            } else {
                if i < before.len() {
                    assert(before[i].key == key && before[i].update == u0);
                    assert(has_item(before, key, u0)) by {
                        assert(before[i].key == key && before[i].update == u0);
                    }
                } else {
                    assert(after[i].update == hashes[n - 1]);
                }
            }
        }
    }
}

} // verus!
