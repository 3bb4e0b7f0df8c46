//! The scheduling store: the three tables the engine persists, modelled as
//! in-memory rows, with the exact transition of every statement the engine
//! issues.
//!
//! `feed_groups` keys scheduling state by `urls_hash`; `feed_items` is the
//! dedup ledger keyed by `(urls_hash, update_hash)`; `failures` counts
//! consecutive failures per group.  The claim (`try_check_feed_group`) is a
//! compare-and-swap on `last_check`: of any number of claims within one
//! interval exactly the first succeeds.  The surrounding program mirrors
//! these transitions onto its SQL store one statement per method.

use vstd::prelude::*;

verus! {

use crate::config::FeedGroup;
use crate::hashing::bytes_eq;

/// Scheduling state of one group.
pub struct GroupRow {
    pub urls_hash: Vec<u8>,
    pub criteria_hash: Vec<u8>,
    pub last_check: i64,
    pub last_update: Option<i64>,
    pub last_seen: i64,
}

/// The mathematical value of a group row.
pub ghost struct GroupRowV {
    pub key: Seq<u8>,
    pub criteria: Seq<u8>,
    pub last_check: int,
    pub last_update: Option<int>,
    pub last_seen: int,
}

impl View for GroupRow {
    type V = GroupRowV;

    open spec fn view(&self) -> GroupRowV {
        GroupRowV {
            key: self.urls_hash@,
            criteria: self.criteria_hash@,
            last_check: self.last_check as int,
            last_update: match self.last_update {
                Option::Some(t) => Some(t as int),
                Option::None => None,
            },
            last_seen: self.last_seen as int,
        }
    }
}

/// One dedup-ledger row.
pub struct ItemRow {
    pub urls_hash: Vec<u8>,
    pub update_hash: Vec<u8>,
    pub last_seen: i64,
}

/// The mathematical value of a ledger row.
pub ghost struct ItemRowV {
    pub key: Seq<u8>,
    pub update: Seq<u8>,
    pub last_seen: int,
}

impl View for ItemRow {
    type V = ItemRowV;

    open spec fn view(&self) -> ItemRowV {
        ItemRowV {
            key: self.urls_hash@,
            update: self.update_hash@,
            last_seen: self.last_seen as int,
        }
    }
}

/// One failure-counter row.
pub struct FailureRow {
    pub urls_hash: Vec<u8>,
    pub fail_count: u64,
    pub error: String,
    pub fail_time: i64,
}

/// The mathematical value of a failure row.
pub ghost struct FailureRowV {
    pub key: Seq<u8>,
    pub fail_count: int,
    pub error: Seq<char>,
    pub fail_time: int,
}

impl View for FailureRow {
    type V = FailureRowV;

    open spec fn view(&self) -> FailureRowV {
        FailureRowV {
            key: self.urls_hash@,
            fail_count: self.fail_count as int,
            error: self.error@,
            fail_time: self.fail_time as int,
        }
    }
}

/// What the scheduler's claim says about the cycle.
#[derive(Debug, Clone, Copy, PartialEq, Eq, Structural)]
pub enum FeedStatus {
    /// The group was seen for the first time.
    NewFeed,
    /// The group's matching criteria changed since the last claim.
    NewCriteria,
    /// The claim succeeded: the group is due.
    Update,
    /// Another claim within the interval already succeeded.
    Wait,
}

/// The three tables.
pub struct Store {
    pub groups: Vec<GroupRow>,
    pub items: Vec<ItemRow>,
    pub failures: Vec<FailureRow>,
}

/// Every group key occurs at most once.
pub open spec fn groups_unique(groups: Seq<GroupRowV>) -> bool {
    forall|i: int, j: int| 0 <= i < j < groups.len() ==> groups[i].key != groups[j].key
}

/// Every `(group, item)` key pair occurs at most once.
pub open spec fn items_unique(items: Seq<ItemRowV>) -> bool {
    forall|i: int, j: int|
        0 <= i < j < items.len() ==> !(items[i].key == items[j].key && items[i].update
            == items[j].update)
}

/// Every failure key occurs at most once.
pub open spec fn failures_unique(failures: Seq<FailureRowV>) -> bool {
    forall|i: int, j: int| 0 <= i < j < failures.len() ==> failures[i].key != failures[j].key
}

/// Whether some group row carries the key.
pub open spec fn has_group(groups: Seq<GroupRowV>, key: Seq<u8>) -> bool {
    exists|i: int| 0 <= i < groups.len() && groups[i].key == key
}

/// The index of the group row carrying the key.
pub open spec fn group_idx(groups: Seq<GroupRowV>, key: Seq<u8>) -> int {
    choose|i: int| 0 <= i < groups.len() && groups[i].key == key
}

/// Whether some ledger row carries the key pair.
pub open spec fn has_item(items: Seq<ItemRowV>, key: Seq<u8>, update: Seq<u8>) -> bool {
    exists|i: int| 0 <= i < items.len() && items[i].key == key && items[i].update == update
}

/// The index of the ledger row carrying the key pair.
pub open spec fn item_idx(items: Seq<ItemRowV>, key: Seq<u8>, update: Seq<u8>) -> int {
    choose|i: int| 0 <= i < items.len() && items[i].key == key && items[i].update == update
}

/// Whether some failure row carries the key.
pub open spec fn has_failure(failures: Seq<FailureRowV>, key: Seq<u8>) -> bool {
    exists|i: int| 0 <= i < failures.len() && failures[i].key == key
}

/// `now - delta`, not going below the epoch.
pub open spec fn spec_cutoff(now: int, delta: int) -> int {
    if delta <= now {
        now - delta
    } else {
        0
    }
}

/// The timestamp `delta` seconds before `now`, saturating at the epoch.
pub fn cutoff_time(now: i64, delta: i64) -> (r: i64)
    requires
        now >= 0,
        delta >= 0,
    ensures
        r == spec_cutoff(now as int, delta as int),
{
    if delta <= now {
        now - delta
    } else {
        0
    }
}

impl Store {
    /// The mathematical groups table.
    pub open spec fn groups_v(self) -> Seq<GroupRowV> {
        self.groups@.map_values(|r: GroupRow| r@)
    }

    /// The mathematical ledger table.
    pub open spec fn items_v(self) -> Seq<ItemRowV> {
        self.items@.map_values(|r: ItemRow| r@)
    }

    /// The mathematical failures table.
    pub open spec fn failures_v(self) -> Seq<FailureRowV> {
        self.failures@.map_values(|r: FailureRow| r@)
    }

    /// Keys are primary: each table holds at most one row per key.
    pub open spec fn wf(self) -> bool {
        &&& groups_unique(self.groups_v())
        &&& items_unique(self.items_v())
        &&& failures_unique(self.failures_v())
    }

    /// An empty store.
    pub fn new() -> (r: Store)
        ensures
            r.wf(),
            r.groups_v() == Seq::<GroupRowV>::empty(),
            r.items_v() == Seq::<ItemRowV>::empty(),
            r.failures_v() == Seq::<FailureRowV>::empty(),
    {
        let r = Store { groups: Vec::new(), items: Vec::new(), failures: Vec::new() };
        proof {
            assert(r.groups_v() =~= Seq::<GroupRowV>::empty());
            assert(r.items_v() =~= Seq::<ItemRowV>::empty());
            assert(r.failures_v() =~= Seq::<FailureRowV>::empty());
        }
        r
    }
}

fn clone_bytes(v: &Vec<u8>) -> (r: Vec<u8>)
    ensures
        r@ == v@,
{
    let r = v.clone();
    proof {
        assert(r@ =~= v@);
    }
    r
}

fn clone_group_row(row: &GroupRow) -> (r: GroupRow)
    ensures
        r@ == row@,
{
    GroupRow {
        urls_hash: clone_bytes(&row.urls_hash),
        criteria_hash: clone_bytes(&row.criteria_hash),
        last_check: row.last_check,
        last_update: row.last_update,
        last_seen: row.last_seen,
    }
}

fn clone_item_row(row: &ItemRow) -> (r: ItemRow)
    ensures
        r@ == row@,
{
    ItemRow {
        urls_hash: clone_bytes(&row.urls_hash),
        update_hash: clone_bytes(&row.update_hash),
        last_seen: row.last_seen,
    }
}

fn clone_failure_row(row: &FailureRow) -> (r: FailureRow)
    ensures
        r@ == row@,
{
    FailureRow {
        urls_hash: clone_bytes(&row.urls_hash),
        fail_count: row.fail_count,
        error: row.error.clone(),
        fail_time: row.fail_time,
    }
}

/// The groups table with `last_seen` set to `now` on the row carrying the
/// key, if any.
pub open spec fn touched_groups(groups: Seq<GroupRowV>, key: Seq<u8>, now: int) -> Seq<GroupRowV> {
    Seq::new(
        groups.len(),
        |i: int|
            if groups[i].key == key {
                GroupRowV { last_seen: now, ..groups[i] }
            } else {
                groups[i]
            },
    )
}

/// The groups table with `last_update` set to `now` on the row carrying the
/// key, if any.
pub open spec fn updated_groups(groups: Seq<GroupRowV>, key: Seq<u8>, now: int) -> Seq<GroupRowV> {
    Seq::new(
        groups.len(),
        |i: int|
            if groups[i].key == key {
                GroupRowV { last_update: Some(now), ..groups[i] }
            } else {
                groups[i]
            },
    )
}

/// What the claim answers for a group with the given key and criteria
/// digest: `NewFeed` on first observation; `Wait` while the stored
/// `last_check` is on or after the cutoff; otherwise the claim succeeds, as
/// `NewCriteria` when the stored criteria digest differs and as `Update`
/// when it does not.
pub open spec fn claim_status(
    groups: Seq<GroupRowV>,
    key: Seq<u8>,
    criteria: Seq<u8>,
    cutoff: int,
) -> FeedStatus {
    if !has_group(groups, key) {
        FeedStatus::NewFeed
    } else {
        let g = groups[group_idx(groups, key)];
        if g.last_check >= cutoff {
            FeedStatus::Wait
        } else if g.criteria == criteria {
            FeedStatus::Update
        } else {
            FeedStatus::NewCriteria
        }
    }
}

/// The groups table after a claim: a fresh row on first observation;
/// untouched on `Wait`; otherwise `last_check` and the stored criteria
/// digest are set on the claimed row.
pub open spec fn groups_after_claim(
    groups: Seq<GroupRowV>,
    key: Seq<u8>,
    criteria: Seq<u8>,
    now: int,
    cutoff: int,
) -> Seq<GroupRowV> {
    if !has_group(groups, key) {
        groups.push(
            GroupRowV {
                key: key,
                criteria: criteria,
                last_check: now,
                last_update: None,
                last_seen: now,
            },
        )
    } else if claim_status(groups, key, criteria, cutoff) == FeedStatus::Wait {
        groups
    } else {
        Seq::new(
            groups.len(),
            |i: int|
                if groups[i].key == key {
                    GroupRowV { last_check: now, criteria: criteria, ..groups[i] }
                } else {
                    groups[i]
                },
        )
    }
}

/// The ledger after a claim: reset for the group when the criteria changed,
/// untouched otherwise.
pub open spec fn items_after_claim(
    items: Seq<ItemRowV>,
    key: Seq<u8>,
    status: FeedStatus,
) -> Seq<ItemRowV> {
    if status == FeedStatus::NewCriteria {
        items.filter(|it: ItemRowV| it.key != key)
    } else {
        items
    }
}

/// Whether the group is inside its wait window: a row exists and its
/// `last_check` is strictly after the cutoff.
pub open spec fn spec_waiting(groups: Seq<GroupRowV>, key: Seq<u8>, cutoff: int) -> bool {
    has_group(groups, key) && groups[group_idx(groups, key)].last_check > cutoff
}

impl Store {
    /// Refresh the group's liveness timestamp; a missing row is left
    /// missing.
    #[verifier::loop_isolation(false)]
    pub fn touch_feed_group_last_seen(&mut self, key: &Vec<u8>, now: i64)
        requires
            old(self).wf(),
        ensures
            final(self).wf(),
            final(self).groups_v() == touched_groups(old(self).groups_v(), key@, now as int),
            final(self).items_v() == old(self).items_v(),
            final(self).failures_v() == old(self).failures_v(),
    {
        let ghost gv: Seq<GroupRowV> = self.groups_v();
        let mut out: Vec<GroupRow> = Vec::new();
        for i in 0..self.groups.len()
            invariant
                out@.map_values(|r: GroupRow| r@) =~= touched_groups(gv, key@, now as int).take(
                    i as int,
                ),
        {
            let row = &self.groups[i];
            if bytes_eq(&row.urls_hash, key) {
                let mut updated = clone_group_row(row);
                updated.last_seen = now;
                out.push(updated);
            } else {
                out.push(clone_group_row(row));
            }
            proof {
                assert(out@.map_values(|r: GroupRow| r@) =~= touched_groups(
                    gv,
                    key@,
                    now as int,
                ).take(i + 1));
            }
        }
        self.groups = out;
        proof {
            assert(touched_groups(gv, key@, now as int).take(gv.len() as int) =~= touched_groups(
                gv,
                key@,
                now as int,
            ));
            assert(self.groups_v() =~= touched_groups(gv, key@, now as int));
        }
    }

    /// Set the group's `last_update` timestamp; a missing row is left
    /// missing.
    #[verifier::loop_isolation(false)]
    pub fn set_feed_group_update_time(&mut self, key: &Vec<u8>, now: i64)
        requires
            old(self).wf(),
        ensures
            final(self).wf(),
            final(self).groups_v() == updated_groups(old(self).groups_v(), key@, now as int),
            final(self).items_v() == old(self).items_v(),
            final(self).failures_v() == old(self).failures_v(),
    {
        let ghost gv: Seq<GroupRowV> = self.groups_v();
        let mut out: Vec<GroupRow> = Vec::new();
        for i in 0..self.groups.len()
            invariant
                out@.map_values(|r: GroupRow| r@) =~= updated_groups(gv, key@, now as int).take(
                    i as int,
                ),
        {
            let row = &self.groups[i];
            if bytes_eq(&row.urls_hash, key) {
                let mut updated = clone_group_row(row);
                updated.last_update = Some(now);
                out.push(updated);
            } else {
                out.push(clone_group_row(row));
            }
            proof {
                assert(out@.map_values(|r: GroupRow| r@) =~= updated_groups(
                    gv,
                    key@,
                    now as int,
                ).take(i + 1));
            }
        }
        self.groups = out;
        proof {
            assert(updated_groups(gv, key@, now as int).take(gv.len() as int) =~= updated_groups(
                gv,
                key@,
                now as int,
            ));
            assert(self.groups_v() =~= updated_groups(gv, key@, now as int));
        }
    }

    /// Look up the group row carrying the key.
    #[verifier::loop_isolation(false)]
    fn find_group(&self, key: &Vec<u8>) -> (r: Option<usize>)
        requires
            self.wf(),
        ensures
            (r matches Some(i) ==> i < self.groups_v().len() && self.groups_v()[i as int].key
                == key@ && group_idx(self.groups_v(), key@) == i as int),
            r is None ==> !has_group(self.groups_v(), key@),
    {
        for i in 0..self.groups.len()
            invariant
                forall|j: int| 0 <= j < i ==> self.groups_v()[j].key != key@,
        {
            if bytes_eq(&self.groups[i].urls_hash, key) {
                proof {
                    assert(self.groups_v()[i as int].key == key@);
                    assert(has_group(self.groups_v(), key@));
                    let gi = group_idx(self.groups_v(), key@);
                    assert(0 <= gi < self.groups_v().len() && self.groups_v()[gi].key == key@);
                    lemma_unique_group_key(self.groups_v(), gi, i as int);
                }
                return Some(i);
            }
        }
        None
    }

    /// Whether the group is inside its wait window at `now`.
    pub fn is_feed_group_waiting(&self, group: &FeedGroup, now: i64) -> (r: bool)
        requires
            self.wf(),
            now >= 0,
            group.settings.interval_secs >= 0,
        ensures
            r == spec_waiting(
                self.groups_v(),
                group.urls_hash@,
                spec_cutoff(now as int, group.settings.interval_secs as int),
            ),
    {
        let cutoff = cutoff_time(now, group.settings.interval_secs);
        match self.find_group(&group.urls_hash) {
            Option::Some(i) => self.groups[i].last_check > cutoff,
            Option::None => false,
        }
    }

    /// The scheduler's claim: one atomic step that reports `NewFeed`,
    /// `NewCriteria`, `Update` or `Wait` for the group at `now` and encodes
    /// the claim in the tables — inserting the row on first observation,
    /// advancing `last_check` on success, resetting the group's dedup
    /// ledger when the criteria changed, and touching nothing on `Wait`.
    #[verifier::loop_isolation(false)]
    pub fn try_check_feed_group(&mut self, group: &FeedGroup, now: i64) -> (r: FeedStatus)
        requires
            old(self).wf(),
            now >= 0,
            group.settings.interval_secs >= 0,
        ensures
            final(self).wf(),
            r == claim_status(
                old(self).groups_v(),
                group.urls_hash@,
                group.criteria_hash@,
                spec_cutoff(now as int, group.settings.interval_secs as int),
            ),
            final(self).groups_v() == groups_after_claim(
                old(self).groups_v(),
                group.urls_hash@,
                group.criteria_hash@,
                now as int,
                spec_cutoff(now as int, group.settings.interval_secs as int),
            ),
            final(self).items_v() == items_after_claim(old(self).items_v(), group.urls_hash@, r),
            final(self).failures_v() == old(self).failures_v(),
    {
        let ghost gv: Seq<GroupRowV> = self.groups_v();
        let ghost key: Seq<u8> = group.urls_hash@;
        let ghost criteria: Seq<u8> = group.criteria_hash@;
        let cutoff = cutoff_time(now, group.settings.interval_secs);
        match self.find_group(&group.urls_hash) {
            Option::None => {
                let row = GroupRow {
                    urls_hash: clone_bytes(&group.urls_hash),
                    criteria_hash: clone_bytes(&group.criteria_hash),
                    last_check: now,
                    last_update: None,
                    last_seen: now,
                };
                self.groups.push(row);
                proof {
                    assert(self.groups_v() =~= groups_after_claim(
                        gv,
                        key,
                        criteria,
                        now as int,
                        cutoff as int,
                    ));
                }
                FeedStatus::NewFeed
            },
            Option::Some(i) => {
                if self.groups[i].last_check >= cutoff {
                    return FeedStatus::Wait;
                }
                let changed = !bytes_eq(&self.groups[i].criteria_hash, &group.criteria_hash);
                let ghost status: FeedStatus = claim_status(gv, key, criteria, cutoff as int);
                proof {
                    assert(status == if changed {
                        FeedStatus::NewCriteria
                    } else {
                        FeedStatus::Update
                    });
                }
                let mut out: Vec<GroupRow> = Vec::new();
                for j in 0..self.groups.len()
                    invariant
                        out@.map_values(|r: GroupRow| r@) =~= groups_after_claim(
                            gv,
                            key,
                            criteria,
                            now as int,
                            cutoff as int,
                        ).take(j as int),
                {
                    let row = &self.groups[j];
                    if bytes_eq(&row.urls_hash, &group.urls_hash) {
                        out.push(
                            GroupRow {
                                urls_hash: clone_bytes(&row.urls_hash),
                                criteria_hash: clone_bytes(&group.criteria_hash),
                                last_check: now,
                                last_update: row.last_update,
                                last_seen: row.last_seen,
                            },
                        );
                    } else {
                        out.push(clone_group_row(row));
                    }
                    proof {
                        assert(out@.map_values(|r: GroupRow| r@) =~= groups_after_claim(
                            gv,
                            key,
                            criteria,
                            now as int,
                            cutoff as int,
                        ).take(j + 1));
                    }
                }
                self.groups = out;
                proof {
                    let after = groups_after_claim(gv, key, criteria, now as int, cutoff as int);
                    assert(after.take(gv.len() as int) =~= after);
                    assert(self.groups_v() =~= after);
                }
                if changed {
                    self.reset_group_items(&group.urls_hash);
                    FeedStatus::NewCriteria
                } else {
                    FeedStatus::Update
                }
            },
        }
    }

    /// Delete every ledger row of the group: the dedup reset on a criteria
    /// change.
    #[verifier::loop_isolation(false)]
    fn reset_group_items(&mut self, key: &Vec<u8>)
        requires
            old(self).wf(),
        ensures
            final(self).wf(),
            final(self).items_v() == old(self).items_v().filter(|it: ItemRowV| it.key != key@),
            final(self).groups_v() == old(self).groups_v(),
            final(self).failures_v() == old(self).failures_v(),
    {
        let ghost iv: Seq<ItemRowV> = self.items_v();
        let ghost pred = |it: ItemRowV| it.key != key@;
        let mut out: Vec<ItemRow> = Vec::new();
        for i in 0..self.items.len()
            invariant
                out@.map_values(|r: ItemRow| r@) =~= iv.take(i as int).filter(pred),
        {
            let row = &self.items[i];
            proof {
                reveal(Seq::filter);
                assert(iv.take(i + 1).drop_last() =~= iv.take(i as int));
            }
            if !bytes_eq(&row.urls_hash, key) {
                out.push(clone_item_row(row));
            }
            proof {
                assert(out@.map_values(|r: ItemRow| r@) =~= iv.take(i + 1).filter(pred));
            }
        }
        self.items = out;
        proof {
            assert(iv.take(iv.len() as int) =~= iv);
            assert(self.items_v() =~= iv.filter(pred));
            lemma_items_filter_unique(iv, pred);
        }
    }
}

impl Store {
    /// Look up the ledger row carrying the key pair.
    #[verifier::loop_isolation(false)]
    fn find_item(&self, key: &Vec<u8>, update: &Vec<u8>) -> (r: Option<usize>)
        requires
            self.wf(),
        ensures
            (r matches Some(i) ==> i < self.items_v().len() && self.items_v()[i as int].key == key@
                && self.items_v()[i as int].update == update@),
            r is None ==> !has_item(self.items_v(), key@, update@),
    {
        for i in 0..self.items.len()
            invariant
                forall|j: int|
                    0 <= j < i ==> !(self.items_v()[j].key == key@ && self.items_v()[j].update
                        == update@),
        {
            if bytes_eq(&self.items[i].urls_hash, key) && bytes_eq(
                &self.items[i].update_hash,
                update,
            ) {
                return Some(i);
            }
        }
        None
    }

    /// Upsert the item into the dedup ledger and report whether it was
    /// fresh: true exactly when no row carried the key pair, in which case
    /// a row is inserted; a known row only has `last_seen` refreshed.
    #[verifier::loop_isolation(false)]
    pub fn upsert_and_check_item_new(
        &mut self,
        key: &Vec<u8>,
        update_hash: &Vec<u8>,
        now: i64,
    ) -> (r: bool)
        requires
            old(self).wf(),
        ensures
            final(self).wf(),
            r == !has_item(old(self).items_v(), key@, update_hash@),
            final(self).items_v() == items_after_upsert(
                old(self).items_v(),
                key@,
                update_hash@,
                now as int,
            ),
            final(self).groups_v() == old(self).groups_v(),
            final(self).failures_v() == old(self).failures_v(),
    {
        let ghost iv: Seq<ItemRowV> = self.items_v();
        match self.find_item(key, update_hash) {
            Option::None => {
                let row = ItemRow {
                    urls_hash: clone_bytes(key),
                    update_hash: clone_bytes(update_hash),
                    last_seen: now,
                };
                self.items.push(row);
                proof {
                    assert(self.items_v() =~= items_after_upsert(
                        iv,
                        key@,
                        update_hash@,
                        now as int,
                    ));
                }
                true
            },
            Option::Some(_) => {
                proof {
                    assert(has_item(iv, key@, update_hash@));
                }
                let mut out: Vec<ItemRow> = Vec::new();
                for i in 0..self.items.len()
                    invariant
                        out@.map_values(|r: ItemRow| r@) =~= items_after_upsert(
                            iv,
                            key@,
                            update_hash@,
                            now as int,
                        ).take(i as int),
                {
                    let row = &self.items[i];
                    if bytes_eq(&row.urls_hash, key) && bytes_eq(&row.update_hash, update_hash) {
                        let mut updated = clone_item_row(row);
                        updated.last_seen = now;
                        out.push(updated);
                    } else {
                        out.push(clone_item_row(row));
                    }
                    proof {
                        assert(out@.map_values(|r: ItemRow| r@) =~= items_after_upsert(
                            iv,
                            key@,
                            update_hash@,
                            now as int,
                        ).take(i + 1));
                    }
                }
                self.items = out;
                proof {
                    let after = items_after_upsert(iv, key@, update_hash@, now as int);
                    assert(after.take(iv.len() as int) =~= after);
                    assert(self.items_v() =~= after);
                }
                false
            },
        }
    }

    /// Drop the group's ledger rows that were last seen before the cutoff.
    #[verifier::loop_isolation(false)]
    pub fn delete_old_items(&mut self, key: &Vec<u8>, keep_old: i64, now: i64)
        requires
            old(self).wf(),
            now >= 0,
            keep_old >= 0,
        ensures
            final(self).wf(),
            final(self).items_v() == items_after_retention(
                old(self).items_v(),
                key@,
                spec_cutoff(now as int, keep_old as int),
            ),
            final(self).groups_v() == old(self).groups_v(),
            final(self).failures_v() == old(self).failures_v(),
    {
        let cutoff = cutoff_time(now, keep_old);
        let ghost iv: Seq<ItemRowV> = self.items_v();
        let ghost pred = |it: ItemRowV| !(it.key == key@ && it.last_seen < cutoff as int);
        let mut out: Vec<ItemRow> = Vec::new();
        for i in 0..self.items.len()
            invariant
                out@.map_values(|r: ItemRow| r@) =~= iv.take(i as int).filter(pred),
        {
            let row = &self.items[i];
            proof {
                reveal(Seq::filter);
                assert(iv.take(i + 1).drop_last() =~= iv.take(i as int));
            }
            if !(bytes_eq(&row.urls_hash, key) && row.last_seen < cutoff) {
                out.push(clone_item_row(row));
            }
            proof {
                assert(out@.map_values(|r: ItemRow| r@) =~= iv.take(i + 1).filter(pred));
            }
        }
        self.items = out;
        proof {
            assert(iv.take(iv.len() as int) =~= iv);
            assert(self.items_v() =~= iv.filter(pred));
            lemma_items_filter_unique(iv, pred);
            assert(self.items_v() =~= items_after_retention(
                iv,
                key@,
                spec_cutoff(now as int, keep_old as int),
            ));
        }
    }

    /// Drop the group's failure row: a successful cycle clears its record.
    #[verifier::loop_isolation(false)]
    pub fn clear_failure(&mut self, key: &Vec<u8>)
        requires
            old(self).wf(),
        ensures
            final(self).wf(),
            final(self).failures_v() == failures_without(old(self).failures_v(), key@),
            final(self).groups_v() == old(self).groups_v(),
            final(self).items_v() == old(self).items_v(),
    {
        let ghost fv: Seq<FailureRowV> = self.failures_v();
        let ghost pred = |f: FailureRowV| f.key != key@;
        let mut out: Vec<FailureRow> = Vec::new();
        for i in 0..self.failures.len()
            invariant
                out@.map_values(|r: FailureRow| r@) =~= fv.take(i as int).filter(pred),
        {
            let row = &self.failures[i];
            proof {
                reveal(Seq::filter);
                assert(fv.take(i + 1).drop_last() =~= fv.take(i as int));
            }
            if !bytes_eq(&row.urls_hash, key) {
                out.push(clone_failure_row(row));
            }
            proof {
                assert(out@.map_values(|r: FailureRow| r@) =~= fv.take(i + 1).filter(pred));
            }
        }
        self.failures = out;
        proof {
            assert(fv.take(fv.len() as int) =~= fv);
            assert(self.failures_v() =~= fv.filter(pred));
            lemma_failures_filter_unique(fv, pred);
        }
    }

    /// Record a failed cycle for the group: its counter rises by one, the
    /// error text and failure time are replaced; the first failure opens
    /// the row with count 1.
    #[verifier::loop_isolation(false)]
    pub fn record_failure(&mut self, key: &Vec<u8>, error: String, now: i64)
        requires
            old(self).wf(),
        ensures
            final(self).wf(),
            final(self).failures_v() == failures_after_record(
                old(self).failures_v(),
                key@,
                error@,
                now as int,
            ),
            final(self).groups_v() == old(self).groups_v(),
            final(self).items_v() == old(self).items_v(),
    {
        let ghost fv: Seq<FailureRowV> = self.failures_v();
        let found = self.has_failure_row(key);
        if !found {
            let row = FailureRow {
                urls_hash: clone_bytes(key),
                fail_count: 1,
                error,
                fail_time: now,
            };
            self.failures.push(row);
            proof {
                assert(self.failures_v() =~= failures_after_record(fv, key@, error@, now as int));
            }
        } else {
            proof {
                assert(has_failure(fv, key@));
            }
            let mut out: Vec<FailureRow> = Vec::new();
            for i in 0..self.failures.len()
                invariant
                    out@.map_values(|r: FailureRow| r@) =~= failures_after_record(
                        fv,
                        key@,
                        error@,
                        now as int,
                    ).take(i as int),
            {
                let row = &self.failures[i];
                if bytes_eq(&row.urls_hash, key) {
                    let bumped: u64 = if row.fail_count < u64::MAX {
                        row.fail_count + 1
                    } else {
                        row.fail_count
                    };
                    out.push(
                        FailureRow {
                            urls_hash: clone_bytes(&row.urls_hash),
                            fail_count: bumped,
                            error: error.clone(),
                            fail_time: now,
                        },
                    );
                } else {
                    out.push(clone_failure_row(row));
                }
                proof {
                    assert(out@.map_values(|r: FailureRow| r@) =~= failures_after_record(
                        fv,
                        key@,
                        error@,
                        now as int,
                    ).take(i + 1));
                }
            }
            self.failures = out;
            proof {
                let after = failures_after_record(fv, key@, error@, now as int);
                assert(after.take(fv.len() as int) =~= after);
                assert(self.failures_v() =~= after);
            }
        }
    }

    /// Whether the failure table holds a row for the key.
    #[verifier::loop_isolation(false)]
    fn has_failure_row(&self, key: &Vec<u8>) -> (r: bool)
        ensures
            r == has_failure(self.failures_v(), key@),
    {
        for i in 0..self.failures.len()
            invariant
                forall|j: int| 0 <= j < i ==> self.failures_v()[j].key != key@,
        {
            if bytes_eq(&self.failures[i].urls_hash, key) {
                proof {
                    assert(self.failures_v()[i as int].key == key@);
                }
                return true;
            }
        }
        false
    }

    /// Drop failure rows whose last failure fell behind the cutoff.
    #[verifier::loop_isolation(false)]
    pub fn delete_old_failures(&mut self, keep_old: i64, now: i64)
        requires
            old(self).wf(),
            now >= 0,
            keep_old >= 0,
        ensures
            final(self).wf(),
            final(self).failures_v() == failures_after_retention(
                old(self).failures_v(),
                spec_cutoff(now as int, keep_old as int),
            ),
            final(self).groups_v() == old(self).groups_v(),
            final(self).items_v() == old(self).items_v(),
    {
        let cutoff = cutoff_time(now, keep_old);
        let ghost fv: Seq<FailureRowV> = self.failures_v();
        let ghost pred = |f: FailureRowV| f.fail_time >= cutoff as int;
        let mut out: Vec<FailureRow> = Vec::new();
        for i in 0..self.failures.len()
            invariant
                out@.map_values(|r: FailureRow| r@) =~= fv.take(i as int).filter(pred),
        {
            let row = &self.failures[i];
            proof {
                reveal(Seq::filter);
                assert(fv.take(i + 1).drop_last() =~= fv.take(i as int));
            }
            if row.fail_time >= cutoff {
                out.push(clone_failure_row(row));
            }
            proof {
                assert(out@.map_values(|r: FailureRow| r@) =~= fv.take(i + 1).filter(pred));
            }
        }
        self.failures = out;
        proof {
            assert(fv.take(fv.len() as int) =~= fv);
            assert(self.failures_v() =~= fv.filter(pred));
            lemma_failures_filter_unique(fv, pred);
        }
    }

    /// Garbage-collect groups that fell behind the cutoff and left the
    /// live configuration, cascading their ledger rows.
    #[verifier::loop_isolation(false)]
    pub fn delete_old_groups(&mut self, keep_old: i64, now: i64, live: &Vec<Vec<u8>>)
        requires
            old(self).wf(),
            now >= 0,
            keep_old >= 0,
        ensures
            final(self).wf(),
            final(self).groups_v() == groups_after_gc(
                old(self).groups_v(),
                spec_cutoff(now as int, keep_old as int),
                keys_of(live@),
            ),
            final(self).items_v() == items_after_gc(
                old(self).items_v(),
                old(self).groups_v(),
                spec_cutoff(now as int, keep_old as int),
                keys_of(live@),
            ),
            final(self).failures_v() == old(self).failures_v(),
    {
        let cutoff = cutoff_time(now, keep_old);
        let ghost gv: Seq<GroupRowV> = self.groups_v();
        let ghost iv: Seq<ItemRowV> = self.items_v();
        let ghost lv: Seq<Seq<u8>> = keys_of(live@);
        let ghost ipred = |it: ItemRowV| !key_removed(gv, cutoff as int, lv, it.key);
        let mut kept_items: Vec<ItemRow> = Vec::new();
        for i in 0..self.items.len()
            invariant
                kept_items@.map_values(|r: ItemRow| r@) =~= iv.take(i as int).filter(ipred),
        {
            let row = &self.items[i];
            proof {
                reveal(Seq::filter);
                assert(iv.take(i + 1).drop_last() =~= iv.take(i as int));
            }
            if !self.group_key_removed(cutoff, live, &row.urls_hash) {
                kept_items.push(clone_item_row(row));
            }
            proof {
                assert(kept_items@.map_values(|r: ItemRow| r@) =~= iv.take(i + 1).filter(ipred));
            }
        }
        let ghost gpred = |g: GroupRowV| !stale_group(g, cutoff as int, lv);
        let mut kept_groups: Vec<GroupRow> = Vec::new();
        for i in 0..self.groups.len()
            invariant
                kept_groups@.map_values(|r: GroupRow| r@) =~= gv.take(i as int).filter(gpred),
        {
            let row = &self.groups[i];
            proof {
                reveal(Seq::filter);
                assert(gv.take(i + 1).drop_last() =~= gv.take(i as int));
            }
            if !(row.last_seen < cutoff && !contains_key(live, &row.urls_hash)) {
                kept_groups.push(clone_group_row(row));
            }
            proof {
                assert(kept_groups@.map_values(|r: GroupRow| r@) =~= gv.take(i + 1).filter(
                    gpred,
                ));
            }
        }
        self.items = kept_items;
        self.groups = kept_groups;
        proof {
            assert(iv.take(iv.len() as int) =~= iv);
            assert(gv.take(gv.len() as int) =~= gv);
            assert(self.items_v() =~= iv.filter(ipred));
            assert(self.groups_v() =~= gv.filter(gpred));
            lemma_items_filter_unique(iv, ipred);
            lemma_groups_filter_unique(gv, gpred);
        }
    }

    /// Whether garbage collection at the cutoff removes the group with the
    /// key.
    #[verifier::loop_isolation(false)]
    fn group_key_removed(&self, cutoff: i64, live: &Vec<Vec<u8>>, key: &Vec<u8>) -> (r: bool)
        ensures
            r == key_removed(self.groups_v(), cutoff as int, keys_of(live@), key@),
    {
        for i in 0..self.groups.len()
            invariant
                forall|j: int|
                    0 <= j < i ==> !(self.groups_v()[j].key == key@ && stale_group(
                        self.groups_v()[j],
                        cutoff as int,
                        keys_of(live@),
                    )),
        {
            let row = &self.groups[i];
            if bytes_eq(&row.urls_hash, key) && row.last_seen < cutoff && !contains_key(
                live,
                &row.urls_hash,
            ) {
                proof {
                    assert(self.groups_v()[i as int].key == key@ && stale_group(
                        self.groups_v()[i as int],
                        cutoff as int,
                        keys_of(live@),
                    ));
                }
                return true;
            }
        }
        false
    }

    /// The failing groups: key and recorded error of every row with at
    /// least two consecutive failures, in table order.
    #[verifier::loop_isolation(false)]
    pub fn get_failing_feeds(&self) -> (r: Vec<(Vec<u8>, String)>)
        ensures
            pairs_of(r@) == failing_pairs(self.failures_v()),
    {
        let ghost fv: Seq<FailureRowV> = self.failures_v();
        let ghost pred = |f: FailureRowV| f.fail_count >= 2;
        let mut out: Vec<(Vec<u8>, String)> = Vec::new();
        let ghost fun = |f: FailureRowV| (f.key, f.error);
        for i in 0..self.failures.len()
            invariant
                pairs_of(out@) == fv.take(i as int).filter(pred).map_values(fun),
        {
            let row = &self.failures[i];
            let ghost prev = fv.take(i as int).filter(pred);
            if row.fail_count >= 2 {
                let key_copy = clone_bytes(&row.urls_hash);
                let err_copy = row.error.clone();
                let ghost old_out = out@;
                let ghost t = (key_copy@, err_copy@);
                out.push((key_copy, err_copy));
                proof {
                    reveal(Seq::filter);
                    assert(fv.take(i + 1).drop_last() =~= fv.take(i as int));
                    assert(fv.take(i + 1).filter(pred) =~= prev.push(fv[i as int]));
                    assert(pairs_of(out@) =~= pairs_of(old_out).push(t));
                    assert(t == fun(fv[i as int]));
                    assert(fv.take(i + 1).filter(pred).map_values(fun) =~= prev.map_values(
                        fun,
                    ).push(fun(fv[i as int])));
                    assert(pairs_of(out@) == fv.take(i + 1).filter(pred).map_values(fun));
                }
            } else {
                proof {
                    reveal(Seq::filter);
                    assert(fv.take(i + 1).drop_last() =~= fv.take(i as int));
                    assert(fv.take(i + 1).filter(pred) =~= prev);
                    assert(pairs_of(out@) == fv.take(i + 1).filter(pred).map_values(fun));
                }
            }
        }
        proof {
            assert(fv.take(fv.len() as int) =~= fv);
            assert(failing_pairs(fv) == failing_rows(fv).map_values(fun));
        }
        out
    }
}

/// The mathematical value of a key-and-error list.
pub open spec fn pairs_of(s: Seq<(Vec<u8>, String)>) -> Seq<(Seq<u8>, Seq<char>)> {
    s.map_values(|p: (Vec<u8>, String)| (p.0@, p.1@))
}

/// Key and error of every failing row, in table order.
pub open spec fn failing_pairs(failures: Seq<FailureRowV>) -> Seq<(Seq<u8>, Seq<char>)> {
    failing_rows(failures).map_values(|f: FailureRowV| (f.key, f.error))
}

/// Whether the key list holds the key, over the concrete list.
fn contains_key(live: &Vec<Vec<u8>>, key: &Vec<u8>) -> (r: bool)
    ensures
        r == live_contains(keys_of(live@), key@),
{
    for i in 0..live.len()
        invariant
            forall|j: int| 0 <= j < i ==> keys_of(live@)[j] != key@,
    {
        if bytes_eq(&live[i], key) {
            proof {
                assert(keys_of(live@)[i as int] == key@);
            }
            return true;
        }
    }
    false
}

/// The ledger after an upsert of the key pair: the row's `last_seen` is
/// refreshed where it exists, else a fresh row is appended.
pub open spec fn items_after_upsert(
    items: Seq<ItemRowV>,
    key: Seq<u8>,
    update: Seq<u8>,
    now: int,
) -> Seq<ItemRowV> {
    if has_item(items, key, update) {
        Seq::new(
            items.len(),
            |i: int|
                if items[i].key == key && items[i].update == update {
                    ItemRowV { last_seen: now, ..items[i] }
                } else {
                    items[i]
                },
        )
    } else {
        items.push(ItemRowV { key: key, update: update, last_seen: now })
    }
}

/// The ledger of one group after retention: rows of the group not seen
/// since the cutoff are gone.
pub open spec fn items_after_retention(
    items: Seq<ItemRowV>,
    key: Seq<u8>,
    cutoff: int,
) -> Seq<ItemRowV> {
    items.filter(|it: ItemRowV| !(it.key == key && it.last_seen < cutoff))
}

/// The failure table without the group's row.
pub open spec fn failures_without(failures: Seq<FailureRowV>, key: Seq<u8>) -> Seq<FailureRowV> {
    failures.filter(|f: FailureRowV| f.key != key)
}

/// The failure table after retention: rows whose last failure fell behind
/// the cutoff are gone.
pub open spec fn failures_after_retention(
    failures: Seq<FailureRowV>,
    cutoff: int,
) -> Seq<FailureRowV> {
    failures.filter(|f: FailureRowV| f.fail_time >= cutoff)
}

/// A count one higher, capped at the counter's width.
pub open spec fn bumped_count(c: int) -> int {
    if c < 0xffff_ffff_ffff_ffff {
        c + 1
    } else {
        c
    }
}

/// The failure table after recording a failure: the group's counter rises
/// by one and its error text and failure time are replaced; a group without
/// a row gets one with count 1.
pub open spec fn failures_after_record(
    failures: Seq<FailureRowV>,
    key: Seq<u8>,
    error: Seq<char>,
    now: int,
) -> Seq<FailureRowV> {
    if has_failure(failures, key) {
        Seq::new(
            failures.len(),
            |i: int|
                if failures[i].key == key {
                    FailureRowV {
                        key: failures[i].key,
                        fail_count: bumped_count(failures[i].fail_count),
                        error: error,
                        fail_time: now,
                    }
                } else {
                    failures[i]
                },
        )
    } else {
        failures.push(FailureRowV { key: key, fail_count: 1, error: error, fail_time: now })
    }
}

/// The mathematical value of a key list.
pub open spec fn keys_of(live: Seq<Vec<u8>>) -> Seq<Seq<u8>> {
    live.map_values(|v: Vec<u8>| v@)
}

/// Whether the key list holds the key.
pub open spec fn live_contains(live: Seq<Seq<u8>>, key: Seq<u8>) -> bool {
    exists|i: int| 0 <= i < live.len() && live[i] == key
}

/// Whether the group row is garbage: not seen since the cutoff, and its key
/// is no longer in the live configuration.
pub open spec fn stale_group(g: GroupRowV, cutoff: int, live: Seq<Seq<u8>>) -> bool {
    g.last_seen < cutoff && !live_contains(live, g.key)
}

/// The group table after garbage collection.
pub open spec fn groups_after_gc(
    groups: Seq<GroupRowV>,
    cutoff: int,
    live: Seq<Seq<u8>>,
) -> Seq<GroupRowV> {
    groups.filter(|g: GroupRowV| !stale_group(g, cutoff, live))
}

/// Whether garbage collection removes the group carrying the key.
pub open spec fn key_removed(
    groups: Seq<GroupRowV>,
    cutoff: int,
    live: Seq<Seq<u8>>,
    key: Seq<u8>,
) -> bool {
    exists|i: int|
        0 <= i < groups.len() && groups[i].key == key && stale_group(groups[i], cutoff, live)
}

/// The ledger after garbage collection: rows of removed groups cascade.
pub open spec fn items_after_gc(
    items: Seq<ItemRowV>,
    groups: Seq<GroupRowV>,
    cutoff: int,
    live: Seq<Seq<u8>>,
) -> Seq<ItemRowV> {
    items.filter(|it: ItemRowV| !key_removed(groups, cutoff, live, it.key))
}

/// The failing rows: those with at least two consecutive failures.
pub open spec fn failing_rows(failures: Seq<FailureRowV>) -> Seq<FailureRowV> {
    failures.filter(|f: FailureRowV| f.fail_count >= 2)
}

/// Scheduler compare-and-swap: once a claim for a group has succeeded,
/// every further claim for it within the group's interval answers `Wait`
/// and leaves the group table as it stands — whatever criteria digest the
/// later claim carries.
pub proof fn lemma_scheduler_cas(
    groups: Seq<GroupRowV>,
    key: Seq<u8>,
    criteria1: Seq<u8>,
    criteria2: Seq<u8>,
    interval: int,
    now1: int,
    now2: int,
)
    requires
        groups_unique(groups),
        0 <= now1 <= now2,
        0 <= interval,
        now2 < now1 + interval,
        claim_status(groups, key, criteria1, spec_cutoff(now1, interval)) != FeedStatus::Wait,
    ensures
        claim_status(
            groups_after_claim(groups, key, criteria1, now1, spec_cutoff(now1, interval)),
            key,
            criteria2,
            spec_cutoff(now2, interval),
        ) == FeedStatus::Wait,
        groups_after_claim(
            groups_after_claim(groups, key, criteria1, now1, spec_cutoff(now1, interval)),
            key,
            criteria2,
            now2,
            spec_cutoff(now2, interval),
        ) == groups_after_claim(groups, key, criteria1, now1, spec_cutoff(now1, interval)),
{
    let cutoff1 = spec_cutoff(now1, interval);
    let cutoff2 = spec_cutoff(now2, interval);
    let after = groups_after_claim(groups, key, criteria1, now1, cutoff1);
    if !has_group(groups, key) {
        assert(after == groups.push(
            GroupRowV {
                key: key,
                criteria: criteria1,
                last_check: now1,
                last_update: None,
                last_seen: now1,
            },
        ));
        assert(after[groups.len() as int].key == key);
        assert(has_group(after, key));
        let gi = group_idx(after, key);
        assert(0 <= gi < after.len() && after[gi].key == key);
        assert(groups_unique(after)) by {
            assert forall|i: int, j: int|
                0 <= i < j < after.len() implies after[i].key != after[j].key by {
                if j < groups.len() {
                    assert(after[i] == groups[i] && after[j] == groups[j]);
                } else {
                    assert(after[i] == groups[i]);
                    if after[i].key == key {
                        assert(has_group(groups, key)) by {
                            assert(groups[i].key == key);
                        }
                    }
                }
            }
        }
        lemma_unique_group_key(after, gi, groups.len() as int);
        assert(after[gi].last_check == now1);
        assert(after[gi].last_check >= cutoff2);
    } else {
        let i0 = group_idx(groups, key);
        assert(0 <= i0 < groups.len() && groups[i0].key == key);
        assert(after.len() == groups.len());
        assert(after[i0].key == key && after[i0].last_check == now1);
        assert(has_group(after, key));
        let gi = group_idx(after, key);
        assert(0 <= gi < after.len() && after[gi].key == key);
        assert(groups_unique(after)) by {
            assert forall|i: int, j: int|
                0 <= i < j < after.len() implies after[i].key != after[j].key by {
                assert(after[i].key == groups[i].key && after[j].key == groups[j].key);
            }
        }
        lemma_unique_group_key(after, gi, i0);
        assert(after[gi].last_check >= cutoff2);
    }
}

/// Dedup idempotence: after the upsert that reported the key pair fresh,
/// the pair is in the ledger, so the next upsert — the next cycle seeing
/// the same item — reports it known, whatever the two cycles' clocks read.
pub proof fn lemma_dedup_idempotence(
    items: Seq<ItemRowV>,
    key: Seq<u8>,
    update: Seq<u8>,
    now1: int,
    now2: int,
)
    requires
        items_unique(items),
    ensures
        has_item(items_after_upsert(items, key, update, now1), key, update),
        !(!has_item(items, key, update) && !has_item(
            items_after_upsert(items, key, update, now1),
            key,
            update,
        )),
{
    let after = items_after_upsert(items, key, update, now1);
    if has_item(items, key, update) {
        let i0 = item_idx(items, key, update);
        assert(0 <= i0 < items.len() && items[i0].key == key && items[i0].update == update);
        assert(after[i0].key == key && after[i0].update == update);
    } else {
        assert(after[items.len() as int].key == key && after[items.len() as int].update
            == update);
    }
}

/// A criteria change resets the ledger: after a `NewCriteria` claim no row
/// of the group survives, so each matching item's next upsert reports it
/// fresh — it is re-emitted — and from then on the pair is back in the
/// ledger, so it is re-emitted exactly once.
pub proof fn lemma_criteria_change_resets(
    items: Seq<ItemRowV>,
    key: Seq<u8>,
    update: Seq<u8>,
    now: int,
)
    requires
        items_unique(items),
    ensures
        !has_item(items_after_claim(items, key, FeedStatus::NewCriteria), key, update),
        items_unique(items_after_claim(items, key, FeedStatus::NewCriteria)),
        has_item(
            items_after_upsert(
                items_after_claim(items, key, FeedStatus::NewCriteria),
                key,
                update,
                now,
            ),
            key,
            update,
        ),
{
    let pred = |it: ItemRowV| it.key != key;
    let cleared = items_after_claim(items, key, FeedStatus::NewCriteria);
    assert(cleared == items.filter(pred));
    lemma_items_filter_unique(items, pred);
    if has_item(cleared, key, update) {
        let i = item_idx(cleared, key, update);
        assert(0 <= i < cleared.len() && cleared[i].key == key);
        assert(cleared.contains(cleared[i]));
        assert(pred(cleared[i]));
    }
    lemma_dedup_idempotence(cleared, key, update, now, now);
}

/// Retention: once a group has fallen behind the cutoff and left the live
/// configuration, garbage collection removes its scheduling row, and the
/// cascade removes every dedup-ledger row of the group.
pub proof fn lemma_retention(
    groups: Seq<GroupRowV>,
    items: Seq<ItemRowV>,
    cutoff: int,
    live: Seq<Seq<u8>>,
    key: Seq<u8>,
)
    requires
        groups_unique(groups),
        items_unique(items),
        key_removed(groups, cutoff, live, key),
    ensures
        !has_group(groups_after_gc(groups, cutoff, live), key),
        forall|update: Seq<u8>| !has_item(items_after_gc(items, groups, cutoff, live), key, update),
{
    let gpred = |g: GroupRowV| !stale_group(g, cutoff, live);
    let ipred = |it: ItemRowV| !key_removed(groups, cutoff, live, it.key);
    lemma_groups_filter_unique(groups, gpred);
    lemma_items_filter_unique(items, ipred);
    let kept = groups_after_gc(groups, cutoff, live);
    if has_group(kept, key) {
        let i = group_idx(kept, key);
        assert(0 <= i < kept.len() && kept[i].key == key);
        assert(kept.contains(kept[i]));
        assert(groups.contains(kept[i]) && gpred(kept[i]));
        let j = choose|j: int| 0 <= j < groups.len() && groups[j] == kept[i];
        let j0 = choose|j0: int|
            0 <= j0 < groups.len() && groups[j0].key == key && stale_group(
                groups[j0],
                cutoff,
                live,
            );
        lemma_unique_group_key(groups, j, j0);
        assert(false);
    }
    assert forall|update: Seq<u8>|
        !has_item(items_after_gc(items, groups, cutoff, live), key, update) by {
        let left = items_after_gc(items, groups, cutoff, live);
        if has_item(left, key, update) {
            let i = item_idx(left, key, update);
            assert(0 <= i < left.len() && left[i].key == key);
            assert(left.contains(left[i]));
            assert(ipred(left[i]));
        }
    }
}

/// Two group rows carrying the same key stand at the same index.
pub proof fn lemma_unique_group_key(groups: Seq<GroupRowV>, i: int, j: int)
    requires
        groups_unique(groups),
        0 <= i < groups.len(),
        0 <= j < groups.len(),
        groups[i].key == groups[j].key,
    ensures
        i == j,
{
    if i < j {
        assert(groups[i].key != groups[j].key);
    }
    if j < i {
        assert(groups[j].key != groups[i].key);
    }
}

/// Filtering a ledger with unique key pairs keeps them unique, and keeps
/// exactly the rows the predicate admits.
pub proof fn lemma_items_filter_unique(s: Seq<ItemRowV>, pred: spec_fn(ItemRowV) -> bool)
    requires
        items_unique(s),
    ensures
        items_unique(s.filter(pred)),
        forall|x: ItemRowV| #[trigger] s.filter(pred).contains(x) ==> s.contains(x) && pred(x),
        forall|x: ItemRowV| s.contains(x) && pred(x) ==> s.filter(pred).contains(x),
    decreases s.len(),
{
    reveal(Seq::filter);
    if s.len() > 0 {
        let init = s.drop_last();
        let last = s.last();
        assert(items_unique(init)) by {
            assert(forall|i: int|
                0 <= i < init.len() ==> init[i] == s[i]);
        }
        lemma_items_filter_unique(init, pred);
        assert(forall|x: ItemRowV| init.contains(x) ==> s.contains(x)) by {
            assert forall|x: ItemRowV| init.contains(x) implies s.contains(x) by {
                let i = choose|i: int| 0 <= i < init.len() && init[i] == x;
                assert(s[i] == x);
            }
        }
        assert forall|x: ItemRowV| s.contains(x) && pred(x) implies s.filter(pred).contains(
            x,
        ) by {
            let i = choose|i: int| 0 <= i < s.len() && s[i] == x;
            if i < s.len() - 1 {
                assert(init[i] == x);
                assert(init.contains(x));
                assert(init.filter(pred).contains(x));
                let j = choose|j: int|
                    0 <= j < init.filter(pred).len() && init.filter(pred)[j] == x;
                if pred(last) {
                    assert(s.filter(pred)[j] == x);
                } else {
                    assert(s.filter(pred)[j] == x);
                }
            } else {
                assert(x == last);
                if pred(last) {
                    assert(s.filter(pred).last() == x);
                }
            }
        }
        assert forall|x: ItemRowV| #[trigger] s.filter(pred).contains(x) implies s.contains(x)
            && pred(x) by {
            let t = init.filter(pred);
            if pred(last) {
                assert(s.filter(pred) == t.push(last));
                let j = choose|j: int| 0 <= j < s.filter(pred).len() && s.filter(pred)[j] == x;
                if j < t.len() {
                    assert(t[j] == x);
                    assert(t.contains(x));
                } else {
                    assert(x == last);
                    assert(s[s.len() - 1] == last);
                }
            } else {
                assert(s.filter(pred) == t);
                assert(t.contains(x));
            }
        }
        if pred(last) {
            let t = init.filter(pred);
            assert(s.filter(pred) == t.push(last));
            assert(items_unique(t.push(last))) by {
                assert forall|i: int, j: int|
                    0 <= i < j < t.push(last).len() implies !(t.push(last)[i].key == t.push(
                    last,
                )[j].key && t.push(last)[i].update == t.push(last)[j].update) by {
                    if j < t.len() {
                        assert(t.push(last)[i] == t[i] && t.push(last)[j] == t[j]);
                    } else {
                        assert(t.push(last)[j] == last);
                        assert(t.push(last)[i] == t[i]);
                        assert(t.contains(t[i]));
                        assert(init.contains(t[i]));
                        let p = choose|p: int| 0 <= p < init.len() && init[p] == t[i];
                        assert(s[p] == t[i] && s[s.len() - 1] == last);
                    }
                }
            }
        }
    }
}

/// Filtering a group table with unique keys keeps them unique, and keeps
/// exactly the rows the predicate admits.
pub proof fn lemma_groups_filter_unique(s: Seq<GroupRowV>, pred: spec_fn(GroupRowV) -> bool)
    requires
        groups_unique(s),
    ensures
        groups_unique(s.filter(pred)),
        forall|x: GroupRowV| #[trigger] s.filter(pred).contains(x) ==> s.contains(x) && pred(x),
        forall|x: GroupRowV| s.contains(x) && pred(x) ==> s.filter(pred).contains(x),
    decreases s.len(),
{
    reveal(Seq::filter);
    if s.len() > 0 {
        let init = s.drop_last();
        let last = s.last();
        assert(groups_unique(init)) by {
            assert(forall|i: int| 0 <= i < init.len() ==> init[i] == s[i]);
        }
        lemma_groups_filter_unique(init, pred);
        assert(forall|x: GroupRowV| init.contains(x) ==> s.contains(x)) by {
            assert forall|x: GroupRowV| init.contains(x) implies s.contains(x) by {
                let i = choose|i: int| 0 <= i < init.len() && init[i] == x;
                assert(s[i] == x);
            }
        }
        assert forall|x: GroupRowV| s.contains(x) && pred(x) implies s.filter(pred).contains(
            x,
        ) by {
            let i = choose|i: int| 0 <= i < s.len() && s[i] == x;
            if i < s.len() - 1 {
                assert(init[i] == x);
                assert(init.contains(x));
                assert(init.filter(pred).contains(x));
                let j = choose|j: int|
                    0 <= j < init.filter(pred).len() && init.filter(pred)[j] == x;
                assert(s.filter(pred)[j] == x);
            } else {
                assert(x == last);
                if pred(last) {
                    assert(s.filter(pred).last() == x);
                }
            }
        }
        assert forall|x: GroupRowV| #[trigger] s.filter(pred).contains(x) implies s.contains(x)
            && pred(x) by {
            let t = init.filter(pred);
            if pred(last) {
                assert(s.filter(pred) == t.push(last));
                let j = choose|j: int| 0 <= j < s.filter(pred).len() && s.filter(pred)[j] == x;
                if j < t.len() {
                    assert(t[j] == x);
                    assert(t.contains(x));
                } else {
                    assert(x == last);
                    assert(s[s.len() - 1] == last);
                }
            } else {
                assert(s.filter(pred) == t);
                assert(t.contains(x));
            }
        }
        if pred(last) {
            let t = init.filter(pred);
            assert(s.filter(pred) == t.push(last));
            assert(groups_unique(t.push(last))) by {
                assert forall|i: int, j: int|
                    0 <= i < j < t.push(last).len() implies t.push(last)[i].key != t.push(
                    last,
                )[j].key by {
                    if j < t.len() {
                        assert(t.push(last)[i] == t[i] && t.push(last)[j] == t[j]);
                    } else {
                        assert(t.push(last)[j] == last);
                        assert(t.push(last)[i] == t[i]);
                        assert(t.contains(t[i]));
                        assert(init.contains(t[i]));
                        let p = choose|p: int| 0 <= p < init.len() && init[p] == t[i];
                        assert(s[p] == t[i] && s[s.len() - 1] == last);
                    }
                }
            }
        }
    }
}

/// Filtering a failure table with unique keys keeps them unique, and keeps
/// exactly the rows the predicate admits.
pub proof fn lemma_failures_filter_unique(s: Seq<FailureRowV>, pred: spec_fn(FailureRowV) -> bool)
    requires
        failures_unique(s),
    ensures
        failures_unique(s.filter(pred)),
        forall|x: FailureRowV| #[trigger] s.filter(pred).contains(x) ==> s.contains(x) && pred(x),
        forall|x: FailureRowV| s.contains(x) && pred(x) ==> s.filter(pred).contains(x),
    decreases s.len(),
{
    reveal(Seq::filter);
    if s.len() > 0 {
        let init = s.drop_last();
        let last = s.last();
        assert(failures_unique(init)) by {
            assert(forall|i: int| 0 <= i < init.len() ==> init[i] == s[i]);
        }
        lemma_failures_filter_unique(init, pred);
        assert(forall|x: FailureRowV| init.contains(x) ==> s.contains(x)) by {
            assert forall|x: FailureRowV| init.contains(x) implies s.contains(x) by {
                let i = choose|i: int| 0 <= i < init.len() && init[i] == x;
                assert(s[i] == x);
            }
        }
        assert forall|x: FailureRowV| s.contains(x) && pred(x) implies s.filter(pred).contains(
            x,
        ) by {
            let i = choose|i: int| 0 <= i < s.len() && s[i] == x;
            if i < s.len() - 1 {
                assert(init[i] == x);
                assert(init.contains(x));
                assert(init.filter(pred).contains(x));
                let j = choose|j: int|
                    0 <= j < init.filter(pred).len() && init.filter(pred)[j] == x;
                assert(s.filter(pred)[j] == x);
            } else {
                assert(x == last);
                if pred(last) {
                    assert(s.filter(pred).last() == x);
                }
            }
        }
        assert forall|x: FailureRowV| #[trigger] s.filter(pred).contains(x) implies s.contains(x)
            && pred(x) by {
            let t = init.filter(pred);
            if pred(last) {
                assert(s.filter(pred) == t.push(last));
                let j = choose|j: int| 0 <= j < s.filter(pred).len() && s.filter(pred)[j] == x;
                if j < t.len() {
                    assert(t[j] == x);
                    assert(t.contains(x));
                } else {
                    assert(x == last);
                    assert(s[s.len() - 1] == last);
                }
            } else {
                assert(s.filter(pred) == t);
                assert(t.contains(x));
            }
        }
        if pred(last) {
            let t = init.filter(pred);
            assert(s.filter(pred) == t.push(last));
            assert(failures_unique(t.push(last))) by {
                assert forall|i: int, j: int|
                    0 <= i < j < t.push(last).len() implies t.push(last)[i].key != t.push(
                    last,
                )[j].key by {
                    if j < t.len() {
                        assert(t.push(last)[i] == t[i] && t.push(last)[j] == t[j]);
                    } else {
                        assert(t.push(last)[j] == last);
                        assert(t.push(last)[i] == t[i]);
                        assert(t.contains(t[i]));
                        assert(init.contains(t[i]));
                        let p = choose|p: int| 0 <= p < init.len() && init[p] == t[i];
                        assert(s[p] == t[i] && s[s.len() - 1] == last);
                    }
                }
            }
        }
    }
}

} // verus!
