//! The failure tracker: process-local debouncing of operator reports.
//!
//! Each cycle hands the tracker the currently failing groups.  The tracker
//! sorts them by group key, digests the sorted key list, and compares the
//! digest with the stored one: an unchanged failing set counts down a
//! debounce counter and asks for one report when it reaches its last step;
//! a changed set stores the new digest and rewinds the counter.  Sending is
//! the surrounding program's business; it confirms a sent report, which
//! parks the counter at zero.

use vstd::prelude::*;

verus! {

use crate::hashing::{blake3_of, hash_bytes, bytes_eq, append_bytes};

/// One failing group as the tracker sees it: its key, its URLs and its
/// recorded error.
#[derive(Debug)]
pub struct FailureEntry {
    pub urls_hash: Vec<u8>,
    pub urls: Vec<String>,
    pub error: String,
}

/// One mail ready for delivery.
#[derive(Debug)]
pub struct Mail {
    pub subject: String,
    pub body: String,
}

/// Lexicographic byte order.
pub open spec fn lex_le(a: Seq<u8>, b: Seq<u8>) -> bool
    decreases a.len(),
{
    if a.len() == 0 {
        true
    } else if b.len() == 0 {
        false
    } else if a[0] < b[0] {
        true
    } else if a[0] > b[0] {
        false
    } else {
        lex_le(a.drop_first(), b.drop_first())
    }
}

/// The order is total.
pub proof fn lemma_lex_total(a: Seq<u8>, b: Seq<u8>)
    ensures
        lex_le(a, b) || lex_le(b, a),
    decreases a.len(),
{
    if a.len() > 0 && b.len() > 0 && a[0] == b[0] {
        lemma_lex_total(a.drop_first(), b.drop_first());
    }
}

/// The order is transitive.
pub proof fn lemma_lex_trans(a: Seq<u8>, b: Seq<u8>, c: Seq<u8>)
    requires
        lex_le(a, b),
        lex_le(b, c),
    ensures
        lex_le(a, c),
    decreases a.len(),
{
    if a.len() > 0 {
        if b.len() > 0 && c.len() > 0 && a[0] == b[0] && b[0] == c[0] {
            lemma_lex_trans(a.drop_first(), b.drop_first(), c.drop_first());
        }
    }
}

/// Compare two byte vectors in lexicographic order.
#[verifier::loop_isolation(false)]
pub fn bytes_le(a: &Vec<u8>, b: &Vec<u8>) -> (r: bool)
    ensures
        r == lex_le(a@, b@),
{
    let mut i: usize = 0;
    proof {
        assert(a@.skip(0) =~= a@);
        assert(b@.skip(0) =~= b@);
    }
    loop
        invariant
            i <= a@.len(),
            i <= b@.len(),
            lex_le(a@, b@) == lex_le(a@.skip(i as int), b@.skip(i as int)),
        decreases a@.len() - i,
    {
        if i == a.len() {
            proof {
                assert(a@.skip(i as int) =~= Seq::<u8>::empty());
            }
            return true;
        }
        if i == b.len() {
            proof {
                assert(b@.skip(i as int) =~= Seq::<u8>::empty());
                assert(a@.skip(i as int).len() > 0);
            }
            return false;
        }
        let x = a[i];
        let y = b[i];
        proof {
            assert(a@.skip(i as int)[0] == a@[i as int]);
            assert(b@.skip(i as int)[0] == b@[i as int]);
        }
        if x < y {
            return true;
        }
        if x > y {
            return false;
        }
        proof {
            assert(a@.skip(i as int).drop_first() =~= a@.skip(i + 1));
            assert(b@.skip(i as int).drop_first() =~= b@.skip(i + 1));
        }
        i = i + 1;
    }
}

/// Whether the entries stand in key order.
pub open spec fn sorted_by_hash(entries: Seq<FailureEntry>) -> bool {
    forall|i: int, j: int|
        0 <= i < j < entries.len() ==> lex_le(entries[i].urls_hash@, entries[j].urls_hash@)
}

/// Sort the failing set by group key: the canonical order the set digest
/// is computed in.  The result is a reordering holding the same entries.
#[verifier::loop_isolation(false)]
pub fn sort_failures(entries: Vec<FailureEntry>) -> (r: Vec<FailureEntry>)
    ensures
        sorted_by_hash(r@),
        r@.to_multiset() == entries@.to_multiset(),
{
    let mut src = entries;
    let mut out: Vec<FailureEntry> = Vec::new();
    proof {
        broadcast use vstd::seq_lib::group_to_multiset_ensures;
        broadcast use vstd::multiset::group_multiset_axioms;

        assert(out@.to_multiset() =~= vstd::multiset::Multiset::<FailureEntry>::empty()) by {
            assert forall|a: FailureEntry| out@.to_multiset().count(a) == 0 by {
                assert(!out@.contains(a));
            }
        }
        assert(out@.to_multiset().add(src@.to_multiset()) =~= entries@.to_multiset());
    }
    loop
        invariant
            sorted_by_hash(out@),
            out@.to_multiset().add(src@.to_multiset()) == entries@.to_multiset(),
        decreases src@.len(),
    {
        let ghost old_src = src@;
        match src.pop() {
            Option::None => {
                proof {
                    broadcast use vstd::seq_lib::group_to_multiset_ensures;
                    broadcast use vstd::multiset::group_multiset_axioms;

                    assert(src@.to_multiset() =~= vstd::multiset::Multiset::<
                        FailureEntry,
                    >::empty()) by {
                        assert forall|a: FailureEntry| src@.to_multiset().count(a) == 0 by {
                            assert(!src@.contains(a));
                        }
                    }
                    assert(out@.to_multiset() =~= entries@.to_multiset());
                }
                return out;
            },
            Option::Some(e) => {
                let ghost popped = e;
                let mut p: usize = 0;
                while p < out.len() && bytes_le(&out[p].urls_hash, &e.urls_hash)
                    invariant
                        p <= out@.len(),
                        forall|q: int|
                            0 <= q < p ==> lex_le(out@[q].urls_hash@, popped.urls_hash@),
                    decreases out@.len() - p,
                {
                    p = p + 1;
                }
                let ghost old_out = out@;
                out.insert(p, e);
                proof {
                    broadcast use vstd::seq_lib::group_to_multiset_ensures;
                    broadcast use vstd::multiset::group_multiset_axioms;

                    crate::engine::lemma_insert_to_multiset(old_out, p as int, popped);
                    assert(old_src =~= src@.push(popped));
                    assert(old_src.to_multiset() == src@.to_multiset().insert(popped));
                    assert(out@.to_multiset().add(src@.to_multiset()) =~= entries@.to_multiset());
                    assert(sorted_by_hash(out@)) by {
                        assert forall|i: int, j: int|
                            0 <= i < j < out@.len() implies lex_le(
                            out@[i].urls_hash@,
                            out@[j].urls_hash@,
                        ) by {
                            if i < p && j == p {
                                assert(out@[i] == old_out[i]);
                            } else if i == p && j > p {
                                assert(out@[j] == old_out[j - 1]);
                                lemma_lex_total(
                                    old_out[p as int].urls_hash@,
                                    popped.urls_hash@,
                                );
                                if p < j - 1 {
                                    lemma_lex_trans(
                                        popped.urls_hash@,
                                        old_out[p as int].urls_hash@,
                                        old_out[j - 1].urls_hash@,
                                    );
                                }
                            } else if i < p && j > p {
                                assert(out@[i] == old_out[i] && out@[j] == old_out[j - 1]);
                            } else if i > p && j > p {
                                assert(out@[i] == old_out[i - 1] && out@[j] == old_out[j - 1]);
                            } else {
                                assert(i < p && j < p);
                                assert(out@[i] == old_out[i] && out@[j] == old_out[j]);
                            }
                        }
                    }
                }
            },
        }
    }
}

/// The group keys of the entries, concatenated in order.
pub open spec fn concat_keys(entries: Seq<FailureEntry>) -> Seq<u8>
    decreases entries.len(),
{
    if entries.len() == 0 {
        Seq::empty()
    } else {
        concat_keys(entries.drop_last()) + entries.last().urls_hash@
    }
}

/// The digest naming a failing set: the hash of its concatenated group
/// keys, in the order given.
pub open spec fn failing_digest(entries: Seq<FailureEntry>) -> Seq<u8> {
    blake3_of(concat_keys(entries))
}

/// Digest the failing set in the order given.
#[verifier::loop_isolation(false)]
pub fn failing_set_digest(entries: &Vec<FailureEntry>) -> (r: Vec<u8>)
    ensures
        r@ == failing_digest(entries@),
{
    let mut buf: Vec<u8> = Vec::new();
    for i in 0..entries.len()
        invariant
            buf@ == concat_keys(entries@.take(i as int)),
    {
        append_bytes(&mut buf, entries[i].urls_hash.as_slice());
        proof {
            assert(entries@.take(i + 1).drop_last() =~= entries@.take(i as int));
        }
    }
    proof {
        assert(entries@.take(entries@.len() as int) =~= entries@);
    }
    hash_bytes(buf.as_slice())
}

/// The initial debounce count a changed failing set starts from.
pub const DEBOUNCE_TIMES: u8 = 5;

/// One step of the debounce machine: on an unchanged digest the counter
/// counts down, asking for a report at its last step and resting at zero;
/// a changed digest is stored and rewinds the counter.  The result is the
/// stored digest, the counter, and whether to send a report.
pub open spec fn spec_next(stored: Seq<u8>, count: int, digest: Seq<u8>) -> (Seq<u8>, int, bool) {
    if digest == stored {
        if count == 0 {
            (stored, 0, false)
        } else if count == 1 {
            (stored, 1, true)
        } else {
            (stored, count - 1, false)
        }
    } else {
        (digest, DEBOUNCE_TIMES as int, false)
    }
}

/// The tracker's state: the digest of the last failing set, the debounce
/// counter, and the operator mailboxes reports go to.
pub struct FailureTracker {
    failing_hash: Vec<u8>,
    debounce_count: u8,
    report_to: Vec<String>,
}

impl FailureTracker {
    /// The stored digest of the failing set.
    pub closed spec fn digest_v(self) -> Seq<u8> {
        self.failing_hash@
    }

    /// The debounce counter.
    pub closed spec fn count_v(self) -> int {
        self.debounce_count as int
    }

    /// The operator mailboxes.
    pub closed spec fn report_to_v(self) -> Seq<String> {
        self.report_to@
    }

    /// The counter never exceeds its initial value.
    pub open spec fn wf(self) -> bool {
        self.count_v() <= DEBOUNCE_TIMES as int
    }

    /// A fresh tracker: the digest of the empty set, a parked counter, no
    /// recipients.
    pub fn new() -> (r: FailureTracker)
        ensures
            r.wf(),
            r.digest_v() == blake3_of(Seq::<u8>::empty()),
            r.count_v() == 0,
            r.report_to_v() == Seq::<String>::empty(),
    {
        let empty: Vec<u8> = Vec::new();
        let hash = hash_bytes(empty.as_slice());
        let r = FailureTracker { failing_hash: hash, debounce_count: 0, report_to: Vec::new() };
        proof {
            assert(empty@ =~= Seq::<u8>::empty());
            assert(r.report_to_v() =~= Seq::<String>::empty());
        }
        r
    }

    /// Replace the operator mailboxes, as a configuration reload does.
    pub fn set_report_to(&mut self, report_to: Vec<String>)
        requires
            old(self).wf(),
        ensures
            final(self).wf(),
            final(self).digest_v() == old(self).digest_v(),
            final(self).count_v() == old(self).count_v(),
            final(self).report_to_v() == report_to@,
    {
        self.report_to = report_to;
    }

    /// The operator mailboxes a report goes to.
    pub fn report_recipients(&self) -> (r: &Vec<String>)
        ensures
            r@ == self.report_to_v(),
    {
        &self.report_to
    }

    /// Feed the tracker one cycle's failing set.  The set comes back
    /// sorted by group key, and the step of the debounce machine on its
    /// digest says whether to send a report now.
    pub fn record(&mut self, failures: Vec<FailureEntry>) -> (r: (Vec<FailureEntry>, bool))
        requires
            old(self).wf(),
        ensures
            final(self).wf(),
            sorted_by_hash(r.0@),
            r.0@.to_multiset() == failures@.to_multiset(),
            ({
                let step = spec_next(
                    old(self).digest_v(),
                    old(self).count_v(),
                    failing_digest(r.0@),
                );
                final(self).digest_v() == step.0 && final(self).count_v() == step.1 && r.1
                    == step.2
            }),
            final(self).report_to_v() == old(self).report_to_v(),
    {
        let sorted = sort_failures(failures);
        let digest = failing_set_digest(&sorted);
        if bytes_eq(&digest, &self.failing_hash) {
            if self.debounce_count == 0 {
                (sorted, false)
            } else if self.debounce_count == 1 {
                (sorted, true)
            } else {
                self.debounce_count = self.debounce_count - 1;
                (sorted, false)
            }
        } else {
            self.failing_hash = digest;
            self.debounce_count = DEBOUNCE_TIMES;
            (sorted, false)
        }
    }

    /// Confirm that the report the last step asked for went out: the
    /// counter parks at zero.
    pub fn report_sent(&mut self)
        requires
            old(self).wf(),
        ensures
            final(self).wf(),
            final(self).digest_v() == old(self).digest_v(),
            final(self).count_v() == 0,
            final(self).report_to_v() == old(self).report_to_v(),
    {
        self.debounce_count = 0;
    }
}

/// The tracker's state after `n` cycles that all present the digest `d`,
/// each asked-for report being confirmed at once.
pub open spec fn ticks(stored: Seq<u8>, count: int, d: Seq<u8>, n: nat) -> (Seq<u8>, int)
    decreases n,
{
    if n == 0 {
        (stored, count)
    } else {
        let prev = ticks(stored, count, d, (n - 1) as nat);
        let step = spec_next(prev.0, prev.1, d);
        if step.2 {
            (step.0, 0)
        } else {
            (step.0, step.1)
        }
    }
}

/// The state an unchanged failing set drives the tracker through: the
/// digest is stored on the first cycle, and the counter counts 5, 4, 3, 2,
/// 1, then parks at zero once the report went out.
pub proof fn lemma_ticks_state(stored: Seq<u8>, count: int, d: Seq<u8>, n: nat)
    requires
        stored != d,
        n >= 1,
    ensures
        ticks(stored, count, d, n).0 == d,
        ticks(stored, count, d, n).1 == if n <= 5 {
            6 - n
        } else {
            0int
        },
    decreases n,
{
    if n == 1 {
        assert(ticks(stored, count, d, 0) == (stored, count));
    } else {
        lemma_ticks_state(stored, count, d, (n - 1) as nat);
    }
}

/// Failure debounce: a failing set that stays identical produces exactly
/// one report, on the cycle where the counter reaches its last step — the
/// sixth consecutive cycle presenting the set, counting the one that first
/// saw it change.
pub proof fn lemma_failure_debounce(stored: Seq<u8>, count: int, d: Seq<u8>, k: nat)
    requires
        stored != d,
        k >= 1,
    ensures
        spec_next(
            ticks(stored, count, d, (k - 1) as nat).0,
            ticks(stored, count, d, (k - 1) as nat).1,
            d,
        ).2 <==> k == 6,
{
    if k >= 2 {
        lemma_ticks_state(stored, count, d, (k - 1) as nat);
    }
}

/// A changed failing set restarts the countdown: the step on a digest that
/// differs from the stored one sends nothing, stores the new digest, and
/// rewinds the counter to its initial value.
pub proof fn lemma_change_restarts(stored: Seq<u8>, count: int, d: Seq<u8>)
    requires
        d != stored,
    ensures
        !spec_next(stored, count, d).2,
        spec_next(stored, count, d).0 == d,
        spec_next(stored, count, d).1 == DEBOUNCE_TIMES as int,
{
}

/// The URLs of one entry joined with `", "`.
pub open spec fn joined_urls(urls: Seq<String>, i: int) -> Seq<char>
    decreases urls.len() - i,
{
    if i < 0 || i >= urls.len() {
        Seq::empty()
    } else if i == urls.len() - 1 {
        urls[i]@
    } else {
        urls[i]@ + ", "@ + joined_urls(urls, i + 1)
    }
}

/// The report line of one failing group.
pub open spec fn failure_item_html(e: FailureEntry) -> Seq<char> {
    "<li>URLs: "@ + joined_urls(e.urls@, 0) + "<br><blockquote><pre>"@ + e.error@
        + "</pre></blockquote></li>"@
}

/// The report lines of the failing groups from index `i` on.
pub open spec fn failure_items_html(entries: Seq<FailureEntry>, i: int) -> Seq<char>
    decreases entries.len() - i,
{
    if i < 0 || i >= entries.len() {
        Seq::empty()
    } else {
        failure_item_html(entries[i]) + failure_items_html(entries, i + 1)
    }
}

/// The body of a failure report.
pub open spec fn failure_report_body(entries: Seq<FailureEntry>, now_str: Seq<char>) -> Seq<
    char,
> {
    "<div>Failing feeds ("@ + now_str + "):<ul>"@ + failure_items_html(entries, 0)
        + "</ul></div>"@
}

/// The body of a recovery report.
pub open spec fn recovery_body(now_str: Seq<char>) -> Seq<char> {
    "All feeds are back to normal now ("@ + now_str + ")."@
}

/// Build the operator mail for the failing set: a recovery note when the
/// set is empty, else one listed line per failing group.  `now_str` is the
/// caller's rendering of the current time.
#[verifier::loop_isolation(false)]
pub fn build_failure_report(failures: &Vec<FailureEntry>, now_str: &str) -> (r: Mail)
    ensures
        failures@.len() == 0 ==> r.subject@ == "\u{2705} All feeds are working"@ && r.body@
            == recovery_body(now_str@),
        failures@.len() > 0 ==> r.subject@ == "\u{1f534} Error processing feeds"@ && r.body@
            == failure_report_body(failures@, now_str@),
{
    if failures.len() == 0 {
        let mut body = String::from_str("All feeds are back to normal now (");
        body.append(now_str);
        body.append(").");
        Mail { subject: String::from_str("\u{2705} All feeds are working"), body }
    } else {
        let mut body = String::from_str("<div>Failing feeds (");
        body.append(now_str);
        body.append("):<ul>");
        for i in 0..failures.len()
            invariant
                body@ + failure_items_html(failures@, i as int) == "<div>Failing feeds ("@
                    + now_str@ + "):<ul>"@ + failure_items_html(failures@, 0),
        {
            body.append("<li>URLs: ");
            let urls = &failures[i].urls;
            for j in 0..urls.len()
                invariant
                    i < failures@.len(),
                    urls@ == failures@[i as int].urls@,
                    body@ + joined_urls(urls@, j as int) + "<br><blockquote><pre>"@
                        + failures@[i as int].error@ + "</pre></blockquote></li>"@
                        + failure_items_html(failures@, i + 1) == "<div>Failing feeds ("@
                        + now_str@ + "):<ul>"@ + failure_items_html(failures@, 0),
            {
                body.append(urls[j].as_str());
                if j + 1 < urls.len() {
                    body.append(", ");
                }
            }
            body.append("<br><blockquote><pre>");
            body.append(failures[i].error.as_str());
            body.append("</pre></blockquote></li>");
        }
        body.append("</ul></div>");
        Mail { subject: String::from_str("\u{1f534} Error processing feeds"), body }
    }
}

} // verus!
