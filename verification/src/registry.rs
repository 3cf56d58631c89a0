//! The batch registry: a keyed store of open batches and their pending
//! flush timers.
//!
//! One registry value holds, for each live destination key, the open
//! batch and the generation of the timer armed for it.  The two stores
//! are kept in step: a key has an open batch exactly when a timer is
//! scheduled for it.  Every stored batch respects the embed cap, so any
//! batch that leaves the registry — by timer expiry, capacity trigger or
//! shutdown drain — merges to an outbound payload within the cap.
//!
//! Timers are identified by generation: arming or re-arming a timer for
//! a key hands out a fresh generation, and a firing consumes the batch
//! only when it presents the generation currently armed.  A timer
//! superseded by a later append therefore finds the registry changed and
//! does nothing, which resolves every cancellation race at the single
//! point where the batch is taken.

use vstd::prelude::*;
use vstd::multiset::Multiset;
use vstd::seq_lib::group_to_multiset_ensures;
use core::mem::swap;
use crate::merge::{embed_sum, lemma_embed_sum_push, lemma_embed_sum_take_le, lemma_embed_sum_take_step, lemma_merge_embeds, merge_seq};
use crate::parts::{PartsModel, WebhookParts};
use crate::payload::{PayloadModel, WebhookPayload};

verus! {

/// One open batch: the destination, the wall-clock instant (in
/// milliseconds since the epoch) at which its first payload arrived,
/// and the payloads in arrival order.
pub struct WebhookBatch {
    pub parts: WebhookParts,
    pub created: u64,
    pub payloads: Vec<WebhookPayload>,
}

/// The mathematical value of an open batch.
pub ghost struct BatchModel {
    pub parts: PartsModel,
    pub created: u64,
    pub payloads: Seq<PayloadModel>,
}

impl View for WebhookBatch {
    type V = BatchModel;

    open spec fn view(&self) -> BatchModel {
        BatchModel {
            parts: self.parts@,
            created: self.created,
            payloads: self.payloads.deep_view(),
        }
    }
}

impl DeepView for WebhookBatch {
    type V = BatchModel;

    open spec fn deep_view(&self) -> BatchModel {
        self.view()
    }
}

/// The timer armed for a destination key, identified by generation.
pub struct TimerEntry {
    pub parts: WebhookParts,
    pub generation: u64,
}

/// The mathematical value of an armed timer.
pub ghost struct TimerModel {
    pub parts: PartsModel,
    pub generation: u64,
}

impl View for TimerEntry {
    type V = TimerModel;

    open spec fn view(&self) -> TimerModel {
        TimerModel { parts: self.parts@, generation: self.generation }
    }
}

impl DeepView for TimerEntry {
    type V = TimerModel;

    open spec fn deep_view(&self) -> TimerModel {
        self.view()
    }
}

/// Whether a sequence of batches has pairwise distinct destination keys.
pub open spec fn batches_distinct(s: Seq<BatchModel>) -> bool {
    forall|i: int, j: int| 0 <= i < j < s.len() ==> s[i].parts != s[j].parts
}

/// Whether some batch in the sequence is keyed by `k`.
pub open spec fn batches_contain(s: Seq<BatchModel>, k: PartsModel) -> bool {
    exists|i: int| 0 <= i < s.len() && s[i].parts == k
}

/// The index of the batch keyed by `k`.
pub open spec fn batch_index(s: Seq<BatchModel>, k: PartsModel) -> int {
    choose|i: int| 0 <= i < s.len() && s[i].parts == k
}

/// The batch keyed by `k`.
pub open spec fn batch_lookup(s: Seq<BatchModel>, k: PartsModel) -> BatchModel {
    s[batch_index(s, k)]
}

/// Whether a sequence of timers has pairwise distinct destination keys.
pub open spec fn timers_distinct(s: Seq<TimerModel>) -> bool {
    forall|i: int, j: int| 0 <= i < j < s.len() ==> s[i].parts != s[j].parts
}

/// Whether some timer in the sequence is armed for `k`.
pub open spec fn timers_contain(s: Seq<TimerModel>, k: PartsModel) -> bool {
    exists|i: int| 0 <= i < s.len() && s[i].parts == k
}

/// The index of the timer armed for `k`.
pub open spec fn timer_index(s: Seq<TimerModel>, k: PartsModel) -> int {
    choose|i: int| 0 <= i < s.len() && s[i].parts == k
}

/// The generation of the timer armed for `k`.
pub open spec fn timer_lookup(s: Seq<TimerModel>, k: PartsModel) -> u64 {
    s[timer_index(s, k)].generation
}

/// The multiset of all payloads held by a sequence of batches.  Sent
/// through every operation, it shows that an acknowledged payload is
/// neither dropped nor duplicated while it sits in the registry.
pub open spec fn payloads_of(s: Seq<BatchModel>) -> Multiset<PayloadModel>
    decreases s.len(),
{
    if s.len() == 0 {
        Multiset::empty()
    } else {
        payloads_of(s.drop_last()).add(s.last().payloads.to_multiset())
    }
}

/// The payloads of the batch a capacity trigger flushed, if any.
pub open spec fn flushed_payloads(flushed: Option<WebhookBatch>) -> Multiset<PayloadModel> {
    match flushed {
        Option::Some(b) => b@.payloads.to_multiset(),
        Option::None => Multiset::empty(),
    }
}

/// Appending a batch adds its payloads to the held multiset.
proof fn lemma_payloads_of_push(s: Seq<BatchModel>, b: BatchModel)
    ensures
        payloads_of(s.push(b)) == payloads_of(s).add(b.payloads.to_multiset()),
{
    assert(s.push(b).drop_last() =~= s);
    assert(s.push(b).last() == b);
}

/// Replacing the batch at an index exchanges its payloads for the new
/// batch's payloads in the held multiset.
proof fn lemma_payloads_of_update(s: Seq<BatchModel>, i: int, b: BatchModel)
    requires
        0 <= i < s.len(),
    ensures
        payloads_of(s.update(i, b)).add(s[i].payloads.to_multiset()) == payloads_of(s).add(
            b.payloads.to_multiset(),
        ),
    decreases s.len(),
{
    let t = s.update(i, b);
    if i == s.len() - 1 {
        assert(t.drop_last() =~= s.drop_last());
        assert(t.last() == b);
        assert(s.last() == s[i]);
        assert(payloads_of(t) == payloads_of(t.drop_last()).add(t.last().payloads.to_multiset()));
        assert(payloads_of(s) == payloads_of(s.drop_last()).add(s.last().payloads.to_multiset()));
        assert forall|x: PayloadModel| payloads_of(t).add(s[i].payloads.to_multiset()).count(x)
            == payloads_of(s).add(b.payloads.to_multiset()).count(x) by {
            assert(payloads_of(t).count(x) == payloads_of(s.drop_last()).count(x)
                + b.payloads.to_multiset().count(x));
            assert(payloads_of(s).count(x) == payloads_of(s.drop_last()).count(x)
                + s[i].payloads.to_multiset().count(x));
        }
        assert(payloads_of(t).add(s[i].payloads.to_multiset()) =~= payloads_of(s).add(
            b.payloads.to_multiset(),
        ));
    } else {
        assert(t.drop_last() =~= s.drop_last().update(i, b));
        assert(t.last() == s.last());
        assert(s.drop_last()[i] == s[i]);
        lemma_payloads_of_update(s.drop_last(), i, b);
        assert(payloads_of(t) == payloads_of(t.drop_last()).add(t.last().payloads.to_multiset()));
        assert(payloads_of(s) == payloads_of(s.drop_last()).add(s.last().payloads.to_multiset()));
        assert forall|x: PayloadModel| payloads_of(t).add(s[i].payloads.to_multiset()).count(x)
            == payloads_of(s).add(b.payloads.to_multiset()).count(x) by {
            assert(payloads_of(s.drop_last().update(i, b)).add(
                s.drop_last()[i].payloads.to_multiset(),
            ).count(x) == payloads_of(s.drop_last()).add(b.payloads.to_multiset()).count(x));
        }
        assert(payloads_of(t).add(s[i].payloads.to_multiset()) =~= payloads_of(s).add(
            b.payloads.to_multiset(),
        ));
    }
}

/// Removing the batch at an index takes exactly its payloads out of
/// the held multiset.
proof fn lemma_payloads_of_remove(s: Seq<BatchModel>, i: int)
    requires
        0 <= i < s.len(),
    ensures
        payloads_of(s.remove(i)).add(s[i].payloads.to_multiset()) == payloads_of(s),
    decreases s.len(),
{
    let t = s.remove(i);
    if i == s.len() - 1 {
        assert(t =~= s.drop_last());
        assert(s.last() == s[i]);
        assert(payloads_of(s) == payloads_of(s.drop_last()).add(s.last().payloads.to_multiset()));
        assert(payloads_of(t).add(s[i].payloads.to_multiset()) =~= payloads_of(s));
    } else {
        assert(t.drop_last() =~= s.drop_last().remove(i));
        assert(t.last() == s.last());
        assert(s.drop_last()[i] == s[i]);
        lemma_payloads_of_remove(s.drop_last(), i);
        assert(payloads_of(t) == payloads_of(t.drop_last()).add(t.last().payloads.to_multiset()));
        assert(payloads_of(s) == payloads_of(s.drop_last()).add(s.last().payloads.to_multiset()));
        assert forall|x: PayloadModel| payloads_of(t).add(s[i].payloads.to_multiset()).count(x)
            == payloads_of(s).count(x) by {
            assert(payloads_of(s.drop_last().remove(i)).add(
                s.drop_last()[i].payloads.to_multiset(),
            ).count(x) == payloads_of(s.drop_last()).count(x));
        }
        assert(payloads_of(t).add(s[i].payloads.to_multiset()) =~= payloads_of(s));
    }
}

/// In a distinct-keyed batch sequence, the entry at any index is the one
/// its key looks up.
proof fn lemma_batch_at(s: Seq<BatchModel>, i: int)
    requires
        batches_distinct(s),
        0 <= i < s.len(),
    ensures
        batches_contain(s, s[i].parts),
        batch_index(s, s[i].parts) == i,
        batch_lookup(s, s[i].parts) == s[i],
{
    assert(batches_contain(s, s[i].parts));
    let j = batch_index(s, s[i].parts);
    if i != j {
        assert(s[i].parts != s[j].parts);
    }
}

/// In a distinct-keyed timer sequence, the entry at any index is the one
/// its key looks up.
proof fn lemma_timer_at(s: Seq<TimerModel>, i: int)
    requires
        timers_distinct(s),
        0 <= i < s.len(),
    ensures
        timers_contain(s, s[i].parts),
        timer_index(s, s[i].parts) == i,
        timer_lookup(s, s[i].parts) == s[i].generation,
{
    assert(timers_contain(s, s[i].parts));
    let j = timer_index(s, s[i].parts);
    if i != j {
        assert(s[i].parts != s[j].parts);
    }
}

/// Removing the batch at one index leaves every other key's presence
/// and lookup unchanged.
proof fn lemma_batch_remove(s: Seq<BatchModel>, i: int, k: PartsModel)
    requires
        batches_distinct(s),
        0 <= i < s.len(),
        k != s[i].parts,
    ensures
        batches_distinct(s.remove(i)),
        batches_contain(s.remove(i), k) == batches_contain(s, k),
        batches_contain(s, k) ==> batch_lookup(s.remove(i), k) == batch_lookup(s, k),
{
    let t = s.remove(i);
    assert forall|a: int, b: int| 0 <= a < b < t.len() implies t[a].parts != t[b].parts by {
        let a0 = if a < i { a } else { a + 1 };
        let b0 = if b < i { b } else { b + 1 };
        assert(t[a] == s[a0] && t[b] == s[b0]);
    }
    if batches_contain(s, k) {
        let j = batch_index(s, k);
        lemma_batch_at(s, j);
        let j2 = if j < i { j } else { j - 1 };
        assert(t[j2] == s[j]);
        lemma_batch_at(t, j2);
    }
    if batches_contain(t, k) {
        let j = batch_index(t, k);
        let j0 = if j < i { j } else { j + 1 };
        assert(t[j] == s[j0]);
        assert(batches_contain(s, k));
    }
}

/// Removing the timer at one index leaves every other key's presence
/// and lookup unchanged.
proof fn lemma_timer_remove(s: Seq<TimerModel>, i: int, k: PartsModel)
    requires
        timers_distinct(s),
        0 <= i < s.len(),
        k != s[i].parts,
    ensures
        timers_distinct(s.remove(i)),
        timers_contain(s.remove(i), k) == timers_contain(s, k),
        timers_contain(s, k) ==> timer_lookup(s.remove(i), k) == timer_lookup(s, k),
{
    let t = s.remove(i);
    assert forall|a: int, b: int| 0 <= a < b < t.len() implies t[a].parts != t[b].parts by {
        let a0 = if a < i { a } else { a + 1 };
        let b0 = if b < i { b } else { b + 1 };
        assert(t[a] == s[a0] && t[b] == s[b0]);
    }
    if timers_contain(s, k) {
        let j = timer_index(s, k);
        lemma_timer_at(s, j);
        let j2 = if j < i { j } else { j - 1 };
        assert(t[j2] == s[j]);
        lemma_timer_at(t, j2);
    }
    if timers_contain(t, k) {
        let j = timer_index(t, k);
        let j0 = if j < i { j } else { j + 1 };
        assert(t[j] == s[j0]);
        assert(timers_contain(s, k));
    }
}

/// After removing the batch at an index, its key is gone.
proof fn lemma_batch_remove_self(s: Seq<BatchModel>, i: int)
    requires
        batches_distinct(s),
        0 <= i < s.len(),
    ensures
        !batches_contain(s.remove(i), s[i].parts),
        batches_distinct(s.remove(i)),
{
    let t = s.remove(i);
    if batches_contain(t, s[i].parts) {
        let j = choose|j: int| 0 <= j < t.len() && t[j].parts == s[i].parts;
        let j0 = if j < i { j } else { j + 1 };
        assert(t[j] == s[j0]);
    }
    assert forall|a: int, b: int| 0 <= a < b < t.len() implies t[a].parts != t[b].parts by {
        let a0 = if a < i { a } else { a + 1 };
        let b0 = if b < i { b } else { b + 1 };
        assert(t[a] == s[a0] && t[b] == s[b0]);
    }
}

/// After removing the timer at an index, its key is gone.
proof fn lemma_timer_remove_self(s: Seq<TimerModel>, i: int)
    requires
        timers_distinct(s),
        0 <= i < s.len(),
    ensures
        !timers_contain(s.remove(i), s[i].parts),
        timers_distinct(s.remove(i)),
{
    let t = s.remove(i);
    if timers_contain(t, s[i].parts) {
        let j = choose|j: int| 0 <= j < t.len() && t[j].parts == s[i].parts;
        let j0 = if j < i { j } else { j + 1 };
        assert(t[j] == s[j0]);
    }
    assert forall|a: int, b: int| 0 <= a < b < t.len() implies t[a].parts != t[b].parts by {
        let a0 = if a < i { a } else { a + 1 };
        let b0 = if b < i { b } else { b + 1 };
        assert(t[a] == s[a0] && t[b] == s[b0]);
    }
}

/// Pushing a batch with a fresh key keeps keys distinct, adds that key,
/// and leaves every other key's presence and lookup unchanged.
proof fn lemma_batch_push(s: Seq<BatchModel>, b: BatchModel)
    requires
        batches_distinct(s),
        !batches_contain(s, b.parts),
    ensures
        batches_distinct(s.push(b)),
        batches_contain(s.push(b), b.parts),
        batch_lookup(s.push(b), b.parts) == b,
        forall|k: PartsModel| k != b.parts ==> batches_contain(s.push(b), k)
            == batches_contain(s, k),
        forall|k: PartsModel| k != b.parts && batches_contain(s, k) ==> batch_lookup(
            s.push(b),
            k,
        ) == batch_lookup(s, k),
{
    let t = s.push(b);
    assert forall|a: int, c: int| 0 <= a < c < t.len() implies t[a].parts != t[c].parts by {
        if c < s.len() {
            assert(t[a] == s[a] && t[c] == s[c]);
        } else {
            assert(t[c] == b);
            assert(t[a] == s[a]);
            if s[a].parts == b.parts {
                assert(batches_contain(s, b.parts));
            }
        }
    }
    assert(t[s.len() as int] == b);
    lemma_batch_at(t, s.len() as int);
    assert forall|k: PartsModel| k != b.parts implies batches_contain(t, k) == batches_contain(
        s,
        k,
    ) by {
        if batches_contain(s, k) {
            let j = choose|j: int| 0 <= j < s.len() && s[j].parts == k;
            assert(t[j] == s[j]);
        }
        if batches_contain(t, k) {
            let j = choose|j: int| 0 <= j < t.len() && t[j].parts == k;
            assert(j < s.len());
            assert(s[j] == t[j]);
        }
    }
    assert forall|k: PartsModel| k != b.parts && batches_contain(s, k) implies batch_lookup(
        t,
        k,
    ) == batch_lookup(s, k) by {
        let j = batch_index(s, k);
        lemma_batch_at(s, j);
        assert(t[j] == s[j]);
        lemma_batch_at(t, j);
    }
}

/// Replacing the batch at an index by one with the same key keeps keys
/// distinct, updates that key's lookup, and leaves the rest unchanged.
proof fn lemma_batch_update(s: Seq<BatchModel>, i: int, b: BatchModel)
    requires
        batches_distinct(s),
        0 <= i < s.len(),
        b.parts == s[i].parts,
    ensures
        batches_distinct(s.update(i, b)),
        forall|k: PartsModel| batches_contain(s.update(i, b), k) == batches_contain(s, k),
        batch_lookup(s.update(i, b), b.parts) == b,
        forall|k: PartsModel| k != b.parts && batches_contain(s, k) ==> batch_lookup(
            s.update(i, b),
            k,
        ) == batch_lookup(s, k),
{
    let t = s.update(i, b);
    assert forall|a: int, c: int| 0 <= a < c < t.len() implies t[a].parts != t[c].parts by {
        assert(t[a].parts == s[a].parts && t[c].parts == s[c].parts);
    }
    assert forall|k: PartsModel| batches_contain(t, k) == batches_contain(s, k) by {
        assert(forall|j: int| 0 <= j < s.len() ==> (#[trigger] t[j]).parts == s[j].parts);
        if batches_contain(s, k) {
            let j = choose|j: int| 0 <= j < s.len() && s[j].parts == k;
            assert(t[j].parts == k);
        }
        if batches_contain(t, k) {
            let j = choose|j: int| 0 <= j < t.len() && t[j].parts == k;
            assert(s[j].parts == k);
        }
    }
    assert(t[i] == b);
    lemma_batch_at(t, i);
    assert forall|k: PartsModel| k != b.parts && batches_contain(s, k) implies batch_lookup(
        t,
        k,
    ) == batch_lookup(s, k) by {
        let j = batch_index(s, k);
        lemma_batch_at(s, j);
        assert(j != i);
        assert(t[j] == s[j]);
        lemma_batch_at(t, j);
    }
}

/// Pushing a timer with a fresh key keeps keys distinct, arms that key,
/// and leaves every other key's presence and lookup unchanged.
proof fn lemma_timer_push(s: Seq<TimerModel>, m: TimerModel)
    requires
        timers_distinct(s),
        !timers_contain(s, m.parts),
    ensures
        timers_distinct(s.push(m)),
        timers_contain(s.push(m), m.parts),
        timer_lookup(s.push(m), m.parts) == m.generation,
        forall|k: PartsModel| k != m.parts ==> timers_contain(s.push(m), k) == timers_contain(
            s,
            k,
        ),
        forall|k: PartsModel| k != m.parts && timers_contain(s, k) ==> timer_lookup(
            s.push(m),
            k,
        ) == timer_lookup(s, k),
{
    let t = s.push(m);
    assert forall|a: int, c: int| 0 <= a < c < t.len() implies t[a].parts != t[c].parts by {
        if c < s.len() {
            assert(t[a] == s[a] && t[c] == s[c]);
        } else {
            assert(t[c] == m);
            assert(t[a] == s[a]);
            if s[a].parts == m.parts {
                assert(timers_contain(s, m.parts));
            }
        }
    }
    assert(t[s.len() as int] == m);
    lemma_timer_at(t, s.len() as int);
    assert forall|k: PartsModel| k != m.parts implies timers_contain(t, k) == timers_contain(
        s,
        k,
    ) by {
        if timers_contain(s, k) {
            let j = choose|j: int| 0 <= j < s.len() && s[j].parts == k;
            assert(t[j] == s[j]);
        }
        if timers_contain(t, k) {
            let j = choose|j: int| 0 <= j < t.len() && t[j].parts == k;
            assert(j < s.len());
            assert(s[j] == t[j]);
        }
    }
    assert forall|k: PartsModel| k != m.parts && timers_contain(s, k) implies timer_lookup(
        t,
        k,
    ) == timer_lookup(s, k) by {
        let j = timer_index(s, k);
        lemma_timer_at(s, j);
        assert(t[j] == s[j]);
        lemma_timer_at(t, j);
    }
}

/// A pushed element extends the deep view of a vector.
proof fn lemma_deep_push<T: DeepView>(pre: Vec<T>, post: Vec<T>, x: T)
    requires
        post@ == pre@.push(x),
    ensures
        post.deep_view() == pre.deep_view().push(x.deep_view()),
{
    assert forall|j: int| 0 <= j < post.deep_view().len() implies post.deep_view()[j]
        == pre.deep_view().push(x.deep_view())[j] by {
        assert(post.deep_view()[j] == post@[j].deep_view());
        if j < pre@.len() {
            assert(post@[j] == pre@[j]);
            assert(pre.deep_view()[j] == pre@[j].deep_view());
        } else {
            assert(post@[j] == x);
        }
    }
    assert(post.deep_view() =~= pre.deep_view().push(x.deep_view()));
}

/// A removed element removes its entry from the deep view of a vector.
proof fn lemma_deep_remove<T: DeepView>(pre: Vec<T>, post: Vec<T>, i: int)
    requires
        0 <= i < pre@.len(),
        post@ == pre@.remove(i),
    ensures
        post.deep_view() == pre.deep_view().remove(i),
{
    assert forall|j: int| 0 <= j < post.deep_view().len() implies post.deep_view()[j]
        == pre.deep_view().remove(i)[j] by {
        assert(post.deep_view()[j] == post@[j].deep_view());
        if j < i {
            assert(post@[j] == pre@[j]);
            assert(pre.deep_view()[j] == pre@[j].deep_view());
        } else {
            assert(post@[j] == pre@[j + 1]);
            assert(pre.deep_view()[j + 1] == pre@[j + 1].deep_view());
        }
    }
    assert(post.deep_view() =~= pre.deep_view().remove(i));
}

/// An element replaced at one index updates that entry of the deep view.
proof fn lemma_deep_update<T: DeepView>(pre: Vec<T>, post: Vec<T>, i: int, x: T)
    requires
        0 <= i < pre@.len(),
        post@ == pre@.update(i, x),
    ensures
        post.deep_view() == pre.deep_view().update(i, x.deep_view()),
{
    assert forall|j: int| 0 <= j < post.deep_view().len() implies post.deep_view()[j]
        == pre.deep_view().update(i, x.deep_view())[j] by {
        assert(post.deep_view()[j] == post@[j].deep_view());
        if j != i {
            assert(post@[j] == pre@[j]);
            assert(pre.deep_view()[j] == pre@[j].deep_view());
        } else {
            assert(post@[j] == x);
        }
    }
    assert(post.deep_view() =~= pre.deep_view().update(i, x.deep_view()));
}

/// The synchronous acknowledgement for an accepted submission: the size
/// and creation instant of the batch after insertion, and the timer
/// generation armed for it.
pub struct BatchAck {
    pub size: usize,
    pub created: u64,
    pub generation: u64,
}

/// The registry of open batches and their armed timers, together with
/// the engine's configuration.
pub struct Registry {
    batches: Vec<WebhookBatch>,
    timers: Vec<TimerEntry>,
    embed_limit: usize,
    deliver_ms: u64,
    next_generation: u64,
}

impl Registry {
    /// The open batches, in no significant order.
    pub closed spec fn batch_models(self) -> Seq<BatchModel> {
        self.batches.deep_view()
    }

    /// The armed timers, in no significant order.
    pub closed spec fn timer_models(self) -> Seq<TimerModel> {
        self.timers.deep_view()
    }

    /// The cap on total embeds per outbound batch.
    pub closed spec fn spec_limit(self) -> nat {
        self.embed_limit as nat
    }

    /// The sliding flush window, in milliseconds.
    pub closed spec fn spec_deliver_ms(self) -> u64 {
        self.deliver_ms
    }

    /// The generation the next armed timer will receive.
    pub closed spec fn spec_next_generation(self) -> u64 {
        self.next_generation
    }

    /// The number of destination keys with an open batch.
    pub open spec fn entry_count(self) -> nat {
        self.batch_models().len()
    }

    /// Whether an open batch exists for this destination key.
    pub open spec fn spec_contains(self, k: PartsModel) -> bool {
        batches_contain(self.batch_models(), k)
    }

    /// The open batch for this destination key.
    pub open spec fn batch_of(self, k: PartsModel) -> BatchModel {
        batch_lookup(self.batch_models(), k)
    }

    /// Whether a flush timer is armed for this destination key.
    pub open spec fn timer_armed(self, k: PartsModel) -> bool {
        timers_contain(self.timer_models(), k)
    }

    /// The generation of the timer armed for this destination key.
    pub open spec fn timer_generation(self, k: PartsModel) -> u64 {
        timer_lookup(self.timer_models(), k)
    }

    /// What every stored batch satisfies: at least one payload, and a
    /// total embed count within the cap.
    pub open spec fn batch_wf(self, b: BatchModel) -> bool {
        &&& b.payloads.len() >= 1
        &&& embed_sum(b.payloads) <= self.spec_limit()
    }

    /// Well-formedness of the registry: keys are unique in both stores,
    /// a key has an open batch exactly when a timer is armed for it,
    /// every stored batch respects the embed cap, and every armed
    /// generation is in the past of the generation counter.
    pub open spec fn wf(self) -> bool {
        &&& batches_distinct(self.batch_models())
        &&& timers_distinct(self.timer_models())
        &&& forall|i: int| 0 <= i < self.batch_models().len() ==> timers_contain(
            self.timer_models(),
            (#[trigger] self.batch_models()[i]).parts,
        )
        &&& forall|i: int| 0 <= i < self.timer_models().len() ==> batches_contain(
            self.batch_models(),
            (#[trigger] self.timer_models()[i]).parts,
        )
        &&& forall|i: int| 0 <= i < self.batch_models().len() ==> self.batch_wf(
            #[trigger] self.batch_models()[i],
        )
        &&& forall|i: int| 0 <= i < self.timer_models().len() ==> (
        #[trigger] self.timer_models()[i]).generation < self.spec_next_generation()
    }

    /// Builds an empty registry for the given embed cap and flush
    /// window.
    pub fn new(embed_limit: usize, deliver_ms: u64) -> (r: Registry)
        ensures
            r.wf(),
            r.entry_count() == 0,
            forall|k: PartsModel| !r.spec_contains(k),
            forall|k: PartsModel| !r.timer_armed(k),
            r.spec_limit() == embed_limit,
            r.spec_deliver_ms() == deliver_ms,
            r.spec_next_generation() == 0,
    {
        let r = Registry {
            batches: Vec::new(),
            timers: Vec::new(),
            embed_limit,
            deliver_ms,
            next_generation: 0,
        };
        proof {
            assert(r.batch_models().len() == 0);
            assert(r.timer_models().len() == 0);
        }
        r
    }

    /// The embed cap this registry was built with.
    pub fn embed_limit(&self) -> (r: usize)
        ensures
            r == self.spec_limit(),
    {
        self.embed_limit
    }

    /// The flush window this registry was built with, in milliseconds.
    pub fn deliver_ms(&self) -> (r: u64)
        ensures
            r == self.spec_deliver_ms(),
    {
        self.deliver_ms
    }

    /// The generation the next armed timer will receive.
    pub fn next_generation(&self) -> (r: u64)
        ensures
            r == self.spec_next_generation(),
    {
        self.next_generation
    }

    /// The number of destination keys with an open batch.
    pub fn len(&self) -> (r: usize)
        ensures
            r == self.entry_count(),
    {
        self.batches.len()
    }

    /// Finds the position of the open batch for a key, if any.
    fn find_batch_index(&self, parts: &WebhookParts) -> (r: Option<usize>)
        ensures
            match r {
                Option::Some(i) => i < self.batch_models().len() && self.batch_models()[
                    i as int
                ].parts == parts@,
                Option::None => !self.spec_contains(parts@),
            },
    {
        let mut i: usize = 0;
        while i < self.batches.len()
            invariant
                i <= self.batches@.len(),
                forall|j: int| 0 <= j < i ==> (#[trigger] self.batch_models()[j]).parts
                    != parts@,
            decreases self.batches@.len() - i,
        {
            proof {
                assert(self.batch_models()[i as int] == self.batches@[i as int].deep_view());
            }
            if self.batches[i].parts.key_eq(parts) {
                return Option::Some(i);
            }
            i = i + 1;
        }
        Option::None
    }

    /// Finds the position of the armed timer for a key, if any.
    fn find_timer_index(&self, parts: &WebhookParts) -> (r: Option<usize>)
        ensures
            match r {
                Option::Some(i) => i < self.timer_models().len() && self.timer_models()[
                    i as int
                ].parts == parts@,
                Option::None => !self.timer_armed(parts@),
            },
    {
        let mut i: usize = 0;
        while i < self.timers.len()
            invariant
                i <= self.timers@.len(),
                forall|j: int| 0 <= j < i ==> (#[trigger] self.timer_models()[j]).parts
                    != parts@,
            decreases self.timers@.len() - i,
        {
            proof {
                assert(self.timer_models()[i as int] == self.timers@[i as int].deep_view());
            }
            if self.timers[i].parts.key_eq(parts) {
                return Option::Some(i);
            }
            i = i + 1;
        }
        Option::None
    }
}

/// Sums the embed counts of a batch's payloads.
fn sum_embeds(payloads: &Vec<WebhookPayload>) -> (r: usize)
    requires
        embed_sum(payloads.deep_view()) <= usize::MAX,
    ensures
        r == embed_sum(payloads.deep_view()),
{
    let ghost all: Seq<PayloadModel> = payloads.deep_view();
    let mut total: usize = 0;
    let mut i: usize = 0;
    proof {
        assert(all.take(0) =~= Seq::<PayloadModel>::empty());
    }
    while i < payloads.len()
        invariant
            i <= payloads@.len(),
            all == payloads.deep_view(),
            embed_sum(all) <= usize::MAX,
            total == embed_sum(all.take(i as int)),
        decreases payloads@.len() - i,
    {
        let c = payloads[i].embed_count();
        proof {
            assert(all[i as int] == payloads@[i as int].deep_view());
            lemma_embed_sum_take_step(all, i as int);
            lemma_embed_sum_take_le(all, i as int + 1);
        }
        total = total + c;
        i = i + 1;
    }
    proof {
        assert(all.take(payloads@.len() as int) =~= all);
    }
    total
}

impl Registry {
    /// Cancels any timer armed for the key and arms a fresh one,
    /// handing out the next generation.
    fn rearm_timer(&mut self, parts: &WebhookParts) -> (g: u64)
        requires
            timers_distinct(old(self).timer_models()),
            forall|i: int| 0 <= i < old(self).timer_models().len()
                ==> (#[trigger] old(self).timer_models()[i]).generation
                < old(self).spec_next_generation(),
            old(self).spec_next_generation() < u64::MAX,
        ensures
            g == old(self).spec_next_generation(),
            final(self).spec_next_generation() == g + 1,
            timers_distinct(final(self).timer_models()),
            forall|i: int| 0 <= i < final(self).timer_models().len()
                ==> (#[trigger] final(self).timer_models()[i]).generation
                < final(self).spec_next_generation(),
            final(self).timer_armed(parts@),
            final(self).timer_generation(parts@) == g,
            forall|k: PartsModel| k != parts@
                ==> final(self).timer_armed(k) == old(self).timer_armed(k),
            forall|k: PartsModel| k != parts@ && old(self).timer_armed(k)
                ==> final(self).timer_generation(k) == old(self).timer_generation(k),
            forall|i: int| 0 <= i < final(self).timer_models().len()
                ==> (old(self).timer_armed((#[trigger] final(self).timer_models()[i]).parts)
                || final(self).timer_models()[i].parts == parts@),
            final(self).batch_models() == old(self).batch_models(),
            final(self).spec_limit() == old(self).spec_limit(),
            final(self).spec_deliver_ms() == old(self).spec_deliver_ms(),
    {
        let g = self.next_generation;
        self.next_generation = g + 1;
        match self.find_timer_index(parts) {
            Option::Some(ti) => {
                let ghost pre = self.timers;
                self.timers.remove(ti);
                proof {
                    lemma_deep_remove(pre, self.timers, ti as int);
                    lemma_timer_remove_self(pre.deep_view(), ti as int);
                    assert forall|k: PartsModel| k != parts@ implies timers_contain(
                        self.timer_models(),
                        k,
                    ) == timers_contain(pre.deep_view(), k) && (timers_contain(
                        pre.deep_view(),
                        k,
                    ) ==> timer_lookup(self.timer_models(), k) == timer_lookup(
                        pre.deep_view(),
                        k,
                    )) by {
                        lemma_timer_remove(pre.deep_view(), ti as int, k);
                    }
                    assert forall|a: int, b: int| 0 <= a < b < self.timer_models().len()
                        implies self.timer_models()[a].parts != self.timer_models()[b].parts by {
                        lemma_timer_remove(pre.deep_view(), ti as int, self.timer_models()[a].parts);
                    }
                }
            },
            Option::None => {},
        }
        let entry = TimerEntry { parts: parts.clone(), generation: g };
        let ghost mid = self.timers;
        self.timers.push(entry);
        proof {
            lemma_deep_push(mid, self.timers, entry);
            assert(entry@.parts == parts@);
            lemma_timer_push(mid.deep_view(), entry@);
        }
        g
    }

    /// Cancels the timer armed for a key, if one is armed.
    fn cancel_timer(&mut self, parts: &WebhookParts)
        requires
            timers_distinct(old(self).timer_models()),
        ensures
            timers_distinct(final(self).timer_models()),
            !final(self).timer_armed(parts@),
            forall|k: PartsModel| k != parts@
                ==> final(self).timer_armed(k) == old(self).timer_armed(k),
            forall|k: PartsModel| k != parts@ && old(self).timer_armed(k)
                ==> final(self).timer_generation(k) == old(self).timer_generation(k),
            old(self).timer_armed(parts@) ==> final(self).timer_models() == old(
                self,
            ).timer_models().remove(timer_index(old(self).timer_models(), parts@)),
            final(self).batch_models() == old(self).batch_models(),
            final(self).spec_limit() == old(self).spec_limit(),
            final(self).spec_deliver_ms() == old(self).spec_deliver_ms(),
            final(self).spec_next_generation() == old(self).spec_next_generation(),
            old(self).timer_armed(parts@) ==> final(self).timer_models().len() + 1 == old(
                self,
            ).timer_models().len(),
            !old(self).timer_armed(parts@) ==> *final(self) == *old(self),
    {
        let ghost pre = *self;
        match self.find_timer_index(parts) {
            Option::None => {},
            Option::Some(ti) => {
                proof {
                    lemma_timer_at(pre.timer_models(), ti as int);
                }
                let ghost pre_timers = self.timers;
                self.timers.remove(ti);
                proof {
                    lemma_deep_remove(pre_timers, self.timers, ti as int);
                    lemma_timer_remove_self(pre.timer_models(), ti as int);
                    assert forall|k: PartsModel| k != parts@ implies self.timer_armed(k)
                        == pre.timer_armed(k) && (pre.timer_armed(k) ==> self.timer_generation(k)
                        == pre.timer_generation(k)) by {
                        lemma_timer_remove(pre.timer_models(), ti as int, k);
                    }
                    assert(ti as int == timer_index(pre.timer_models(), parts@));
                }
            },
        }
    }

    /// Inserts a payload for a key: appends it to the open batch, or
    /// opens a new batch created now, and in either case re-arms the
    /// key's flush timer with a fresh generation.  The acknowledgement
    /// reflects the batch after insertion.
    pub fn get_insert(&mut self, parts: &WebhookParts, payload: WebhookPayload, now_ms: u64) -> (r:
        BatchAck)
        requires
            old(self).wf(),
            old(self).spec_next_generation() < u64::MAX,
            payload@.embed_count() <= old(self).spec_limit(),
            old(self).spec_contains(parts@) ==> embed_sum(old(self).batch_of(parts@).payloads)
                + payload@.embed_count() <= old(self).spec_limit(),
        ensures
            final(self).wf(),
            final(self).spec_limit() == old(self).spec_limit(),
            final(self).spec_deliver_ms() == old(self).spec_deliver_ms(),
            final(self).spec_next_generation() == old(self).spec_next_generation() + 1,
            final(self).spec_contains(parts@),
            final(self).batch_of(parts@).parts == parts@,
            old(self).spec_contains(parts@) ==> {
                &&& final(self).batch_of(parts@).payloads == old(self).batch_of(
                    parts@,
                ).payloads.push(payload@)
                &&& final(self).batch_of(parts@).created == old(self).batch_of(parts@).created
                &&& final(self).entry_count() == old(self).entry_count()
            },
            !old(self).spec_contains(parts@) ==> {
                &&& final(self).batch_of(parts@).payloads == seq![payload@]
                &&& final(self).batch_of(parts@).created == now_ms
                &&& final(self).entry_count() == old(self).entry_count() + 1
            },
            r.size == final(self).batch_of(parts@).payloads.len(),
            r.created == final(self).batch_of(parts@).created,
            r.generation == old(self).spec_next_generation(),
            final(self).timer_armed(parts@),
            final(self).timer_generation(parts@) == r.generation,
            forall|k: PartsModel| k != parts@
                ==> final(self).spec_contains(k) == old(self).spec_contains(k),
            forall|k: PartsModel| k != parts@ && old(self).spec_contains(k)
                ==> final(self).batch_of(k) == old(self).batch_of(k),
            forall|k: PartsModel| k != parts@
                ==> final(self).timer_armed(k) == old(self).timer_armed(k),
            forall|k: PartsModel| k != parts@ && old(self).timer_armed(k)
                ==> final(self).timer_generation(k) == old(self).timer_generation(k),
            payloads_of(final(self).batch_models()) == payloads_of(old(self).batch_models()).insert(
                payload@,
            ),
    {
        let ghost pre = *self;
        let size: usize;
        let created: u64;
        match self.find_batch_index(parts) {
            Option::Some(i) => {
                proof {
                    lemma_batch_at(pre.batch_models(), i as int);
                }
                let ghost pre_batches = self.batches;
                let ghost b_pre = pre_batches@[i as int];
                let mut b = self.batches.remove(i);
                b.payloads.push(payload);
                proof {
                    lemma_deep_push(b_pre.payloads, b.payloads, payload);
                    assert(pre.batch_models()[i as int] == b_pre@);
                    assert(b@.payloads == b_pre@.payloads.push(payload@));
                    assert(b@.parts == parts@);
                    assert(b@.created == b_pre@.created);
                }
                size = b.payloads.len();
                created = b.created;
                self.batches.insert(i, b);
                proof {
                    assert(self.batches@ =~= pre_batches@.update(i as int, b));
                    lemma_deep_update(pre_batches, self.batches, i as int, b);
                    lemma_batch_update(pre.batch_models(), i as int, b@);
                    assert(self.batch_models() == pre.batch_models().update(i as int, b@));
                    assert(self.spec_contains(parts@));
                    assert(self.batch_of(parts@) == b@);
                    lemma_embed_sum_push(pre.batch_of(parts@).payloads, payload@);
                    assert(embed_sum(b@.payloads) <= pre.spec_limit());
                    assert(self.entry_count() == pre.entry_count());
                    // the held payloads gain exactly this payload
                    broadcast use group_to_multiset_ensures;

                    lemma_payloads_of_update(pre.batch_models(), i as int, b@);
                    assert(b_pre@.payloads.push(payload@).to_multiset() =~= b_pre@
                        .payloads.to_multiset().insert(payload@));
                    assert forall|x: PayloadModel| payloads_of(self.batch_models()).count(x)
                        == payloads_of(pre.batch_models()).insert(payload@).count(x) by {
                        assert(payloads_of(pre.batch_models().update(i as int, b@)).add(
                            pre.batch_models()[i as int].payloads.to_multiset(),
                        ).count(x) == payloads_of(pre.batch_models()).add(
                            b@.payloads.to_multiset(),
                        ).count(x));
                    }
                    assert(payloads_of(self.batch_models()) =~= payloads_of(
                        pre.batch_models(),
                    ).insert(payload@));
                }
            },
            Option::None => {
                let mut pl: Vec<WebhookPayload> = Vec::new();
                pl.push(payload);
                let nb = WebhookBatch { parts: parts.clone(), created: now_ms, payloads: pl };
                let ghost pre_batches = self.batches;
                self.batches.push(nb);
                proof {
                    assert(pl@.len() == 1 && pl@[0] == payload);
                    assert(pl.deep_view()[0] == pl@[0].deep_view());
                    assert(pl.deep_view() =~= seq![payload@]);
                    assert(nb@.parts == parts@);
                    assert(nb@.payloads == seq![payload@]);
                    lemma_deep_push(pre_batches, self.batches, nb);
                    lemma_batch_push(pre.batch_models(), nb@);
                    assert(self.batch_models() == pre.batch_models().push(nb@));
                    assert(self.spec_contains(parts@));
                    assert(self.batch_of(parts@) == nb@);
                    assert(seq![payload@].drop_last() =~= Seq::<PayloadModel>::empty());
                    assert(embed_sum(Seq::<PayloadModel>::empty()) == 0);
                    assert(embed_sum(seq![payload@]) == payload@.embed_count());
                    assert(self.entry_count() == pre.entry_count() + 1);
                    // the held payloads gain exactly this payload
                    broadcast use group_to_multiset_ensures;

                    lemma_payloads_of_push(pre.batch_models(), nb@);
                    assert(seq![payload@] =~= Seq::<PayloadModel>::empty().push(payload@));
                    assert(Seq::<PayloadModel>::empty().push(payload@).to_multiset() =~= Seq::<
                        PayloadModel,
                    >::empty().to_multiset().insert(payload@));
                    assert forall|x: PayloadModel| Seq::<PayloadModel>::empty().to_multiset().count(
                        x,
                    ) == 0 by {
                        assert(!Seq::<PayloadModel>::empty().contains(x));
                    }
                    assert forall|x: PayloadModel| payloads_of(self.batch_models()).count(x)
                        == payloads_of(pre.batch_models()).insert(payload@).count(x) by {
                        assert(payloads_of(self.batch_models()).count(x) == payloads_of(
                            pre.batch_models(),
                        ).count(x) + nb@.payloads.to_multiset().count(x));
                    }
                    assert(payloads_of(self.batch_models()) =~= payloads_of(
                        pre.batch_models(),
                    ).insert(payload@));
                }
                size = 1;
                created = now_ms;
            },
        }
        let ghost mid = *self;
        let g = self.rearm_timer(parts);
        proof {
            assert(self.batch_models() == mid.batch_models());
            assert(batches_distinct(self.batch_models()));
            // every open batch has a timer armed for its key
            assert forall|j: int| 0 <= j < self.batch_models().len() implies timers_contain(
                self.timer_models(),
                (#[trigger] self.batch_models()[j]).parts,
            ) by {
                let k = self.batch_models()[j].parts;
                if k != parts@ {
                    lemma_batch_at(self.batch_models(), j);
                    assert(self.spec_contains(k));
                    assert(mid.spec_contains(k));
                    assert(pre.spec_contains(k));
                    let j0 = batch_index(pre.batch_models(), k);
                    assert(0 <= j0 < pre.batch_models().len());
                    assert(pre.batch_models()[j0].parts == k);
                    lemma_batch_at(pre.batch_models(), j0);
                    assert(timers_contain(pre.timer_models(), k));
                    assert(pre.timer_models() == mid.timer_models());
                    assert(mid.timer_armed(k));
                    assert(self.timer_armed(k));
                    assert(timers_contain(self.timer_models(), k));
                } else {
                    assert(self.timer_armed(parts@));
                    assert(timers_contain(self.timer_models(), k));
                }
            }
            // every armed timer has an open batch for its key
            assert forall|j: int| 0 <= j < self.timer_models().len() implies batches_contain(
                self.batch_models(),
                (#[trigger] self.timer_models()[j]).parts,
            ) by {
                let k = self.timer_models()[j].parts;
                if k != parts@ {
                    assert(mid.timer_armed(k));
                    assert(pre.timer_armed(k));
                    let j0 = timer_index(pre.timer_models(), k);
                    lemma_timer_at(pre.timer_models(), j0);
                    assert(batches_contain(pre.batch_models(), k));
                }
            }
            // every open batch is non-empty and within the embed cap
            assert forall|j: int| 0 <= j < self.batch_models().len() implies self.batch_wf(
                #[trigger] self.batch_models()[j],
            ) by {
                let k = self.batch_models()[j].parts;
                lemma_batch_at(self.batch_models(), j);
                if k != parts@ {
                    assert(pre.spec_contains(k));
                    let j0 = batch_index(pre.batch_models(), k);
                    lemma_batch_at(pre.batch_models(), j0);
                    assert(pre.batch_wf(pre.batch_models()[j0]));
                }
            }
        }
        BatchAck { size, created, generation: g }
    }

    /// Removes and returns the open batch for a key, cancelling its
    /// timer in the same step.  Whoever takes the batch is responsible
    /// for delivering it; a key that is absent yields nothing and
    /// changes nothing.
    pub fn take(&mut self, parts: &WebhookParts) -> (r: Option<WebhookBatch>)
        requires
            old(self).wf(),
        ensures
            final(self).wf(),
            final(self).spec_limit() == old(self).spec_limit(),
            final(self).spec_deliver_ms() == old(self).spec_deliver_ms(),
            final(self).spec_next_generation() == old(self).spec_next_generation(),
            old(self).spec_contains(parts@) ==> {
                &&& (r matches Option::Some(b) && b@ == old(self).batch_of(parts@))
                &&& final(self).entry_count() + 1 == old(self).entry_count()
            },
            !old(self).spec_contains(parts@) ==> r is None && *final(self) == *old(self),
            !final(self).spec_contains(parts@),
            !final(self).timer_armed(parts@),
            forall|k: PartsModel| k != parts@
                ==> final(self).spec_contains(k) == old(self).spec_contains(k),
            forall|k: PartsModel| k != parts@ && old(self).spec_contains(k)
                ==> final(self).batch_of(k) == old(self).batch_of(k),
            forall|k: PartsModel| k != parts@
                ==> final(self).timer_armed(k) == old(self).timer_armed(k),
            forall|k: PartsModel| k != parts@ && old(self).timer_armed(k)
                ==> final(self).timer_generation(k) == old(self).timer_generation(k),
            old(self).spec_contains(parts@) ==> payloads_of(final(self).batch_models()).add(
                old(self).batch_of(parts@).payloads.to_multiset(),
            ) == payloads_of(old(self).batch_models()),
    {
        let ghost pre = *self;
        match self.find_batch_index(parts) {
            Option::None => {
                proof {
                    lemma_key_iff_timer(pre, parts@);
                }
                Option::None
            },
            Option::Some(i) => {
                proof {
                    lemma_batch_at(pre.batch_models(), i as int);
                }
                let ghost pre_batches = self.batches;
                let b = self.batches.remove(i);
                proof {
                    lemma_deep_remove(pre_batches, self.batches, i as int);
                    lemma_batch_remove_self(pre.batch_models(), i as int);
                    lemma_payloads_of_remove(pre.batch_models(), i as int);
                    assert(b@ == pre.batch_of(parts@));
                    assert(!self.spec_contains(parts@));
                    assert forall|k: PartsModel| k != parts@ implies self.spec_contains(k)
                        == pre.spec_contains(k) && (pre.spec_contains(k) ==> self.batch_of(k)
                        == pre.batch_of(k)) by {
                        lemma_batch_remove(pre.batch_models(), i as int, k);
                    }
                }
                let ghost mid = *self;
                self.cancel_timer(parts);
                proof {
                    assert(mid.timer_models() == pre.timer_models());
                    assert(self.batch_models() == mid.batch_models());
                    lemma_key_iff_timer(pre, parts@);
                    let ghost ti0 = timer_index(pre.timer_models(), parts@);
                    lemma_timer_at(pre.timer_models(), ti0);
                    assert(self.timer_models() == pre.timer_models().remove(ti0));
                    // every open batch keeps a timer, every timer an open batch
                    assert forall|j: int| 0 <= j < self.batch_models().len() implies
                        timers_contain(
                        self.timer_models(),
                        (#[trigger] self.batch_models()[j]).parts,
                    ) by {
                        let k = self.batch_models()[j].parts;
                        lemma_batch_at(self.batch_models(), j);
                        assert(k != parts@);
                        assert(pre.spec_contains(k));
                        let j0 = batch_index(pre.batch_models(), k);
                        lemma_batch_at(pre.batch_models(), j0);
                        assert(timers_contain(pre.timer_models(), k));
                        assert(self.timer_armed(k));
                    }
                    assert forall|j: int| 0 <= j < self.timer_models().len() implies
                        batches_contain(
                        self.batch_models(),
                        (#[trigger] self.timer_models()[j]).parts,
                    ) by {
                        let k = self.timer_models()[j].parts;
                        lemma_timer_at(self.timer_models(), j);
                        assert(k != parts@);
                        let ti0 = timer_index(pre.timer_models(), parts@);
                        let j1 = if j < ti0 {
                            j
                        } else {
                            j + 1
                        };
                        assert(self.timer_models()[j] == pre.timer_models()[j1]);
                        assert(pre.timer_armed(k));
                        let j0 = timer_index(pre.timer_models(), k);
                        lemma_timer_at(pre.timer_models(), j0);
                        assert(batches_contain(pre.batch_models(), k));
                        assert(pre.spec_contains(k));
                        assert(mid.spec_contains(k) == pre.spec_contains(k));
                        assert(self.spec_contains(k));
                    }
                    // surviving batches and timers are those of the old state
                    assert forall|j: int| 0 <= j < self.batch_models().len() implies self.batch_wf(
                        #[trigger] self.batch_models()[j],
                    ) by {
                        let j0 = if j < i as int {
                            j
                        } else {
                            j + 1
                        };
                        assert(self.batch_models()[j] == pre.batch_models()[j0]);
                        assert(pre.batch_wf(pre.batch_models()[j0]));
                    }
                    assert forall|j: int| 0 <= j < self.timer_models().len() implies (
                    #[trigger] self.timer_models()[j]).generation < self.spec_next_generation()
                        by {
                        let ti0 = timer_index(pre.timer_models(), parts@);
                        let j1 = if j < ti0 {
                            j
                        } else {
                            j + 1
                        };
                        assert(self.timer_models()[j] == pre.timer_models()[j1]);
                        assert(pre.timer_models()[j1].generation < pre.spec_next_generation());
                    }
                }
                Option::Some(b)
            },
        }
    }

    /// A timer firing for a key: consumes the batch only when the key
    /// is live and the firing presents the generation currently armed.
    /// A timer superseded by a later append or already raced out finds
    /// nothing to do.
    pub fn timer_fired(&mut self, parts: &WebhookParts, generation: u64) -> (r: Option<
        WebhookBatch,
    >)
        requires
            old(self).wf(),
        ensures
            final(self).wf(),
            final(self).spec_limit() == old(self).spec_limit(),
            final(self).spec_deliver_ms() == old(self).spec_deliver_ms(),
            final(self).spec_next_generation() == old(self).spec_next_generation(),
            (old(self).spec_contains(parts@) && old(self).timer_generation(parts@) == generation)
                ==> {
                &&& (r matches Option::Some(b) && b@ == old(self).batch_of(parts@))
                &&& !final(self).spec_contains(parts@)
                &&& !final(self).timer_armed(parts@)
                &&& final(self).entry_count() + 1 == old(self).entry_count()
            },
            !(old(self).spec_contains(parts@) && old(self).timer_generation(parts@) == generation)
                ==> r is None && *final(self) == *old(self),
            forall|k: PartsModel| k != parts@
                ==> final(self).spec_contains(k) == old(self).spec_contains(k),
            forall|k: PartsModel| k != parts@ && old(self).spec_contains(k)
                ==> final(self).batch_of(k) == old(self).batch_of(k),
            forall|k: PartsModel| k != parts@
                ==> final(self).timer_armed(k) == old(self).timer_armed(k),
            forall|k: PartsModel| k != parts@ && old(self).timer_armed(k)
                ==> final(self).timer_generation(k) == old(self).timer_generation(k),
    {
        let ghost pre = *self;
        match self.find_timer_index(parts) {
            Option::None => {
                proof {
                    lemma_key_iff_timer(pre, parts@);
                }
                Option::None
            },
            Option::Some(ti) => {
                proof {
                    lemma_timer_at(pre.timer_models(), ti as int);
                    assert(self.timer_models()[ti as int] == self.timers@[ti as int]@);
                }
                if self.timers[ti].generation == generation {
                    proof {
                        lemma_key_iff_timer(pre, parts@);
                    }
                    self.take(parts)
                } else {
                    Option::None
                }
            },
        }
    }

    /// Drains the registry for shutdown: removes every open batch and
    /// cancels every timer, returning the batches for delivery.  The
    /// registry is empty afterwards.
    pub fn drain(&mut self) -> (r: Vec<WebhookBatch>)
        requires
            old(self).wf(),
        ensures
            final(self).wf(),
            final(self).spec_limit() == old(self).spec_limit(),
            final(self).spec_deliver_ms() == old(self).spec_deliver_ms(),
            final(self).spec_next_generation() == old(self).spec_next_generation(),
            final(self).entry_count() == 0,
            forall|k: PartsModel| !final(self).spec_contains(k),
            forall|k: PartsModel| !final(self).timer_armed(k),
            r.deep_view() == old(self).batch_models(),
    {
        let mut out: Vec<WebhookBatch> = Vec::new();
        swap(&mut self.batches, &mut out);
        self.timers.clear();
        proof {
            assert(self.batch_models().len() == 0);
            assert(self.timer_models().len() == 0);
        }
        out
    }
}

/// The outcome of one inbound submission.
pub enum IngestOutcome {
    /// The request alone exceeds the embed cap: it could never be
    /// delivered and is rejected synchronously.
    Rejected,
    /// The payload was enqueued.  `flushed` carries the batch that the
    /// capacity trigger took out first, if the payload did not fit the
    /// open batch; the caller delivers it.
    Accepted { ack: BatchAck, flushed: Option<WebhookBatch> },
}

impl Registry {
    /// Handles one validated submission.  A payload whose embeds alone
    /// exceed the cap is rejected.  Otherwise the payload joins the
    /// open batch for its destination — unless it would push the batch
    /// over the cap, in which case the open batch is taken for
    /// immediate delivery and a fresh batch opens with this payload.
    /// Either way the destination's flush timer is re-armed with a
    /// fresh generation.
    pub fn handle_request(&mut self, parts: &WebhookParts, payload: WebhookPayload, now_ms: u64)
        -> (r: IngestOutcome)
        requires
            old(self).wf(),
            old(self).spec_next_generation() < u64::MAX,
        ensures
            final(self).wf(),
            final(self).spec_limit() == old(self).spec_limit(),
            final(self).spec_deliver_ms() == old(self).spec_deliver_ms(),
            (r is Rejected) <==> payload@.embed_count() > old(self).spec_limit(),
            r is Rejected ==> *final(self) == *old(self),
            r matches IngestOutcome::Accepted { ack, flushed } ==> {
                &&& final(self).spec_contains(parts@)
                &&& final(self).batch_of(parts@).parts == parts@
                &&& ack.generation == old(self).spec_next_generation()
                &&& final(self).spec_next_generation() == old(self).spec_next_generation() + 1
                &&& final(self).timer_armed(parts@)
                &&& final(self).timer_generation(parts@) == ack.generation
                &&& ack.size == final(self).batch_of(parts@).payloads.len()
                &&& ack.created == final(self).batch_of(parts@).created
                &&& match flushed {
                    Option::Some(fb) => {
                        &&& old(self).spec_contains(parts@)
                        &&& embed_sum(old(self).batch_of(parts@).payloads) + payload@.embed_count()
                            > old(self).spec_limit()
                        &&& fb@ == old(self).batch_of(parts@)
                        &&& final(self).batch_of(parts@).payloads == seq![payload@]
                        &&& final(self).batch_of(parts@).created == now_ms
                        &&& final(self).entry_count() == old(self).entry_count()
                    },
                    Option::None => {
                        &&& (old(self).spec_contains(parts@) ==> {
                            &&& embed_sum(old(self).batch_of(parts@).payloads)
                                + payload@.embed_count() <= old(self).spec_limit()
                            &&& final(self).batch_of(parts@).payloads == old(self).batch_of(
                                parts@,
                            ).payloads.push(payload@)
                            &&& final(self).batch_of(parts@).created == old(self).batch_of(
                                parts@,
                            ).created
                            &&& final(self).entry_count() == old(self).entry_count()
                        })
                        &&& (!old(self).spec_contains(parts@) ==> {
                            &&& final(self).batch_of(parts@).payloads == seq![payload@]
                            &&& final(self).batch_of(parts@).created == now_ms
                            &&& final(self).entry_count() == old(self).entry_count() + 1
                        })
                    },
                }
                &&& forall|k: PartsModel| k != parts@
                    ==> final(self).spec_contains(k) == old(self).spec_contains(k)
                &&& forall|k: PartsModel| k != parts@ && old(self).spec_contains(k)
                    ==> final(self).batch_of(k) == old(self).batch_of(k)
                &&& forall|k: PartsModel| k != parts@
                    ==> final(self).timer_armed(k) == old(self).timer_armed(k)
                &&& forall|k: PartsModel| k != parts@ && old(self).timer_armed(k)
                    ==> final(self).timer_generation(k) == old(self).timer_generation(k)
                &&& payloads_of(final(self).batch_models()).add(flushed_payloads(flushed))
                    == payloads_of(old(self).batch_models()).insert(payload@)
            },
    {
        let ghost pre = *self;
        let count = payload.embed_count();
        if count > self.embed_limit {
            return IngestOutcome::Rejected;
        }
        let flushed: Option<WebhookBatch>;
        match self.find_batch_index(parts) {
            Option::Some(i) => {
                proof {
                    lemma_batch_at(pre.batch_models(), i as int);
                    assert(pre.batch_wf(pre.batch_models()[i as int]));
                    assert(self.batches@[i as int].payloads.deep_view() == pre.batch_of(
                        parts@,
                    ).payloads);
                }
                let total = sum_embeds(&self.batches[i].payloads);
                if count > self.embed_limit - total {
                    flushed = self.take(parts);
                } else {
                    flushed = Option::None;
                }
            },
            Option::None => {
                flushed = Option::None;
            },
        }
        let ghost mid = *self;
        let ack = self.get_insert(parts, payload, now_ms);
        proof {
            assert forall|x: PayloadModel| payloads_of(self.batch_models()).add(
                flushed_payloads(flushed),
            ).count(x) == payloads_of(pre.batch_models()).insert(payload@).count(x) by {
                assert(payloads_of(self.batch_models()).count(x) == payloads_of(
                    mid.batch_models(),
                ).insert(payload@).count(x));
                match flushed {
                    Option::Some(fb) => {
                        assert(payloads_of(mid.batch_models()).add(
                            fb@.payloads.to_multiset(),
                        ).count(x) == payloads_of(pre.batch_models()).count(x));
                    },
                    Option::None => {
                        assert(flushed_payloads(flushed).count(x) == 0);
                    },
                }
            }
            assert(payloads_of(self.batch_models()).add(flushed_payloads(flushed)) =~= payloads_of(
                pre.batch_models(),
            ).insert(payload@));
        }
        IngestOutcome::Accepted { ack, flushed }
    }
}

/// Any open batch of a well-formed registry merges to an outbound
/// payload whose total embed count is within the cap.
pub proof fn lemma_outbound_within_cap(r: Registry, k: PartsModel)
    requires
        r.wf(),
        r.spec_contains(k),
    ensures
        merge_seq(r.batch_of(k).payloads).embed_count() <= r.spec_limit(),
{
    let i = batch_index(r.batch_models(), k);
    lemma_batch_at(r.batch_models(), i);
    assert(r.batch_wf(r.batch_models()[i]));
    lemma_merge_embeds(r.batch_of(k).payloads);
}

/// Whether a flush window armed at one instant has already elapsed at
/// another.  The window is inclusive: at exactly `deliver_ms` after the
/// last append the window has not yet elapsed, so a request arriving
/// then still joins the open batch.
pub fn window_elapsed(last_ms: u64, deliver_ms: u64, now_ms: u64) -> (r: bool)
    ensures
        r == (now_ms > last_ms + deliver_ms),
{
    match last_ms.checked_add(deliver_ms) {
        Option::Some(deadline) => now_ms > deadline,
        Option::None => false,
    }
}

/// A key has an open batch exactly when a timer is armed for it: the
/// registry and the schedule cover the same destinations.
pub proof fn lemma_key_iff_timer(r: Registry, k: PartsModel)
    requires
        r.wf(),
    ensures
        r.spec_contains(k) <==> r.timer_armed(k),
{
    if r.spec_contains(k) {
        let i = choose|i: int| 0 <= i < r.batch_models().len() && r.batch_models()[i].parts == k;
        assert(timers_contain(r.timer_models(), r.batch_models()[i].parts));
    }
    if r.timer_armed(k) {
        let i = choose|i: int| 0 <= i < r.timer_models().len() && r.timer_models()[i].parts == k;
        assert(batches_contain(r.batch_models(), r.timer_models()[i].parts));
    }
}

} // verus!
