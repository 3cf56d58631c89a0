//! The payload merger: folds an ordered batch of payloads into one
//! outbound payload.
//!
//! Persona fields (`username`, `avatar_url`, `tts`, `thread_name`,
//! `allowed_mentions`) keep the earliest supplied value.  `content` is
//! joined in arrival order with a newline between present texts.
//! `embeds` and `components` are concatenated in arrival order with
//! element identity preserved.

use vstd::prelude::*;
use serde_json::Value;
use crate::payload::{absent_payload, PayloadModel, WebhookPayload};

verus! {

/// First-non-absent choice: the earlier value wins.
pub open spec fn first_of<T>(a: Option<T>, b: Option<T>) -> Option<T> {
    match a {
        Option::Some(_) => a,
        Option::None => b,
    }
}

/// The newline separator placed between joined texts.
pub open spec fn newline() -> Seq<char> {
    seq!['\n']
}

/// Joins two optional texts; both present means the earlier text, a
/// newline, then the later text.
pub open spec fn join_content(a: Option<Seq<char>>, b: Option<Seq<char>>) -> Option<Seq<char>> {
    match (a, b) {
        (Option::None, _) => b,
        (Option::Some(_), Option::None) => a,
        (Option::Some(x), Option::Some(y)) => Option::Some(x + newline() + y),
    }
}

/// Concatenates two optional lists; an absent list contributes nothing
/// and leaves absence visible only when both sides are absent.
pub open spec fn join_list<T>(a: Option<Seq<T>>, b: Option<Seq<T>>) -> Option<Seq<T>> {
    match (a, b) {
        (Option::None, _) => b,
        (Option::Some(_), Option::None) => a,
        (Option::Some(x), Option::Some(y)) => Option::Some(x + y),
    }
}

/// Folds one later payload into an aggregate, field by field.
pub open spec fn merge_pair(a: PayloadModel, b: PayloadModel) -> PayloadModel {
    PayloadModel {
        content: join_content(a.content, b.content),
        username: first_of(a.username, b.username),
        avatar_url: first_of(a.avatar_url, b.avatar_url),
        embeds: join_list(a.embeds, b.embeds),
        allowed_mentions: first_of(a.allowed_mentions, b.allowed_mentions),
        components: join_list(a.components, b.components),
        tts: first_of(a.tts, b.tts),
        thread_name: first_of(a.thread_name, b.thread_name),
    }
}

/// The merge of an ordered sequence of payloads: the empty sequence
/// merges to the all-absent payload, and each later payload is folded
/// into the merge of those before it.
pub open spec fn merge_seq(s: Seq<PayloadModel>) -> PayloadModel
    decreases s.len(),
{
    if s.len() == 0 {
        absent_payload()
    } else {
        merge_pair(merge_seq(s.drop_last()), s.last())
    }
}

/// The earliest supplied `username` among the payloads, if any.
pub open spec fn first_username(s: Seq<PayloadModel>) -> Option<Seq<char>>
    decreases s.len(),
{
    if s.len() == 0 {
        Option::None
    } else if s[0].username is Some {
        s[0].username
    } else {
        first_username(s.drop_first())
    }
}

/// The earliest supplied `avatar_url` among the payloads, if any.
pub open spec fn first_avatar_url(s: Seq<PayloadModel>) -> Option<Seq<char>>
    decreases s.len(),
{
    if s.len() == 0 {
        Option::None
    } else if s[0].avatar_url is Some {
        s[0].avatar_url
    } else {
        first_avatar_url(s.drop_first())
    }
}

/// The earliest supplied `tts` flag among the payloads, if any.
pub open spec fn first_tts(s: Seq<PayloadModel>) -> Option<bool>
    decreases s.len(),
{
    if s.len() == 0 {
        Option::None
    } else if s[0].tts is Some {
        s[0].tts
    } else {
        first_tts(s.drop_first())
    }
}

/// The earliest supplied `thread_name` among the payloads, if any.
pub open spec fn first_thread_name(s: Seq<PayloadModel>) -> Option<Seq<char>>
    decreases s.len(),
{
    if s.len() == 0 {
        Option::None
    } else if s[0].thread_name is Some {
        s[0].thread_name
    } else {
        first_thread_name(s.drop_first())
    }
}

/// The earliest supplied `allowed_mentions` among the payloads, if any.
pub open spec fn first_allowed_mentions(s: Seq<PayloadModel>) -> Option<Value>
    decreases s.len(),
{
    if s.len() == 0 {
        Option::None
    } else if s[0].allowed_mentions is Some {
        s[0].allowed_mentions
    } else {
        first_allowed_mentions(s.drop_first())
    }
}

/// The embeds of all payloads, flattened in arrival order; an absent
/// list contributes nothing.
pub open spec fn flat_embeds(s: Seq<PayloadModel>) -> Seq<Value>
    decreases s.len(),
{
    if s.len() == 0 {
        Seq::empty()
    } else {
        flat_embeds(s.drop_last()) + match s.last().embeds {
            Option::Some(e) => e,
            Option::None => Seq::empty(),
        }
    }
}

/// The total number of embeds across the payloads.
pub open spec fn embed_sum(s: Seq<PayloadModel>) -> nat
    decreases s.len(),
{
    if s.len() == 0 {
        0
    } else {
        embed_sum(s.drop_last()) + s.last().embed_count()
    }
}

/// Appending a payload adds its embed count to the batch total.
pub proof fn lemma_embed_sum_push(s: Seq<PayloadModel>, p: PayloadModel)
    ensures
        embed_sum(s.push(p)) == embed_sum(s) + p.embed_count(),
{
    assert(s.push(p).drop_last() =~= s);
    assert(s.push(p).last() == p);
}

/// One step of summing embeds front to back.
pub proof fn lemma_embed_sum_take_step(s: Seq<PayloadModel>, i: int)
    requires
        0 <= i < s.len(),
    ensures
        embed_sum(s.take(i + 1)) == embed_sum(s.take(i)) + s[i].embed_count(),
{
    assert(s.take(i + 1).drop_last() =~= s.take(i));
    assert(s.take(i + 1).last() == s[i]);
}

/// The embed total of a prefix never exceeds the total of the whole.
pub proof fn lemma_embed_sum_take_le(s: Seq<PayloadModel>, i: int)
    requires
        0 <= i <= s.len(),
    ensures
        embed_sum(s.take(i)) <= embed_sum(s),
    decreases s.len() - i,
{
    if i < s.len() {
        lemma_embed_sum_take_step(s, i);
        lemma_embed_sum_take_le(s, i + 1);
    } else {
        assert(s.take(i) =~= s);
    }
}

/// Merging the all-absent payload on either side changes nothing:
/// `absent_payload` is the unit of `merge_pair`.
pub proof fn lemma_merge_pair_unit(a: PayloadModel)
    ensures
        merge_pair(absent_payload(), a) == a,
        merge_pair(a, absent_payload()) == a,
{
}

/// `merge_pair` is associative: folding three payloads pairwise gives
/// the same result whichever pair is folded first.
pub proof fn lemma_merge_pair_assoc(a: PayloadModel, b: PayloadModel, c: PayloadModel)
    ensures
        merge_pair(merge_pair(a, b), c) == merge_pair(a, merge_pair(b, c)),
{
    if a.content is Some && b.content is Some && c.content is Some {
        assert(join_content(join_content(a.content, b.content), c.content)
            == join_content(a.content, join_content(b.content, c.content))) by {
            let x = a.content->0;
            let y = b.content->0;
            let z = c.content->0;
            assert((x + newline() + y) + newline() + z =~= x + newline() + (y + newline() + z));
        }
    }
    if a.embeds is Some && b.embeds is Some && c.embeds is Some {
        assert((a.embeds->0 + b.embeds->0) + c.embeds->0 =~= a.embeds->0 + (b.embeds->0
            + c.embeds->0));
    }
    if a.components is Some && b.components is Some && c.components is Some {
        assert((a.components->0 + b.components->0) + c.components->0 =~= a.components->0
            + (b.components->0 + c.components->0));
    }
}

/// The merge of a single payload is that payload, field for field.
pub proof fn lemma_merge_singleton(p: PayloadModel)
    ensures
        merge_seq(seq![p]) == p,
{
    let s = seq![p];
    assert(s.drop_last() =~= Seq::<PayloadModel>::empty());
    assert(merge_seq(Seq::<PayloadModel>::empty()) == absent_payload());
    assert(s.last() == p);
    lemma_merge_pair_unit(p);
}

/// Merging a concatenation of two batches equals pairwise-merging the
/// two batch merges: on `content` the texts join with the newline
/// separator, and on `embeds` and `components` the lists append.
pub proof fn lemma_merge_homomorphism(s1: Seq<PayloadModel>, s2: Seq<PayloadModel>)
    ensures
        merge_seq(s1 + s2) == merge_pair(merge_seq(s1), merge_seq(s2)),
    decreases s2.len(),
{
    if s2.len() == 0 {
        assert(s1 + s2 =~= s1);
        lemma_merge_pair_unit(merge_seq(s1));
    } else {
        let early = s2.drop_last();
        let last = s2.last();
        lemma_merge_homomorphism(s1, early);
        lemma_merge_pair_assoc(merge_seq(s1), merge_seq(early), last);
        assert((s1 + s2).drop_last() =~= s1 + early);
        assert((s1 + s2).last() == last);
    }
}

/// First-non-absent policy: each persona field of the merge equals the
/// value from the earliest payload that supplied it, or is absent if
/// none did.
pub proof fn lemma_merge_first_non_absent(s: Seq<PayloadModel>)
    ensures
        merge_seq(s).username == first_username(s),
        merge_seq(s).avatar_url == first_avatar_url(s),
        merge_seq(s).tts == first_tts(s),
        merge_seq(s).thread_name == first_thread_name(s),
        merge_seq(s).allowed_mentions == first_allowed_mentions(s),
    decreases s.len(),
{
    if s.len() == 0 {
    } else {
        let rest = s.drop_first();
        lemma_merge_first_non_absent(rest);
        lemma_merge_singleton(s[0]);
        lemma_merge_homomorphism(seq![s[0]], rest);
        assert(seq![s[0]] + rest =~= s);
    }
}

/// The merged payload carries exactly the embeds of its inputs,
/// flattened in arrival order, and is absent only when every input left
/// the field absent.
pub proof fn lemma_merge_embeds(s: Seq<PayloadModel>)
    ensures
        merge_seq(s).embeds is Some ==> merge_seq(s).embeds->0 == flat_embeds(s),
        merge_seq(s).embeds is None ==> flat_embeds(s) == Seq::<Value>::empty(),
        merge_seq(s).embed_count() == embed_sum(s),
    decreases s.len(),
{
    if s.len() == 0 {
    } else {
        lemma_merge_embeds(s.drop_last());
        let a = merge_seq(s.drop_last()).embeds;
        let b = s.last().embeds;
        if a is None && b is Some {
            assert(flat_embeds(s) =~= b->0);
        } else if a is None && b is None {
            assert(flat_embeds(s) =~= Seq::<Value>::empty());
        } else if a is Some && b is None {
            assert(flat_embeds(s) =~= a->0);
        }
    }
}

impl WebhookPayload {
    /// Folds a later payload into this aggregate, field by field:
    /// persona fields keep the earlier value, texts join with a
    /// newline, lists append.
    pub fn merge_with(self, later: WebhookPayload) -> (r: WebhookPayload)
        ensures
            r@ == merge_pair(self@, later@),
    {
        let content = match (self.content, later.content) {
            (Option::None, c) => c,
            (Option::Some(c), Option::None) => Option::Some(c),
            (Option::Some(mut a), Option::Some(b)) => {
                a.append("\n");
                a.append(b.as_str());
                proof {
                    reveal_strlit("\n");
                    assert("\n"@ =~= newline());
                }
                Option::Some(a)
            },
        };
        let embeds = match (self.embeds, later.embeds) {
            (Option::None, e) => e,
            (Option::Some(e), Option::None) => Option::Some(e),
            (Option::Some(mut a), Option::Some(mut b)) => {
                a.append(&mut b);
                Option::Some(a)
            },
        };
        let components = match (self.components, later.components) {
            (Option::None, c) => c,
            (Option::Some(c), Option::None) => Option::Some(c),
            (Option::Some(mut a), Option::Some(mut b)) => {
                a.append(&mut b);
                Option::Some(a)
            },
        };
        WebhookPayload {
            content,
            username: match self.username {
                Option::Some(u) => Option::Some(u),
                Option::None => later.username,
            },
            avatar_url: match self.avatar_url {
                Option::Some(u) => Option::Some(u),
                Option::None => later.avatar_url,
            },
            embeds,
            allowed_mentions: match self.allowed_mentions {
                Option::Some(m) => Option::Some(m),
                Option::None => later.allowed_mentions,
            },
            components,
            tts: match self.tts {
                Option::Some(t) => Option::Some(t),
                Option::None => later.tts,
            },
            thread_name: match self.thread_name {
                Option::Some(t) => Option::Some(t),
                Option::None => later.thread_name,
            },
        }
    }
}

/// Merges an ordered batch of payloads into the single outbound payload.
pub fn merge_body(payloads: Vec<WebhookPayload>) -> (r: WebhookPayload)
    ensures
        r@ == merge_seq(payloads.deep_view()),
{
    let ghost all: Seq<PayloadModel> = payloads.deep_view();
    let mut rest = payloads;
    let mut aggr = WebhookPayload::new_absent();
    let ghost mut taken: int = 0;
    proof {
        assert(all.take(0) =~= Seq::<PayloadModel>::empty());
    }
    while rest.len() > 0
        invariant
            0 <= taken <= all.len(),
            rest.deep_view() =~= all.skip(taken),
            aggr@ == merge_seq(all.take(taken)),
        decreases rest.len(),
    {
        let ghost prev = rest;
        let next = rest.remove(0);
        proof {
            assert(prev@.len() > 0);
            assert(prev.deep_view().len() == all.skip(taken).len());
            assert(taken < all.len());
            assert(next.deep_view() == prev.deep_view()[0]);
            assert(prev.deep_view()[0] == all.skip(taken)[0]);
            assert(all.skip(taken)[0] == all[taken]);
            assert forall|j: int| 0 <= j < rest@.len() implies rest.deep_view()[j] == all.skip(
                taken + 1,
            )[j] by {
                assert(rest@[j] == prev@.remove(0)[j]);
                assert(prev@.remove(0)[j] == prev@[j + 1]);
                assert(rest.deep_view()[j] == prev.deep_view()[j + 1]);
                assert(prev.deep_view()[j + 1] == all.skip(taken)[j + 1]);
                assert(all.skip(taken)[j + 1] == all[taken + 1 + j]);
            }
            assert(rest.deep_view() =~= all.skip(taken + 1));
        }
        aggr = aggr.merge_with(next);
        proof {
            assert(all.take(taken + 1).drop_last() =~= all.take(taken));
            assert(all.take(taken + 1).last() == all[taken]);
            taken = taken + 1;
        }
    }
    proof {
        assert(all.take(taken) =~= all);
    }
    aggr
}

} // verus!
