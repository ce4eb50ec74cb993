//! Room-wide guarantees that relate several registry operations: per-sender
//! ordering of broadcasts, exclusion of the sender and of unregistered
//! participants from delivery, and idempotence of unregistration.

use vstd::prelude::*;
use crate::room::{
    has_id, idx_of, lemma_remove_keeps_others, recipients, spec_remove, unique_ids, Member,
};

verus! {

/// A mailbox after one sender's broadcasts land on it one by one, oldest
/// first, as `Room::broadcast` enqueues them.
pub open spec fn mail_after(m: Seq<Seq<char>>, texts: Seq<Seq<char>>) -> Seq<Seq<char>>
    decreases texts.len(),
{
    if texts.len() == 0 {
        m
    } else {
        mail_after(m.push(texts.first()), texts.drop_first())
    }
}

/// Per-sender ordering: however many messages one sender broadcasts, every
/// recipient's mailbox ends as what it already held followed by exactly
/// those messages, in the order the sender issued them.
pub proof fn lemma_broadcast_order(m: Seq<Seq<char>>, texts: Seq<Seq<char>>)
    ensures
        mail_after(m, texts) == m + texts,
        forall|k: int| 0 <= k < texts.len() ==> mail_after(m, texts)[m.len() + k] == texts[k],
    decreases texts.len(),
{
    if texts.len() == 0 {
        assert(m + texts =~= m);
    } else {
        lemma_broadcast_order(m.push(texts.first()), texts.drop_first());
        assert(m.push(texts.first()) + texts.drop_first() =~= m + texts);
    }
}

/// A broadcast never reaches its own sender: the sender's identifier is not
/// among the recipients, whatever the membership.
pub proof fn lemma_recipients_exclude_sender(s: Seq<Member>, sender: u64)
    ensures
        forall|j: int|
            0 <= j < recipients(s, sender).len() ==> #[trigger] recipients(s, sender)[j]
                != sender,
    decreases s.len(),
{
    if s.len() > 0 {
        lemma_recipients_exclude_sender(s.drop_last(), sender);
        let pre = recipients(s.drop_last(), sender);
        let r = recipients(s, sender);
        assert forall|j: int| 0 <= j < r.len() implies #[trigger] r[j] != sender by {
            if s.last().id == sender {
                assert(r == pre);
            } else {
                assert(r == pre.push(s.last().id));
                if j < pre.len() {
                    assert(r[j] == pre[j]);
                } else {
                    assert(r[j] == s.last().id);
                }
            }
        }
    }
}

/// Every recipient of a broadcast is an active member.
pub proof fn lemma_recipients_are_members(s: Seq<Member>, sender: u64)
    ensures
        forall|j: int|
            0 <= j < recipients(s, sender).len() ==> has_id(
                s,
                #[trigger] recipients(s, sender)[j],
            ),
    decreases s.len(),
{
    if s.len() > 0 {
        lemma_recipients_are_members(s.drop_last(), sender);
        assert forall|j: int| 0 <= j < recipients(s, sender).len() implies has_id(
            s,
            #[trigger] recipients(s, sender)[j],
        ) by {
            let r = recipients(s, sender);
            let pre = recipients(s.drop_last(), sender);
            if j < pre.len() {
                let i = choose|i: int|
                    0 <= i < s.drop_last().len() && (#[trigger] s.drop_last()[i]).id == pre[j];
                assert(s[i].id == pre[j]);
            } else {
                assert(s[s.len() - 1].id == r[j]);
            }
        }
    }
}

/// When the sender is no member — a fresh joiner announcing itself, or a
/// participant already unregistered announcing its departure — the broadcast
/// reaches every member, in table order.
pub proof fn lemma_absent_sender_reaches_all(s: Seq<Member>, sender: u64)
    requires
        !has_id(s, sender),
    ensures
        recipients(s, sender).len() == s.len(),
        forall|j: int| 0 <= j < s.len() ==> #[trigger] recipients(s, sender)[j] == s[j].id,
    decreases s.len(),
{
    if s.len() > 0 {
        assert(s[s.len() - 1].id != sender);
        assert forall|i: int| 0 <= i < s.drop_last().len() implies (#[trigger] s.drop_last()[i]).id
            != sender by {
            assert(s.drop_last()[i] == s[i]);
        }
        lemma_absent_sender_reaches_all(s.drop_last(), sender);
    }
}

/// Unregistering is idempotent: the participant is gone after one removal,
/// so removing it again changes nothing.
pub proof fn lemma_unregister_idempotent(s: Seq<Member>, id: u64)
    requires
        unique_ids(s),
    ensures
        !has_id(spec_remove(s, id), id),
        spec_remove(spec_remove(s, id), id) == spec_remove(s, id),
{
    if has_id(s, id) {
        let k = idx_of(s, id);
        assert(0 <= k < s.len() && s[k].id == id);
        let s2 = s.remove(k);
        lemma_remove_keeps_others(s, k);
        assert forall|j: int| 0 <= j < s2.len() implies (#[trigger] s2[j]).id != id by {
            if j < k {
                assert(s2[j] == s[j]);
                assert(s[j].id != s[k].id);
            } else {
                assert(s2[j] == s[j + 1]);
                assert(s[k].id != s[j + 1].id);
            }
        }
        assert(!has_id(s2, id));
    } else {
        assert(spec_remove(s, id) == s);
    }
}

/// Once unregistered, a participant receives no later broadcast, from any
/// sender: its identifier is neither a member nor among any recipient set
/// computed from the remaining membership — and a snapshot lists only the
/// remaining members' names.
pub proof fn lemma_removed_receives_nothing(s: Seq<Member>, id: u64, sender: u64)
    requires
        unique_ids(s),
    ensures
        !has_id(spec_remove(s, id), id),
        forall|j: int|
            0 <= j < recipients(spec_remove(s, id), sender).len() ==> #[trigger] recipients(
                spec_remove(s, id),
                sender,
            )[j] != id,
{
    lemma_unregister_idempotent(s, id);
    lemma_recipients_are_members(spec_remove(s, id), sender);
    assert forall|j: int| 0 <= j < recipients(spec_remove(s, id), sender).len() implies (
    #[trigger] recipients(spec_remove(s, id), sender)[j]) != id by {
        if recipients(spec_remove(s, id), sender)[j] == id {
            assert(has_id(spec_remove(s, id), id));
        }
    }
}

} // verus!
