//! The room registry: the shared table of active participants, each with an
//! ordered outbound mailbox, and the register / unregister / broadcast
//! operations over it.
//!
//! A participant appears in the table exactly between a successful handshake
//! and its disconnect. `broadcast` enqueues a message onto the mailbox of
//! every participant but the sender; `unregister` is idempotent.

use vstd::prelude::*;

verus! {

/// One active participant: a stable connection identifier, the display name
/// fixed at join time, and the ordered queue of messages not yet written to
/// this participant's connection.
pub struct Member {
    pub id: u64,
    pub name: String,
    pub mailbox: Vec<String>,
}

/// The messages queued for a member, oldest first.
pub open spec fn mail(m: Member) -> Seq<Seq<char>> {
    m.mailbox.deep_view()
}

/// Whether some member of `s` carries `id`.
pub open spec fn has_id(s: Seq<Member>, id: u64) -> bool {
    exists|i: int| 0 <= i < s.len() && (#[trigger] s[i]).id == id
}

/// The index of the member carrying `id`.
pub open spec fn idx_of(s: Seq<Member>, id: u64) -> int {
    choose|i: int| 0 <= i < s.len() && (#[trigger] s[i]).id == id
}

/// Each connection identifier appears at most once.
pub open spec fn unique_ids(s: Seq<Member>) -> bool {
    forall|i: int, j: int| 0 <= i < j < s.len() ==> (#[trigger] s[i]).id != (#[trigger] s[j]).id
}

/// The members left once the one carrying `id` is gone; `s` itself when none
/// carries it.
pub open spec fn spec_remove(s: Seq<Member>, id: u64) -> Seq<Member> {
    if has_id(s, id) {
        s.remove(idx_of(s, id))
    } else {
        s
    }
}

/// The display names of the members, in table order.
pub open spec fn names(s: Seq<Member>) -> Seq<Seq<char>> {
    s.map_values(|m: Member| m.name@)
}

/// The identifiers a broadcast from `sender` reaches: every member's but
/// `sender`, in table order.
pub open spec fn recipients(s: Seq<Member>, sender: u64) -> Seq<u64>
    decreases s.len(),
{
    if s.len() == 0 {
        Seq::empty()
    } else if s.last().id == sender {
        recipients(s.drop_last(), sender)
    } else {
        recipients(s.drop_last(), sender).push(s.last().id)
    }
}

/// The shared table of active participants.
pub struct Room {
    members: Vec<Member>,
}

impl View for Room {
    type V = Seq<Member>;

    closed spec fn view(&self) -> Seq<Member> {
        self.members@
    }
}

/// Hands out a mutable reference to one element of a vector.
fn elem_mut<T>(v: &mut Vec<T>, i: usize) -> (element: &mut T)
    requires
        i < old(v).len(),
    ensures
        *element == old(v)@[i as int],
        final(v)@ == old(v)@.update(i as int, *final(element)),
{
    &mut v[i]
}

impl Room {
    /// Identifiers are unique among active participants.
    pub open spec fn wf(&self) -> bool {
        unique_ids(self@)
    }

    /// An empty room.
    pub fn new() -> (r: Room)
        ensures
            r@ == Seq::<Member>::empty(),
            r.wf(),
    {
        Room { members: Vec::new() }
    }

    /// Adds a freshly named participant with an empty mailbox. Never fails.
    pub fn register(&mut self, id: u64, name: String)
        requires
            old(self).wf(),
            !has_id(old(self)@, id),
        ensures
            final(self)@.len() == old(self)@.len() + 1,
            final(self)@.subrange(0, old(self)@.len() as int) == old(self)@,
            final(self)@.last().id == id,
            final(self)@.last().name == name,
            mail(final(self)@.last()) == Seq::<Seq<char>>::empty(),
            final(self).wf(),
    {
        self.members.push(Member { id, name, mailbox: Vec::new() });
        proof {
            assert(final(self)@.subrange(0, old(self)@.len() as int) =~= old(self)@);
            assert(mail(final(self)@.last()) =~= Seq::<Seq<char>>::empty());
        }
    }

    /// Removes the participant carrying `id`, dropping its mailbox; a no-op
    /// when none does, so removing twice is the same as removing once.
    pub fn unregister(&mut self, id: u64)
        requires
            old(self).wf(),
        ensures
            final(self)@ == spec_remove(old(self)@, id),
            !has_id(final(self)@, id),
            final(self).wf(),
    {
        let n = self.members.len();
        let mut i: usize = 0;
        while i < n
            invariant
                self.members@ == old(self)@,
                n == self.members.len(),
                0 <= i <= n,
                unique_ids(self.members@),
                forall|j: int| 0 <= j < i ==> (#[trigger] self.members@[j]).id != id,
            decreases n - i,
        {
            if self.members[i].id == id {
                self.members.remove(i);
                proof {
                    let s0 = old(self)@;
                    let k = idx_of(s0, id);
                    assert(0 <= k < s0.len() && s0[k].id == id);
                    if k < i as int {
                        assert(s0[k].id != s0[i as int].id);
                    } else if k > i as int {
                        assert(s0[i as int].id != s0[k].id);
                    }
                    assert(k == i as int);
                    lemma_remove_keeps_others(s0, i as int);
                }
                return ;
            }
            i = i + 1;
        }
        proof {
            let s0 = old(self)@;
            if has_id(s0, id) {
                let k = idx_of(s0, id);
                assert(s0[k].id != id);
            }
        }
    }

    /// Appends `text` to the mailbox of every participant but `sender`, and
    /// reports, in table order, the identifiers it reached. Membership does
    /// not change, and the sender's own mailbox is left alone.
    pub fn broadcast(&mut self, sender: u64, text: &String) -> (notified: Vec<u64>)
        requires
            old(self).wf(),
        ensures
            final(self)@.len() == old(self)@.len(),
            forall|i: int|
                0 <= i < old(self)@.len() ==> (#[trigger] final(self)@[i]).id == old(self)@[i].id
                    && final(self)@[i].name == old(self)@[i].name,
            forall|i: int|
                0 <= i < old(self)@.len() && old(self)@[i].id != sender ==> mail(
                    #[trigger] final(self)@[i],
                ) == mail(old(self)@[i]).push(text@),
            forall|i: int|
                0 <= i < old(self)@.len() && old(self)@[i].id == sender ==> (#[trigger] final(
                    self)@[i]) == old(self)@[i],
            notified@ == recipients(old(self)@, sender),
            final(self).wf(),
    {
        let n = self.members.len();
        let mut notified: Vec<u64> = Vec::new();
        let mut i: usize = 0;
        while i < n
            invariant
                n == self.members.len(),
                n == old(self)@.len(),
                0 <= i <= n,
                forall|j: int|
                    0 <= j < n ==> (#[trigger] self.members@[j]).id == old(self)@[j].id
                        && self.members@[j].name == old(self)@[j].name,
                forall|j: int|
                    0 <= j < i && old(self)@[j].id != sender ==> mail(
                        #[trigger] self.members@[j],
                    ) == mail(old(self)@[j]).push(text@),
                forall|j: int|
                    (i <= j < n || old(self)@[j].id == sender) && 0 <= j < n
                        ==> #[trigger] self.members@[j] == old(self)@[j],
                notified@ == recipients(old(self)@.subrange(0, i as int), sender),
            decreases n - i,
        {
            proof {
                let pre = old(self)@.subrange(0, i as int);
                let post = old(self)@.subrange(0, i as int + 1);
                assert(post.drop_last() =~= pre);
                assert(post.last() == old(self)@[i as int]);
            }
            let sender_here = self.members[i].id == sender;
            if !sender_here {
                let msg = text.clone();
                let m = elem_mut(&mut self.members, i);
                m.mailbox.push(msg);
                notified.push(self.members[i].id);
                proof {
                    assert(mail(self.members@[i as int]) =~= mail(old(self)@[i as int]).push(
                        text@,
                    ));
                }
            }
            i = i + 1;
        }
        proof {
            assert(old(self)@.subrange(0, n as int) =~= old(self)@);
        }
        notified
    }

    /// Takes the oldest queued message of the participant carrying `id`, if
    /// it exists and has one; everything else is left alone.
    pub fn pop_mailbox(&mut self, id: u64) -> (msg: Option<String>)
        requires
            old(self).wf(),
        ensures
            final(self)@.len() == old(self)@.len(),
            forall|i: int|
                0 <= i < old(self)@.len() ==> (#[trigger] final(self)@[i]).id == old(self)@[i].id
                    && final(self)@[i].name == old(self)@[i].name,
            match msg {
                Some(m) => {
                    &&& has_id(old(self)@, id)
                    &&& mail(old(self)@[idx_of(old(self)@, id)]).len() > 0
                    &&& m@ == mail(old(self)@[idx_of(old(self)@, id)])[0]
                    &&& mail(final(self)@[idx_of(old(self)@, id)]) == mail(
                        old(self)@[idx_of(old(self)@, id)],
                    ).drop_first()
                    &&& forall|i: int|
                        0 <= i < old(self)@.len() && i != idx_of(old(self)@, id)
                            ==> #[trigger] final(self)@[i] == old(self)@[i]
                },
                None => {
                    &&& final(self)@ == old(self)@
                    &&& (has_id(old(self)@, id) ==> mail(
                        old(self)@[idx_of(old(self)@, id)],
                    ).len() == 0)
                },
            },
            final(self).wf(),
    {
        let n = self.members.len();
        let mut i: usize = 0;
        while i < n
            invariant
                self.members@ == old(self)@,
                n == self.members.len(),
                0 <= i <= n,
                unique_ids(self.members@),
                forall|j: int| 0 <= j < i ==> (#[trigger] self.members@[j]).id != id,
            decreases n - i,
        {
            if self.members[i].id == id {
                proof {
                    let s0 = old(self)@;
                    let k = idx_of(s0, id);
                    assert(0 <= k < s0.len() && s0[k].id == id);
                    if k < i as int {
                        assert(s0[k].id != s0[i as int].id);
                    } else if k > i as int {
                        assert(s0[i as int].id != s0[k].id);
                    }
                    assert(k == i as int);
                }
                let m = elem_mut(&mut self.members, i);
                if m.mailbox.len() == 0 {
                    return None;
                }
                let front = m.mailbox.remove(0);
                proof {
                    assert(mail(self.members@[i as int]) =~= mail(old(self)@[i as int])
                        .drop_first());
                    assert(front@ == mail(old(self)@[i as int])[0]);
                }
                return Some(front);
            }
            i = i + 1;
        }
        proof {
            let s0 = old(self)@;
            if has_id(s0, id) {
                let k = idx_of(s0, id);
                assert(s0[k].id != id);
            }
        }
        None
    }

    /// The display names of all active participants, in table order.
    pub fn snapshot_names(&self) -> (r: Vec<String>)
        ensures
            r@.len() == self@.len(),
            forall|i: int| 0 <= i < self@.len() ==> (#[trigger] r@[i])@ == self@[i].name@,
    {
        let n = self.members.len();
        let mut r: Vec<String> = Vec::new();
        let mut i: usize = 0;
        while i < n
            invariant
                n == self.members.len(),
                0 <= i <= n,
                r@.len() == i,
                forall|j: int| 0 <= j < i ==> (#[trigger] r@[j])@ == self.members@[j].name@,
            decreases n - i,
        {
            r.push(self.members[i].name.clone());
            i = i + 1;
        }
        r
    }

    /// Whether a participant carrying `id` is active.
    pub fn contains(&self, id: u64) -> (r: bool)
        ensures
            r == has_id(self@, id),
    {
        let n = self.members.len();
        let mut i: usize = 0;
        while i < n
            invariant
                n == self.members.len(),
                0 <= i <= n,
                forall|j: int| 0 <= j < i ==> (#[trigger] self.members@[j]).id != id,
            decreases n - i,
        {
            if self.members[i].id == id {
                return true;
            }
            i = i + 1;
        }
        false
    }

    /// How many participants are active.
    pub fn len(&self) -> (n: usize)
        ensures
            n == self@.len(),
    {
        self.members.len()
    }
}

/// Removing index `k` keeps every other member, in order.
pub proof fn lemma_remove_keeps_others(s: Seq<Member>, k: int)
    requires
        0 <= k < s.len(),
    ensures
        s.remove(k).len() == s.len() - 1,
        forall|j: int| 0 <= j < k ==> #[trigger] s.remove(k)[j] == s[j],
        forall|j: int| k <= j < s.len() - 1 ==> #[trigger] s.remove(k)[j] == s[j + 1],
{
}

} // verus!
