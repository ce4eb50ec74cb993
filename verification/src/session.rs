//! Per-connection session logic: the one-time join handshake, and the
//! steady-state alternation between relaying this client's lines to the room
//! and delivering queued mailbox messages to this client.
//!
//! The handshake registers a participant and computes the room snapshot under
//! one exclusive view of the registry, so the snapshot lists exactly the
//! participants that receive the join announcement. A departing participant
//! is unregistered before the leave announcement is broadcast, so it never
//! receives its own departure notice.

use vstd::prelude::*;
use crate::name::{username_valid, valid_name};
use crate::room::{has_id, idx_of, mail, names, recipients, spec_remove, Member, Room};

verus! {

/// The banner sent to a fresh connection, around a deployment tag chosen by
/// the environment.
pub open spec fn welcome_msg(tag: Seq<char>) -> Seq<char> {
    "Welcome to budgetchat "@ + tag + "! What shall I call you?"@
}

/// The announcement the room hears when `name` joins.
pub open spec fn join_msg(name: Seq<char>) -> Seq<char> {
    "* "@ + name + " has joined"@
}

/// The announcement the room hears when `name` leaves.
pub open spec fn leave_msg(name: Seq<char>) -> Seq<char> {
    "* "@ + name + " has left the chat"@
}

/// A chat line from `name`, as the other participants see it.
pub open spec fn relay_msg(name: Seq<char>, line: Seq<char>) -> Seq<char> {
    "["@ + name + "] "@ + line
}

/// The names joined with commas, as the room snapshot lists them.
pub open spec fn spec_join_names(ns: Seq<Seq<char>>) -> Seq<char>
    decreases ns.len(),
{
    if ns.len() == 0 {
        Seq::empty()
    } else if ns.len() == 1 {
        ns[0]
    } else {
        spec_join_names(ns.drop_last()) + ", "@ + ns.last()
    }
}

/// The frame a newly joined participant receives: the names of all the
/// others, comma-joined.
pub open spec fn room_contains_msg(ns: Seq<Seq<char>>) -> Seq<char> {
    "* The room contains: "@ + spec_join_names(ns)
}

/// Builds the welcome banner around the environment's deployment tag.
pub fn format_welcome(tag: &String) -> (r: String)
    ensures
        r@ == welcome_msg(tag@),
{
    let mut r = String::from_str("Welcome to budgetchat ");
    r.append(tag.as_str());
    r.append("! What shall I call you?");
    r
}

/// Builds the join announcement for `name`.
pub fn format_join(name: &String) -> (r: String)
    ensures
        r@ == join_msg(name@),
{
    let mut r = String::from_str("* ");
    r.append(name.as_str());
    r.append(" has joined");
    r
}

/// Builds the leave announcement for `name`.
pub fn format_leave(name: &String) -> (r: String)
    ensures
        r@ == leave_msg(name@),
{
    let mut r = String::from_str("* ");
    r.append(name.as_str());
    r.append(" has left the chat");
    r
}

/// Builds the relayed form of a chat line from `name`.
pub fn format_relay(name: &String, line: &String) -> (r: String)
    ensures
        r@ == relay_msg(name@, line@),
{
    let mut r = String::from_str("[");
    r.append(name.as_str());
    r.append("] ");
    r.append(line.as_str());
    r
}

/// Joins names with commas.
pub fn join_names(ns: &Vec<String>) -> (r: String)
    ensures
        r@ == spec_join_names(ns.deep_view()),
{
    let mut r = String::new();
    let n = ns.len();
    let mut i: usize = 0;
    proof {
        assert(ns.deep_view().subrange(0, 0) =~= Seq::<Seq<char>>::empty());
    }
    while i < n
        invariant
            n == ns@.len(),
            0 <= i <= n,
            r@ == spec_join_names(ns.deep_view().subrange(0, i as int)),
        decreases n - i,
    {
        proof {
            let pre = ns.deep_view().subrange(0, i as int);
            let post = ns.deep_view().subrange(0, i as int + 1);
            assert(post.drop_last() =~= pre);
            assert(post.last() == ns@[i as int]@);
        }
        if i > 0 {
            r.append(", ");
        }
        r.append(ns[i].as_str());
        i = i + 1;
    }
    proof {
        assert(ns.deep_view().subrange(0, n as int) =~= ns.deep_view());
    }
    r
}

/// What a successful handshake hands back: the snapshot frame for the new
/// participant and the identifiers that were sent the join announcement.
pub struct JoinOutcome {
    pub room_contains: String,
    pub notified: Vec<u64>,
}

/// Runs the join handshake for the proposed name of a fresh connection.
///
/// An invalid name leaves the room untouched and yields nothing; the
/// connection is to be closed silently. A valid name registers the
/// participant, hands back the snapshot of the *other* participants' names,
/// and enqueues the join announcement to exactly those participants, all
/// under one exclusive view of the registry.
pub fn join(room: &mut Room, id: u64, name: &String) -> (r: Option<JoinOutcome>)
    requires
        old(room).wf(),
        !has_id(old(room)@, id),
    ensures
        final(room).wf(),
        r is None ==> final(room)@ == old(room)@ && !valid_name(name@),
        r is Some ==> valid_name(name@),
        (match r {
            None => true,
            Some(out) => {
                &&& out.room_contains@ == room_contains_msg(names(old(room)@))
                &&& final(room)@.len() == old(room)@.len() + 1
                &&& final(room)@.last().id == id
                &&& final(room)@.last().name@ == name@
                &&& mail(final(room)@.last()) == Seq::<Seq<char>>::empty()
                &&& forall|i: int|
                    0 <= i < old(room)@.len() ==> (#[trigger] final(room)@[i]).id == old(
                        room,
                    )@[i].id && final(room)@[i].name == old(room)@[i].name
                &&& forall|i: int|
                    0 <= i < old(room)@.len() ==> mail(#[trigger] final(room)@[i]) == mail(
                        old(room)@[i],
                    ).push(join_msg(name@))
                &&& out.notified@ == recipients(old(room)@, id)
            },
        }),
{
    if !username_valid(name) {
        return None;
    }
    let snapshot = room.snapshot_names();
    proof {
        assert(snapshot.deep_view() =~~= names(old(room)@));
    }
    let joined = join_names(&snapshot);
    let mut room_contains = String::from_str("* The room contains: ");
    room_contains.append(joined.as_str());
    room.register(id, name.clone());
    let ghost mid = room@;
    let announcement = format_join(name);
    let notified = room.broadcast(id, &announcement);
    proof {
        assert(mid.drop_last() =~= old(room)@);
        assert(forall|i: int|
            0 <= i < old(room)@.len() ==> #[trigger] mid[i] == old(room)@[i]);
    }
    Some(JoinOutcome { room_contains, notified })
}

/// Relays one chat line from an active participant: formats it and enqueues
/// it to every other participant's mailbox, in one registry critical section.
pub fn relay(room: &mut Room, id: u64, name: &String, line: &String) -> (notified: Vec<u64>)
    requires
        old(room).wf(),
    ensures
        final(room).wf(),
        final(room)@.len() == old(room)@.len(),
        forall|i: int|
            0 <= i < old(room)@.len() ==> (#[trigger] final(room)@[i]).id == old(room)@[i].id
                && final(room)@[i].name == old(room)@[i].name,
        forall|i: int|
            0 <= i < old(room)@.len() && old(room)@[i].id != id ==> mail(
                #[trigger] final(room)@[i],
            ) == mail(old(room)@[i]).push(relay_msg(name@, line@)),
        forall|i: int|
            0 <= i < old(room)@.len() && old(room)@[i].id == id ==> (#[trigger] final(
                room)@[i]) == old(room)@[i],
        notified@ == recipients(old(room)@, id),
{
    let msg = format_relay(name, line);
    room.broadcast(id, &msg)
}

/// Ends an active participant's session: unregisters it, then broadcasts the
/// departure to the participants that remain, so the departing connection is
/// excluded from both the recipients and any later snapshot.
pub fn leave(room: &mut Room, id: u64, name: &String) -> (notified: Vec<u64>)
    requires
        old(room).wf(),
    ensures
        final(room).wf(),
        !has_id(final(room)@, id),
        final(room)@.len() == spec_remove(old(room)@, id).len(),
        forall|i: int|
            0 <= i < spec_remove(old(room)@, id).len() ==> (#[trigger] final(room)@[i]).id
                == spec_remove(old(room)@, id)[i].id && final(room)@[i].name == spec_remove(
                old(room)@,
                id,
            )[i].name,
        forall|i: int|
            0 <= i < spec_remove(old(room)@, id).len() ==> mail(#[trigger] final(room)@[i])
                == mail(spec_remove(old(room)@, id)[i]).push(leave_msg(name@)),
        notified@ == recipients(spec_remove(old(room)@, id), id),
{
    room.unregister(id);
    let msg = format_leave(name);
    room.broadcast(id, &msg)
}

/// One steady-state event for an active participant's session.
pub enum SessionEvent {
    /// A complete frame arrived from this client.
    InboundLine(String),
    /// The inbound stream ended or failed, or the client broke the protocol.
    InboundEnded,
    /// This participant's mailbox may hold a message to deliver.
    MailboxReady,
}

/// What the session is to do next.
pub enum SessionAction {
    /// The line was relayed; wake the listed participants.
    Notified(Vec<u64>),
    /// Write this frame to the client, or nothing was queued.
    Deliver(Option<String>),
    /// The session is over: the participant is gone, and the listed
    /// participants are to be woken for the departure announcement.
    Ended(Vec<u64>),
}

/// Advances an active session by one event, as the read / deliver loop does:
/// an inbound line is relayed to the others, the end of the inbound stream
/// unregisters the participant and announces the departure, and a mailbox
/// wake-up takes the oldest queued message for delivery.
pub fn session_step(room: &mut Room, id: u64, name: &String, event: SessionEvent) -> (action:
    SessionAction)
    requires
        old(room).wf(),
    ensures
        final(room).wf(),
        (match event {
            SessionEvent::InboundLine(line) => (match action {
                SessionAction::Notified(notified) => {
                    &&& final(room)@.len() == old(room)@.len()
                    &&& forall|i: int|
                        0 <= i < old(room)@.len() && old(room)@[i].id != id ==> mail(
                            #[trigger] final(room)@[i],
                        ) == mail(old(room)@[i]).push(relay_msg(name@, line@))
                    &&& forall|i: int|
                        0 <= i < old(room)@.len() && old(room)@[i].id == id ==> (
                        #[trigger] final(room)@[i]) == old(room)@[i]
                    &&& notified@ == recipients(old(room)@, id)
                },
                _ => false,
            }),
            SessionEvent::InboundEnded => (match action {
                SessionAction::Ended(notified) => {
                    &&& !has_id(final(room)@, id)
                    &&& final(room)@.len() == spec_remove(old(room)@, id).len()
                    &&& forall|i: int|
                        0 <= i < spec_remove(old(room)@, id).len() ==> mail(
                            #[trigger] final(room)@[i],
                        ) == mail(spec_remove(old(room)@, id)[i]).push(leave_msg(name@))
                    &&& notified@ == recipients(spec_remove(old(room)@, id), id)
                },
                _ => false,
            }),
            SessionEvent::MailboxReady => (match action {
                SessionAction::Deliver(msg) => (match msg {
                    Some(m) => {
                        &&& has_id(old(room)@, id)
                        &&& mail(old(room)@[idx_of(old(room)@, id)]).len() > 0
                        &&& m@ == mail(old(room)@[idx_of(old(room)@, id)])[0]
                        &&& mail(final(room)@[idx_of(old(room)@, id)]) == mail(
                            old(room)@[idx_of(old(room)@, id)],
                        ).drop_first()
                    },
                    None => final(room)@ == old(room)@,
                }),
                _ => false,
            }),
        }),
{
    match event {
        SessionEvent::InboundLine(line) => SessionAction::Notified(relay(room, id, name, &line)),
        SessionEvent::InboundEnded => SessionAction::Ended(leave(room, id, name)),
        SessionEvent::MailboxReady => SessionAction::Deliver(room.pop_mailbox(id)),
    }
}

} // verus!
