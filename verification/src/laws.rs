//! What holds of the session protocol in every world that its steps can
//! reach, whatever the order in which dispatch calls and actors take them.

use crate::actor::{drained, ActorView, Phase};
use crate::codec::{encoded, lemma_snapshot_round_trip, restored};
use crate::game::{advanced, lemma_advanced_twice, next_state, reply_in};
use crate::mailbox::{MailboxView, MAILBOX_CAPACITY};
use crate::protocol::{
    can_dispatch, can_finish, can_receive, can_time_out, dispatch, dispatch_all, drain_all,
    finish, initial, live, next, receive, retire, run, snapshot, spawned, texts, time_out,
    Session, Step, World,
};
use vstd::prelude::*;

verus! {

/// How many sessions were ever spawned for `channel`.
pub open spec fn spawned_for(sessions: Seq<Session>, channel: u64) -> nat
    decreases sessions.len(),
{
    if sessions.len() == 0 {
        0
    } else {
        spawned_for(sessions.drop_last(), channel) + if sessions.last().actor.channel == channel {
            1nat
        } else {
            0nat
        }
    }
}

/// How many sessions of `channel` have ended.
pub open spec fn ended_for(sessions: Seq<Session>, channel: u64) -> nat
    decreases sessions.len(),
{
    if sessions.len() == 0 {
        0
    } else {
        ended_for(sessions.drop_last(), channel) + if sessions.last().actor.channel == channel
            && !live(sessions.last()) {
            1nat
        } else {
            0nat
        }
    }
}

/// The texts that dispatch has accepted for `channel` and that no actor has
/// taken yet: what waits in the mailbox of the channel's live session.
pub open spec fn pending(w: World, channel: u64) -> Seq<Seq<char>> {
    if w.registry.contains_key(channel) {
        w.sessions[w.registry[channel] as int].mailbox.queue
    } else {
        Seq::empty()
    }
}

/// A session is sound when its mailbox keeps its bound, its game fits its
/// counter, and its mailbox is open exactly while its actor is active and
/// empty once its actor has terminated.
pub open spec fn sound(session: Session) -> bool {
    &&& session.mailbox.wf()
    &&& session.actor.game <= u64::MAX
    &&& session.mailbox.closed <==> session.actor.phase != Phase::Active
    &&& session.actor.phase == Phase::Terminated ==> session.mailbox.queue.len() == 0
}

/// Every registry entry names a live session of its channel.
pub open spec fn entries_name_live_sessions(w: World) -> bool {
    forall|c: u64| #[trigger]
        w.registry.contains_key(c) ==> {
            &&& w.registry[c] < w.sessions.len()
            &&& live(w.sessions[w.registry[c] as int])
            &&& w.sessions[w.registry[c] as int].actor.channel == c
        }
}

/// Every live session is the one that the registry names for its channel.
pub open spec fn live_sessions_are_entered(w: World) -> bool {
    forall|i: int|
        0 <= i < w.sessions.len() && live(#[trigger] w.sessions[i]) ==> {
            &&& w.registry.contains_key(w.sessions[i].actor.channel)
            &&& w.registry[w.sessions[i].actor.channel] == i
        }
}

/// Every session is sound.
pub open spec fn sessions_sound(w: World) -> bool {
    forall|i: int| 0 <= i < w.sessions.len() ==> sound(#[trigger] w.sessions[i])
}

/// No accepted text is lost or reordered: for each channel, the texts
/// accepted are those handed to the game, followed by those still pending.
pub open spec fn nothing_lost(w: World) -> bool {
    forall|c: u64| #[trigger] texts(w.accepted, c) == texts(w.consumed, c) + pending(w, c)
}

/// Each text handed to the game got one reply.
pub open spec fn one_reply_each(w: World) -> bool {
    forall|c: u64| #[trigger] texts(w.replies, c).len() == texts(w.consumed, c).len()
}

/// For each channel, every session spawned has ended, but for the one that
/// the registry names.
pub open spec fn one_session_at_a_time(w: World) -> bool {
    forall|c: u64| #[trigger]
        spawned_for(w.sessions, c) == ended_for(w.sessions, c) + if w.registry.contains_key(c) {
            1nat
        } else {
            0nat
        }
}

/// The invariant of the protocol.
pub open spec fn inv(w: World) -> bool {
    &&& entries_name_live_sessions(w)
    &&& live_sessions_are_entered(w)
    &&& sessions_sound(w)
    &&& nothing_lost(w)
    &&& one_reply_each(w)
    &&& one_session_at_a_time(w)
}

/// Appending a session counts it for its own channel only.
pub proof fn lemma_counts_push(sessions: Seq<Session>, session: Session, channel: u64)
    ensures
        spawned_for(sessions.push(session), channel) == spawned_for(sessions, channel) + if session.actor.channel
            == channel {
            1nat
        } else {
            0nat
        },
        ended_for(sessions.push(session), channel) == ended_for(sessions, channel) + if session.actor.channel
            == channel && !live(session) {
            1nat
        } else {
            0nat
        },
{
    assert(sessions.push(session).drop_last() =~= sessions);
}

/// Replacing a session by one of the same channel keeps the number of
/// sessions spawned, and moves the number of sessions ended only as far as
/// the replaced session has ended.
pub proof fn lemma_counts_update(sessions: Seq<Session>, i: int, session: Session, channel: u64)
    requires
        0 <= i < sessions.len(),
        session.actor.channel == sessions[i].actor.channel,
    ensures
        spawned_for(sessions.update(i, session), channel) == spawned_for(sessions, channel),
        ended_for(sessions.update(i, session), channel) + (if sessions[i].actor.channel == channel
            && !live(sessions[i]) {
            1nat
        } else {
            0nat
        }) == ended_for(sessions, channel) + (if session.actor.channel == channel && !live(
            session,
        ) {
            1nat
        } else {
            0nat
        }),
    decreases sessions.len(),
{
    let updated = sessions.update(i, session);
    if i == sessions.len() - 1 {
        assert(updated.drop_last() =~= sessions.drop_last());
    } else {
        assert(updated.drop_last() =~= sessions.drop_last().update(i, session));
        lemma_counts_update(sessions.drop_last(), i, session, channel);
    }
}

/// The world before anything happened satisfies the invariant.
pub proof fn lemma_initial_inv(store: Map<u64, Seq<u8>>)
    ensures
        inv(initial(store)),
{
    let w = initial(store);
    assert forall|c: u64| #[trigger] texts(w.accepted, c) == texts(w.consumed, c) + pending(w, c) by {}
}

/// A dispatch keeps the invariant.
pub proof fn lemma_dispatch_inv(w: World, channel: u64, text: Seq<char>)
    requires
        inv(w),
    ensures
        inv(dispatch(w, channel, text)),
{
    let v = dispatch(w, channel, text);
    if can_dispatch(w, channel) {
        assert(live_sessions_are_entered(v));
        assert(entries_name_live_sessions(v));
        assert forall|c: u64| #[trigger]
            texts(v.accepted, c) == texts(v.consumed, c) + pending(v, c) by {
            assert(texts(w.accepted, c) == texts(w.consumed, c) + pending(w, c));
        }
        assert(one_reply_each(v));
        assert forall|c: u64| #[trigger]
            spawned_for(v.sessions, c) == ended_for(v.sessions, c) + if v.registry.contains_key(c) {
                1nat
            } else {
                0nat
            } by {
            if w.registry.contains_key(channel) {
                let i = w.registry[channel] as int;
                lemma_counts_update(w.sessions, i, v.sessions[i], c);
            } else {
                lemma_counts_push(w.sessions, v.sessions.last(), c);
            }
        }
    }
}

/// Replacing session `i` by a session of the same channel that is live
/// exactly if the old one was keeps the two parts of the invariant that tie
/// the registry to the sessions, and the count of sessions.
proof fn lemma_update_keeps_registry(w: World, v: World, i: int, session: Session)
    requires
        inv(w),
        0 <= i < w.sessions.len(),
        session.actor.channel == w.sessions[i].actor.channel,
        live(session) == live(w.sessions[i]),
        sound(session),
        v.registry == w.registry,
        v.sessions == w.sessions.update(i, session),
    ensures
        entries_name_live_sessions(v),
        live_sessions_are_entered(v),
        sessions_sound(v),
        one_session_at_a_time(v),
{
    assert(live_sessions_are_entered(v));
    assert(entries_name_live_sessions(v));
    assert forall|c: u64| #[trigger]
        spawned_for(v.sessions, c) == ended_for(v.sessions, c) + if v.registry.contains_key(c) {
            1nat
        } else {
            0nat
        } by {
        lemma_counts_update(w.sessions, i, session, c);
    }
}

/// Answering a text keeps the invariant.
pub proof fn lemma_receive_inv(w: World, i: nat, stored: bool)
    requires
        inv(w),
    ensures
        inv(receive(w, i, stored)),
{
    let v = receive(w, i, stored);
    if can_receive(w, i) {
        lemma_update_keeps_registry(w, v, i as int, v.sessions[i as int]);
        assert forall|c: u64| #[trigger]
            texts(v.accepted, c) == texts(v.consumed, c) + pending(v, c) by {}
        assert forall|c: u64| #[trigger]
            texts(v.replies, c).len() == texts(v.consumed, c).len() by {
            assert(texts(w.replies, c).len() == texts(w.consumed, c).len());
        }
    }
}

/// Acting upon an idle timeout keeps the invariant.
pub proof fn lemma_time_out_inv(w: World, i: nat)
    requires
        inv(w),
    ensures
        inv(time_out(w, i)),
{
    let v = time_out(w, i);
    if can_time_out(w, i) {
        lemma_update_keeps_registry(w, v, i as int, v.sessions[i as int]);
        assert(nothing_lost(v));
        assert(one_reply_each(v));
    }
}

/// The end of a session keeps the invariant.
pub proof fn lemma_finish_inv(w: World, i: nat, stored: bool)
    requires
        inv(w),
    ensures
        inv(finish(w, i, stored)),
{
    let v = finish(w, i, stored);
    if can_finish(w, i) {
        assert(live_sessions_are_entered(v));
        assert(entries_name_live_sessions(v));
        assert(nothing_lost(v));
        assert(one_reply_each(v));
        assert forall|c: u64| #[trigger]
            spawned_for(v.sessions, c) == ended_for(v.sessions, c) + if v.registry.contains_key(c) {
                1nat
            } else {
                0nat
            } by {
            lemma_counts_update(w.sessions, i as int, v.sessions[i as int], c);
        }
    }
}

/// Every step keeps the invariant.
pub proof fn lemma_next_inv(w: World, step: Step)
    requires
        inv(w),
    ensures
        inv(next(w, step)),
{
    match step {
        Step::Dispatch { channel, text } => lemma_dispatch_inv(w, channel, text),
        Step::Receive { session, stored } => lemma_receive_inv(w, session, stored),
        Step::TimeOut { session } => lemma_time_out_inv(w, session),
        Step::Finish { session, stored } => lemma_finish_inv(w, session, stored),
    }
}

/// The invariant holds after any steps taken from a world in which it holds:
/// in particular in every world that the protocol can reach from its start.
pub proof fn lemma_run_inv(w: World, steps: Seq<Step>)
    requires
        inv(w),
    ensures
        inv(run(w, steps)),
    decreases steps.len(),
{
    if steps.len() > 0 {
        lemma_run_inv(w, steps.drop_last());
        lemma_next_inv(run(w, steps.drop_last()), steps.last());
    }
}

/// No two live sessions serve the same channel.
pub proof fn lemma_at_most_one_live_session(w: World, i: int, j: int)
    requires
        inv(w),
        0 <= i < w.sessions.len(),
        0 <= j < w.sessions.len(),
        live(w.sessions[i]),
        live(w.sessions[j]),
        w.sessions[i].actor.channel == w.sessions[j].actor.channel,
    ensures
        i == j,
{
}

/// A channel has a registry entry exactly if it has a live session, and the
/// entry names that session.
pub proof fn lemma_entry_iff_live_session(w: World, channel: u64)
    requires
        inv(w),
    ensures
        w.registry.contains_key(channel) <==> exists|i: int|
            0 <= i < w.sessions.len() && live(#[trigger] w.sessions[i]) && w.sessions[i].actor.channel
                == channel,
{
}

/// After a dispatch for a channel, the channel has a registry entry.
pub proof fn lemma_dispatch_enters(w: World, channel: u64, text: Seq<char>)
    ensures
        dispatch(w, channel, text).registry.contains_key(channel),
{
}

/// A dispatch for a channel without a live session spawns exactly one
/// session: an active one whose game comes from the channel's snapshot and
/// whose mailbox holds the text.  A dispatch for a channel with a live
/// session spawns none.
pub proof fn lemma_dispatch_spawns(w: World, channel: u64, text: Seq<char>)
    requires
        inv(w),
    ensures
        ({
            let v = dispatch(w, channel, text);
            if w.registry.contains_key(channel) {
                &&& v.sessions.len() == w.sessions.len()
                &&& v.registry == w.registry
                &&& spawned_for(v.sessions, channel) == spawned_for(w.sessions, channel)
            } else {
                &&& v.sessions == w.sessions.push(spawned(w.store, channel, text))
                &&& v.registry == w.registry.insert(channel, w.sessions.len())
                &&& v.sessions.last().mailbox.queue == seq![text]
                &&& spawned_for(v.sessions, channel) == spawned_for(w.sessions, channel) + 1
            }
        }),
{
    let v = dispatch(w, channel, text);
    if w.registry.contains_key(channel) {
        if can_dispatch(w, channel) {
            let i = w.registry[channel] as int;
            lemma_counts_update(w.sessions, i, v.sessions[i], channel);
        }
    } else {
        lemma_counts_push(w.sessions, spawned(w.store, channel, text), channel);
    }
}

/// Concurrent first dispatches: when dispatch calls for a channel without a
/// live session get hold of the registry one after the other, the first
/// spawns the channel's session and the others find it.  One session is
/// spawned, and its mailbox holds all the texts in the order of the calls.
pub proof fn lemma_concurrent_first_dispatches(w: World, channel: u64, offered: Seq<Seq<char>>)
    requires
        inv(w),
        !w.registry.contains_key(channel),
        1 <= offered.len() <= MAILBOX_CAPACITY,
    ensures
        ({
            let v = dispatch_all(w, channel, offered);
            &&& inv(v)
            &&& v.sessions.len() == w.sessions.len() + 1
            &&& v.sessions.drop_last() == w.sessions
            &&& v.registry == w.registry.insert(channel, w.sessions.len())
            &&& v.sessions.last().actor == spawned(w.store, channel, offered[0]).actor
            &&& v.sessions.last().mailbox == (MailboxView {
                queue: offered,
                capacity: MAILBOX_CAPACITY as nat,
                closed: false,
            })
            &&& spawned_for(v.sessions, channel) == spawned_for(w.sessions, channel) + 1
            &&& texts(v.accepted, channel) == texts(w.accepted, channel) + offered
            &&& v.store == w.store
        }),
    decreases offered.len(),
{
    let v = dispatch_all(w, channel, offered);
    if offered.len() == 1 {
        lemma_dispatch_inv(w, channel, offered.last());
        lemma_dispatch_spawns(w, channel, offered.last());
        assert(v.sessions.last().mailbox.queue =~= offered);
    } else {
        let head = offered.drop_last();
        let u = dispatch_all(w, channel, head);
        lemma_concurrent_first_dispatches(w, channel, head);
        lemma_dispatch_inv(u, channel, offered.last());
        let n = w.sessions.len() as int;
        lemma_counts_update(u.sessions, n, v.sessions[n], channel);
        assert(v.sessions.last().mailbox.queue =~= offered);
    }
}

/// A step only ever appends to the logs of a channel.
pub proof fn lemma_next_logs_grow(w: World, step: Step, channel: u64)
    ensures
        texts(w.accepted, channel).is_prefix_of(texts(next(w, step).accepted, channel)),
        texts(w.consumed, channel).is_prefix_of(texts(next(w, step).consumed, channel)),
        texts(w.replies, channel).is_prefix_of(texts(next(w, step).replies, channel)),
{
}

/// Steps only ever append to the logs of a channel.
pub proof fn lemma_run_logs_grow(w: World, steps: Seq<Step>, channel: u64)
    ensures
        texts(w.accepted, channel).is_prefix_of(texts(run(w, steps).accepted, channel)),
        texts(w.consumed, channel).is_prefix_of(texts(run(w, steps).consumed, channel)),
        texts(w.replies, channel).is_prefix_of(texts(run(w, steps).replies, channel)),
    decreases steps.len(),
{
    if steps.len() > 0 {
        let u = run(w, steps.drop_last());
        lemma_run_logs_grow(w, steps.drop_last(), channel);
        lemma_next_logs_grow(u, steps.last(), channel);
        let v = run(w, steps);
        lemma_prefix_trans(
            texts(w.accepted, channel),
            texts(u.accepted, channel),
            texts(v.accepted, channel),
        );
        lemma_prefix_trans(
            texts(w.consumed, channel),
            texts(u.consumed, channel),
            texts(v.consumed, channel),
        );
        lemma_prefix_trans(
            texts(w.replies, channel),
            texts(u.replies, channel),
            texts(v.replies, channel),
        );
    }
}

/// A prefix of a prefix is a prefix.
proof fn lemma_prefix_trans<A>(a: Seq<A>, b: Seq<A>, c: Seq<A>)
    requires
        a.is_prefix_of(b),
        b.is_prefix_of(c),
    ensures
        a.is_prefix_of(c),
{
}

/// First in, first out, for each channel: whatever steps are taken, the
/// texts handed to the game are always the first of the texts that dispatch
/// accepted, in the order in which it accepted them; what was handed to the
/// game before stays at the front; and the replies come one for each text, in
/// the same order.
pub proof fn lemma_fifo(w: World, steps: Seq<Step>, channel: u64)
    requires
        inv(w),
    ensures
        ({
            let v = run(w, steps);
            &&& texts(w.accepted, channel).is_prefix_of(texts(v.accepted, channel))
            &&& texts(w.consumed, channel).is_prefix_of(texts(v.consumed, channel))
            &&& texts(w.replies, channel).is_prefix_of(texts(v.replies, channel))
            &&& texts(v.consumed, channel).is_prefix_of(texts(v.accepted, channel))
            &&& texts(v.replies, channel).len() == texts(v.consumed, channel).len()
        }),
{
    lemma_run_inv(w, steps);
    lemma_run_logs_grow(w, steps, channel);
}

/// One session for each stretch of liveness, under any interleaving: if a
/// channel has no live session, and after some steps has one, and none of its
/// sessions has ended in between, then exactly one session was spawned for
/// it; and the texts accepted for the channel in between are exactly those
/// that this session was handed since, followed by those in its mailbox, in
/// the order of acceptance.
pub proof fn lemma_one_session_per_stretch(w: World, steps: Seq<Step>, channel: u64)
    requires
        inv(w),
        !w.registry.contains_key(channel),
        run(w, steps).registry.contains_key(channel),
        ended_for(run(w, steps).sessions, channel) == ended_for(w.sessions, channel),
    ensures
        ({
            let v = run(w, steps);
            let session = v.sessions[v.registry[channel] as int];
            &&& spawned_for(v.sessions, channel) == spawned_for(w.sessions, channel) + 1
            &&& live(session) && session.actor.channel == channel
            &&& texts(w.accepted, channel).len() == texts(w.consumed, channel).len()
            &&& texts(w.consumed, channel).len() <= texts(v.consumed, channel).len()
            &&& texts(v.accepted, channel).skip(texts(w.accepted, channel).len() as int)
                == texts(v.consumed, channel).skip(texts(w.consumed, channel).len() as int)
                + session.mailbox.queue
        }),
{
    lemma_run_inv(w, steps);
    lemma_run_logs_grow(w, steps, channel);
}

/// The store is current when, for each channel with a live session, the
/// snapshot in the store is that of the state which the session's actor
/// holds.
pub open spec fn store_is_current(w: World) -> bool {
    forall|c: u64| #[trigger]
        w.registry.contains_key(c) ==> restored(snapshot(w.store, c)) == w.sessions[w.registry[c] as int].actor.game
}

/// Whether the write that `step` makes to the store, if it makes one,
/// succeeds.
pub open spec fn writes(step: Step) -> bool {
    match step {
        Step::Receive { stored, .. } => stored,
        Step::Finish { stored, .. } => stored,
        _ => true,
    }
}

/// Whether every snapshot written during `steps` reached the store.
pub open spec fn all_stored(steps: Seq<Step>) -> bool {
    forall|k: int| 0 <= k < steps.len() ==> writes(#[trigger] steps[k])
}

/// The replies to `count` texts in a row, the first arriving in `state`.
pub open spec fn replies_from(state: nat, count: nat) -> Seq<Seq<char>> {
    Seq::new(count, |k: int| reply_in(advanced(state, k as nat)))
}

/// The replies to texts answered in a row are those to the first of them,
/// followed by those to the rest in the state that the first left.
pub proof fn lemma_replies_in_a_row(state: nat, first: nat, rest: nat)
    ensures
        replies_from(state, first) + replies_from(advanced(state, first), rest) == replies_from(
            state,
            first + rest,
        ),
{
    let joined = replies_from(state, first) + replies_from(advanced(state, first), rest);
    assert forall|k: int| 0 <= k < first + rest implies joined[k] == replies_from(
        state,
        first + rest,
    )[k] by {
        if k >= first {
            lemma_advanced_twice(state, first, (k - first) as nat);
        }
    }
}

/// What one step does to the snapshot and the replies of a channel, where no
/// write to the store fails: each text handed to the game moves the state
/// that the channel's snapshot holds on by one and adds the reply given in
/// the state before.
pub proof fn lemma_next_store_reflects(w: World, step: Step, channel: u64)
    requires
        inv(w),
        store_is_current(w),
        writes(step),
    ensures
        ({
            let v = next(w, step);
            let before = restored(snapshot(w.store, channel));
            let count = texts(v.consumed, channel).len() - texts(w.consumed, channel).len();
            &&& store_is_current(v)
            &&& 0 <= count <= 1
            &&& restored(snapshot(v.store, channel)) == advanced(before, count as nat)
            &&& texts(v.replies, channel) == texts(w.replies, channel) + replies_from(
                before,
                count as nat,
            )
        }),
{
    let v = next(w, step);
    let before = restored(snapshot(w.store, channel));
    lemma_advanced_twice(before, 0, 0);
    match step {
        Step::Receive { session, stored } => {
            if can_receive(w, session) {
                let state = w.sessions[session as int].actor.game;
                lemma_advanced_twice(state, 1, 0);
                lemma_snapshot_round_trip(next_state(state), Seq::empty());
            }
        },
        Step::Finish { session, stored } => {
            if can_finish(w, session) {
                let state = w.sessions[session as int].actor.game;
                lemma_snapshot_round_trip(state, Seq::empty());
            }
        },
        _ => {},
    }
    assert forall|d: u64| #[trigger] v.registry.contains_key(d) implies restored(
        snapshot(v.store, d),
    ) == v.sessions[v.registry[d] as int].actor.game by {}
}

/// The snapshot store reflects every text that was handed to the game, as
/// long as no write to it fails: whatever steps are taken, the state that a
/// channel's snapshot holds has moved on by one for each text handed to the
/// channel's game, whether or not the channel has a live session; the actor
/// of a live session holds that same state; and the replies given are those
/// of the states passed through, in order.
pub proof fn lemma_store_reflects(w: World, steps: Seq<Step>, channel: u64)
    requires
        inv(w),
        store_is_current(w),
        all_stored(steps),
    ensures
        ({
            let v = run(w, steps);
            let before = restored(snapshot(w.store, channel));
            let count = texts(v.consumed, channel).len() - texts(w.consumed, channel).len();
            &&& inv(v)
            &&& store_is_current(v)
            &&& count >= 0
            &&& restored(snapshot(v.store, channel)) == advanced(before, count as nat)
            &&& texts(v.replies, channel) == texts(w.replies, channel) + replies_from(
                before,
                count as nat,
            )
        }),
    decreases steps.len(),
{
    let v = run(w, steps);
    let before = restored(snapshot(w.store, channel));
    if steps.len() == 0 {
        lemma_advanced_twice(before, 0, 0);
    } else {
        let head = steps.drop_last();
        let u = run(w, head);
        lemma_store_reflects(w, head, channel);
        lemma_next_store_reflects(u, steps.last(), channel);
        lemma_next_inv(u, steps.last());
        let mid = (texts(u.consumed, channel).len() - texts(w.consumed, channel).len()) as nat;
        let count = (texts(v.consumed, channel).len() - texts(w.consumed, channel).len()) as nat;
        let more = (count - mid) as nat;
        lemma_advanced_twice(before, mid, more);
        lemma_replies_in_a_row(before, mid, more);
    }
}

/// While a channel has no live session, its snapshot rests: no step touches
/// it.  Only the channel's own actor writes the channel's snapshot.
pub proof fn lemma_snapshot_rests(w: World, step: Step, channel: u64)
    requires
        inv(w),
        !w.registry.contains_key(channel),
    ensures
        snapshot(next(w, step).store, channel) == snapshot(w.store, channel),
{
    match step {
        Step::Receive { session, stored } => {
        },
        Step::Finish { session, stored } => {
        },
        _ => {},
    }
}

/// Whether session `i` is the latest that was spawned for its channel.
pub open spec fn latest_of_channel(sessions: Seq<Session>, i: int) -> bool {
    forall|j: int|
        i < j < sessions.len() ==> (#[trigger] sessions[j]).actor.channel != sessions[i].actor.channel
}

/// Every registry entry names the latest session of its channel.
pub open spec fn entries_are_latest(w: World) -> bool {
    forall|c: u64| #[trigger]
        w.registry.contains_key(c) ==> latest_of_channel(w.sessions, w.registry[c] as int)
}

/// For every channel that has had a session and has no registry entry, the
/// store holds the snapshot of the state in which the channel's latest
/// session ended.
pub open spec fn store_holds_ended(w: World) -> bool {
    forall|i: int|
        0 <= i < w.sessions.len() && !w.registry.contains_key(
            (#[trigger] w.sessions[i]).actor.channel,
        ) && latest_of_channel(w.sessions, i) ==> snapshot(w.store, w.sessions[i].actor.channel)
            == encoded(w.sessions[i].actor.game)
}

/// Whether the last write of every session that ends during `steps` reaches
/// the store.
pub open spec fn teardowns_stored(steps: Seq<Step>) -> bool {
    forall|k: int|
        0 <= k < steps.len() ==> ((#[trigger] steps[k]) matches Step::Finish { stored, .. }
            ==> stored)
}

/// A step keeps the store in hold of the ended sessions' states, provided
/// that, if it ends a session, the session's last write succeeds.  The
/// writes of single turns may fail.
pub proof fn lemma_next_presence(w: World, step: Step)
    requires
        inv(w),
        entries_are_latest(w),
        store_holds_ended(w),
        step matches Step::Finish { stored, .. } ==> stored,
    ensures
        entries_are_latest(next(w, step)),
        store_holds_ended(next(w, step)),
{
    let v = next(w, step);
    lemma_next_inv(w, step);
    assert forall|j: int| 0 <= j < w.sessions.len() implies (#[trigger] v.sessions[j]).actor.channel
        == w.sessions[j].actor.channel by {}
    assert forall|c: u64| #[trigger] v.registry.contains_key(c) implies latest_of_channel(
        v.sessions,
        v.registry[c] as int,
    ) by {
        if w.registry.contains_key(c) {
            assert forall|j: int| w.registry[c] < j < v.sessions.len() implies (
            #[trigger] v.sessions[j]).actor.channel != v.sessions[w.registry[c] as int].actor.channel by {}
        }
    }
    assert forall|i: int|
        0 <= i < v.sessions.len() && !v.registry.contains_key(
            (#[trigger] v.sessions[i]).actor.channel,
        ) && latest_of_channel(v.sessions, i) implies snapshot(v.store, v.sessions[i].actor.channel)
        == encoded(v.sessions[i].actor.game) by {
        let c = v.sessions[i].actor.channel;
        assert(latest_of_channel(w.sessions, i)) by {
            assert forall|j: int| i < j < w.sessions.len() implies (
            #[trigger] w.sessions[j]).actor.channel != c by {
                assert(v.sessions[j].actor.channel != c);
            }
        }
        if w.registry.contains_key(c) {
            // The step ended the channel's session: that session is `i`.
        } else {
            lemma_snapshot_rests(w, step, c);
        }
    }
}

/// Registry presence: in every world that the protocol reaches from its
/// start, as long as the last write of every session that ended succeeded,
/// each channel that has had a session either has a registry entry or has in
/// the store the snapshot of the state in which its latest session ended,
/// which is the state after every text that was handed to the channel's game
/// in that session.
pub proof fn lemma_presence(store: Map<u64, Seq<u8>>, steps: Seq<Step>, i: int)
    requires
        teardowns_stored(steps),
        0 <= i < run(initial(store), steps).sessions.len(),
        latest_of_channel(run(initial(store), steps).sessions, i),
    ensures
        ({
            let v = run(initial(store), steps);
            let session = v.sessions[i];
            let channel = session.actor.channel;
            ||| v.registry.contains_key(channel)
            ||| {
                &&& snapshot(v.store, channel) == encoded(session.actor.game)
                &&& restored(snapshot(v.store, channel)) == session.actor.game
            }
        }),
{
    let v = run(initial(store), steps);
    lemma_run_presence(store, steps);
    let session = v.sessions[i];
    lemma_snapshot_round_trip(session.actor.game, Seq::empty());
}

/// The two facts behind registry presence hold in every world that the
/// protocol reaches from its start with teardowns whose last write succeeds.
pub proof fn lemma_run_presence(store: Map<u64, Seq<u8>>, steps: Seq<Step>)
    requires
        teardowns_stored(steps),
    ensures
        inv(run(initial(store), steps)),
        entries_are_latest(run(initial(store), steps)),
        store_holds_ended(run(initial(store), steps)),
    decreases steps.len(),
{
    lemma_initial_inv(store);
    if steps.len() > 0 {
        let head = steps.drop_last();
        lemma_run_presence(store, head);
        lemma_next_presence(run(initial(store), head), steps.last());
        lemma_next_inv(run(initial(store), head), steps.last());
    }
}

/// A live session that answers what its mailbox holds answers every text in
/// it once, oldest first, each in the state that the one before left, and
/// touches nothing but itself, the logs of its channel and its channel's
/// snapshot.
pub proof fn lemma_drain_all(w: World, i: nat, stored: bool)
    requires
        inv(w),
        i < w.sessions.len(),
        live(w.sessions[i as int]),
    ensures
        ({
            let v = drain_all(w, i, stored);
            let before = w.sessions[i as int];
            let channel = before.actor.channel;
            let count = before.mailbox.queue.len();
            let last = advanced(before.actor.game, count);
            &&& inv(v)
            &&& v.registry == w.registry
            &&& v.accepted == w.accepted
            &&& v.sessions == w.sessions.update(
                i as int,
                Session {
                    actor: ActorView { game: last, ..before.actor },
                    mailbox: MailboxView { queue: Seq::empty(), ..before.mailbox },
                },
            )
            &&& texts(v.consumed, channel) == texts(w.consumed, channel) + before.mailbox.queue
            &&& texts(v.replies, channel) == texts(w.replies, channel) + replies_from(
                before.actor.game,
                count,
            )
            &&& v.store == if stored && count > 0 {
                w.store.insert(channel, encoded(last))
            } else {
                w.store
            }
        }),
    decreases w.sessions[i as int].mailbox.queue.len(),
{
    let v = drain_all(w, i, stored);
    let before = w.sessions[i as int];
    let channel = before.actor.channel;
    let count = before.mailbox.queue.len();
    let game = before.actor.game;
    lemma_advanced_twice(game, 0, 0);
    if can_receive(w, i) {
        let u = receive(w, i, stored);
        lemma_receive_inv(w, i, stored);
        lemma_drain_all(u, i, stored);
        lemma_advanced_twice(game, 1, (count - 1) as nat);
        assert(texts(v.replies, channel) =~= texts(w.replies, channel) + replies_from(game, count)) by {
            lemma_replies_in_a_row(game, 1, (count - 1) as nat);
        }
    } else {
        assert(before.mailbox.queue =~= Seq::empty());
    }
}

/// Idle teardown: a session whose idle timeout is acted upon closes its
/// mailbox, answers every text that the mailbox still holds, oldest first,
/// terminates, writes the snapshot of its last state and removes its
/// channel's registry entry, once.  No accepted text is lost: afterwards
/// every text accepted for the channel has been handed to the game.  Where
/// the last write succeeds, the channel's snapshot is that of the actor's
/// last state, whatever became of the writes before it.
pub proof fn lemma_teardown(w: World, i: nat, stored: bool, kept: bool)
    requires
        inv(w),
        can_time_out(w, i),
    ensures
        ({
            let v = retire(w, i, stored, kept);
            let before = w.sessions[i as int];
            let channel = before.actor.channel;
            let count = before.mailbox.queue.len();
            let last = advanced(before.actor.game, count);
            let draining = ActorView { phase: Phase::Draining, ..before.actor };
            &&& inv(v)
            &&& w.registry.contains_key(channel) && w.registry[channel] == i
            &&& v.registry == w.registry.remove(channel)
            &&& v.accepted == w.accepted
            &&& v.sessions == w.sessions.update(
                i as int,
                Session {
                    actor: drained(draining, count),
                    mailbox: MailboxView {
                        queue: Seq::empty(),
                        closed: true,
                        capacity: before.mailbox.capacity,
                    },
                },
            )
            &&& texts(v.consumed, channel) == texts(w.consumed, channel) + before.mailbox.queue
            &&& texts(v.accepted, channel) == texts(v.consumed, channel)
            &&& texts(v.replies, channel) == texts(w.replies, channel) + replies_from(
                before.actor.game,
                count,
            )
            &&& spawned_for(v.sessions, channel) == spawned_for(w.sessions, channel)
            &&& ended_for(v.sessions, channel) == ended_for(w.sessions, channel) + 1
            &&& v.store == if kept || (stored && count > 0) {
                w.store.insert(channel, encoded(last))
            } else {
                w.store
            }
            &&& kept ==> snapshot(v.store, channel) == encoded(last) && restored(
                snapshot(v.store, channel),
            ) == last
        }),
{
    let before = w.sessions[i as int];
    let channel = before.actor.channel;
    let count = before.mailbox.queue.len();
    let last = advanced(before.actor.game, count);
    let w1 = time_out(w, i);
    lemma_time_out_inv(w, i);
    lemma_drain_all(w1, i, stored);
    let w2 = drain_all(w1, i, stored);
    lemma_finish_inv(w2, i, kept);
    let v = finish(w2, i, kept);
    assert(v.sessions =~= w.sessions.update(
        i as int,
        Session {
            actor: drained(ActorView { phase: Phase::Draining, ..before.actor }, count),
            mailbox: MailboxView {
                queue: Seq::empty(),
                closed: true,
                capacity: before.mailbox.capacity,
            },
        },
    ));
    lemma_counts_update(w.sessions, i as int, v.sessions[i as int], channel);
    lemma_advanced_twice(before.actor.game, count, 0);
    lemma_snapshot_round_trip(last, Seq::empty());
}

/// A dispatch that arrives before the teardown of its channel's session is
/// absorbed by the draining actor: its text is the last one that the actor
/// answers, once, in the state that the texts before it left, and the
/// actor's last state is the one after it.
pub proof fn lemma_dispatch_before_teardown(
    w: World,
    i: nat,
    text: Seq<char>,
    stored: bool,
    kept: bool,
)
    requires
        inv(w),
        can_time_out(w, i),
        can_dispatch(w, w.sessions[i as int].actor.channel),
    ensures
        ({
            let before = w.sessions[i as int];
            let channel = before.actor.channel;
            let count = before.mailbox.queue.len();
            let v = retire(dispatch(w, channel, text), i, stored, kept);
            &&& inv(v)
            &&& !v.registry.contains_key(channel)
            &&& texts(v.consumed, channel) == (texts(w.consumed, channel) + before.mailbox.queue).push(
                text,
            )
            &&& texts(v.accepted, channel) == texts(v.consumed, channel)
            &&& texts(v.replies, channel) == (texts(w.replies, channel) + replies_from(
                before.actor.game,
                count,
            )).push(reply_in(advanced(before.actor.game, count)))
            &&& v.sessions[i as int].actor.game == advanced(before.actor.game, count + 1)
            &&& spawned_for(v.sessions, channel) == spawned_for(w.sessions, channel)
            &&& kept ==> restored(snapshot(v.store, channel)) == advanced(
                before.actor.game,
                count + 1,
            )
        }),
{
    let before = w.sessions[i as int];
    let channel = before.actor.channel;
    let u = dispatch(w, channel, text);
    lemma_dispatch_inv(w, channel, text);
    lemma_dispatch_spawns(w, channel, text);
    lemma_teardown(u, i, stored, kept);
}

/// A dispatch that arrives after the teardown of its channel's session
/// starts a fresh creation cycle: a new session is spawned and entered, its
/// game comes from the channel's snapshot, and its mailbox holds the text.
/// Where the last write of the old session succeeded, the new session goes
/// on from the state that the old one ended in, and answers the text in it.
pub proof fn lemma_dispatch_after_teardown(
    w: World,
    i: nat,
    text: Seq<char>,
    stored: bool,
    kept: bool,
)
    requires
        inv(w),
        can_time_out(w, i),
    ensures
        ({
            let before = w.sessions[i as int];
            let channel = before.actor.channel;
            let v = retire(w, i, stored, kept);
            let last = v.sessions[i as int].actor.game;
            let u = dispatch(v, channel, text);
            let fresh = v.sessions.len();
            let t = receive(u, fresh, stored);
            &&& inv(u)
            &&& u.sessions == v.sessions.push(spawned(v.store, channel, text))
            &&& u.registry == v.registry.insert(channel, fresh)
            &&& u.sessions.last().mailbox.queue == seq![text]
            &&& spawned_for(u.sessions, channel) == spawned_for(w.sessions, channel) + 1
            &&& texts(u.accepted, channel) == texts(u.consumed, channel).push(text)
            &&& kept ==> u.sessions.last().actor.game == last
            &&& kept ==> texts(t.replies, channel) == texts(v.replies, channel).push(reply_in(last))
            &&& kept ==> t.sessions[fresh as int].actor.game == next_state(last)
        }),
{
    let before = w.sessions[i as int];
    let channel = before.actor.channel;
    let v = retire(w, i, stored, kept);
    lemma_teardown(w, i, stored, kept);
    lemma_dispatch_inv(v, channel, text);
    lemma_dispatch_spawns(v, channel, text);
}

/// One decoded state for all first texts: when dispatch calls for a channel
/// without a live session get hold of the registry one after the other and
/// the session then answers what its mailbox holds, one session was spawned,
/// its game was restored from the channel's snapshot once, and the texts were
/// answered once each, in the order of the calls, each in the state that the
/// one before left.
pub proof fn lemma_first_texts_share_one_state(
    w: World,
    channel: u64,
    offered: Seq<Seq<char>>,
    stored: bool,
)
    requires
        inv(w),
        !w.registry.contains_key(channel),
        1 <= offered.len() <= MAILBOX_CAPACITY,
    ensures
        ({
            let fresh = w.sessions.len();
            let start = restored(snapshot(w.store, channel));
            let v = drain_all(dispatch_all(w, channel, offered), fresh, stored);
            &&& inv(v)
            &&& v.sessions.len() == fresh + 1
            &&& spawned_for(v.sessions, channel) == spawned_for(w.sessions, channel) + 1
            &&& v.registry == w.registry.insert(channel, fresh)
            &&& v.sessions[fresh as int].actor.game == advanced(start, offered.len())
            &&& texts(v.consumed, channel) == texts(w.consumed, channel) + offered
            &&& texts(v.replies, channel) == texts(w.replies, channel) + replies_from(
                start,
                offered.len(),
            )
        }),
{
    let fresh = w.sessions.len();
    let u = dispatch_all(w, channel, offered);
    lemma_concurrent_first_dispatches(w, channel, offered);
    lemma_drain_all(u, fresh, stored);
    let v = drain_all(u, fresh, stored);
    lemma_counts_update(u.sessions, fresh as int, v.sessions[fresh as int], channel);
    lemma_dispatch_all_consumes_nothing(w, channel, offered);
}

/// Dispatches hand nothing to a game and give no reply.
proof fn lemma_dispatch_all_consumes_nothing(w: World, channel: u64, offered: Seq<Seq<char>>)
    ensures
        dispatch_all(w, channel, offered).consumed == w.consumed,
        dispatch_all(w, channel, offered).replies == w.replies,
    decreases offered.len(),
{
    if offered.len() > 0 {
        lemma_dispatch_all_consumes_nothing(w, channel, offered.drop_last());
    }
}

} // verus!
