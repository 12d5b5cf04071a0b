//! Properties of rooms and of the registry that hold across several
//! operations, stated over the models the operations' contracts use.
use crate::breakout_channel::{
    is_name_order, is_snapshot_of, listed, name_keys, shown,
    cleared, has_user, joined, left, other_than, unique_ids, voted, RoomView,
};
use crate::fanout::ParticipantView;
use crate::registry::fresh_room;
use crate::user::User;
use vstd::prelude::*;

verus! {

/// The roster after each of `arrivals` joins, in turn.
pub open spec fn joined_all(users: Seq<User>, arrivals: Seq<User>) -> Seq<User>
    decreases arrivals.len(),
{
    if arrivals.len() == 0 {
        users
    } else {
        joined(joined_all(users, arrivals.drop_last()), arrivals.last())
    }
}

/// Joining twice with the same id is joining once: the roster keeps one
/// entry per id.
pub proof fn law_join_idempotent(users: Seq<User>, user: User)
    requires
        unique_ids(users),
    ensures
        joined(joined(users, user), user) == joined(users, user),
        unique_ids(joined(users, user)),
        has_user(joined(users, user), user.lookup_id@),
{
    let once = joined(users, user);
    if !has_user(users, user.lookup_id@) {
        assert(once[users.len() as int] == user);
        assert forall|i: int, j: int|
            0 <= i < once.len() && 0 <= j < once.len() && i != j implies #[trigger] once[i].lookup_id@
            != #[trigger] once[j].lookup_id@ by {
            if i < users.len() && j < users.len() {
                assert(once[i] == users[i] && once[j] == users[j]);
            } else if i < users.len() {
                assert(once[i] == users[i]);
            } else {
                assert(once[j] == users[j]);
            }
        }
    }
}

/// Casting the same vote twice leaves no vote, unless that vote was already
/// held before the first cast; casting `v` then another value `w` leaves `w`.
/// The other participants keep their votes.
pub proof fn law_vote_toggle(users: Seq<User>, k: int, v: i64, w: i64)
    requires
        unique_ids(users),
        0 <= k < users.len(),
    ensures
        ({
            let id = users[k].lookup_id@;
            &&& users[k].vote != Some(v) ==> voted(voted(users, id, Some(v)), id, Some(v))[k].vote
                == None::<i64>
            &&& v != w ==> voted(voted(users, id, Some(v)), id, Some(w))[k].vote == Some(w)
            &&& forall|j: int|
                0 <= j < users.len() && j != k ==> #[trigger] voted(
                    voted(users, id, Some(v)),
                    id,
                    Some(w),
                )[j] == users[j]
        }),
{
    let id = users[k].lookup_id@;
    assert forall|j: int| 0 <= j < users.len() && j != k implies #[trigger] voted(
        voted(users, id, Some(v)),
        id,
        Some(w),
    )[j] == users[j] by {
        assert(users[j].lookup_id@ != users[k].lookup_id@);
    }
}

/// Opening a new round leaves every participant without a vote, with the
/// same ids and names as before.
pub proof fn law_new_round_clears(users: Seq<User>)
    ensures
        cleared(users).len() == users.len(),
        forall|i: int| 0 <= i < users.len() ==> (#[trigger] cleared(users)[i]).vote == None::<i64>,
        forall|i: int|
            0 <= i < users.len() ==> (#[trigger] cleared(users)[i]).lookup_id == users[i].lookup_id
                && cleared(users)[i].display_name == users[i].display_name,
{
}

/// Once the last participant leaves, the room is empty; removing it when
/// empty takes it out of the registry, and the same id then yields a new,
/// empty room.
pub proof fn law_cleanup(rooms: Map<Seq<char>, RoomView>, room_id: Seq<char>, last: User)
    requires
        rooms.contains_key(room_id),
        rooms[room_id].users == seq![last],
    ensures
        ({
            let emptied = rooms.insert(
                room_id,
                RoomView { users: left(rooms[room_id].users, last.lookup_id@), ..rooms[room_id] },
            );
            &&& emptied[room_id].users.len() == 0
            &&& !emptied.remove(room_id).contains_key(room_id)
            &&& fresh_room(room_id).users.len() == 0
        }),
{
    let users = rooms[room_id].users;
    reveal(Seq::filter);
    assert(users.drop_last() =~= Seq::<User>::empty());
    assert(!other_than(last.lookup_id@)(users.last()));
    assert(left(users, last.lookup_id@) =~= Seq::<User>::empty().filter(other_than(last.lookup_id@)));
}

/// Participants with distinct ids that join one after another, in whatever
/// order the room's lock admits them, all end up in the roster, each once.
pub proof fn law_distinct_joins(arrivals: Seq<User>)
    requires
        unique_ids(arrivals),
    ensures
        joined_all(Seq::empty(), arrivals) == arrivals,
        joined_all(Seq::empty(), arrivals).len() == arrivals.len(),
    decreases arrivals.len(),
{
    if arrivals.len() > 0 {
        let before = arrivals.drop_last();
        assert(unique_ids(before)) by {
            assert forall|i: int, j: int|
                0 <= i < before.len() && 0 <= j < before.len() && i != j implies #[trigger] before[i].lookup_id@
                != #[trigger] before[j].lookup_id@ by {
                assert(before[i] == arrivals[i] && before[j] == arrivals[j]);
            }
        }
        law_distinct_joins(before);
        let last = arrivals.last();
        assert(!has_user(before, last.lookup_id@)) by {
            if has_user(before, last.lookup_id@) {
                let i = choose|i: int| 0 <= i < before.len() && #[trigger] before[i].lookup_id@ == last.lookup_id@;
                assert(before[i] == arrivals[i]);
            }
        }
        assert(before.push(last) =~= arrivals);
    }
}

/// The room under `rid`, as `find_or_create` hands it out: the live one, or
/// a fresh one.
pub open spec fn room_or_fresh(rooms: Map<Seq<char>, RoomView>, rid: Seq<char>) -> RoomView {
    if rooms.contains_key(rid) {
        rooms[rid]
    } else {
        fresh_room(rid)
    }
}

/// The registry after each of `arrivals`, in the order in which the lock
/// admits them, finds or creates room `rid` and joins it; the other fields of
/// the room are left as they were, only its roster is followed.
pub open spec fn joins_at(rooms: Map<Seq<char>, RoomView>, rid: Seq<char>, arrivals: Seq<User>) -> Map<
    Seq<char>,
    RoomView,
>
    decreases arrivals.len(),
{
    if arrivals.len() == 0 {
        rooms
    } else {
        let before = joins_at(rooms, rid, arrivals.drop_last());
        let room = room_or_fresh(before, rid);
        before.insert(rid, RoomView { users: joined(room.users, arrivals.last()), ..room })
    }
}

proof fn lemma_joins_at(rooms: Map<Seq<char>, RoomView>, rid: Seq<char>, arrivals: Seq<User>)
    ensures
        room_or_fresh(joins_at(rooms, rid, arrivals), rid).users == joined_all(
            room_or_fresh(rooms, rid).users,
            arrivals,
        ),
        forall|k: Seq<char>|
            k != rid ==> (#[trigger] joins_at(rooms, rid, arrivals).contains_key(k) == rooms.contains_key(k))
                && (rooms.contains_key(k) ==> joins_at(rooms, rid, arrivals)[k] == rooms[k]),
    decreases arrivals.len(),
{
    if arrivals.len() > 0 {
        lemma_joins_at(rooms, rid, arrivals.drop_last());
    }
}

/// Participants with distinct ids that join room `rid` concurrently, each
/// holding the registry's lock while it finds or creates the room and joins
/// it, all end up in that room's roster, each once, whatever order the lock
/// admits them in: no update is lost and none is doubled. The room is
/// created at most once, by the first of them; every later one finds it; and
/// no other room changes.
pub proof fn law_concurrent_joins(rooms: Map<Seq<char>, RoomView>, rid: Seq<char>, arrivals: Seq<User>)
    requires
        unique_ids(arrivals),
        !rooms.contains_key(rid) || rooms[rid].users.len() == 0,
    ensures
        arrivals.len() > 0 ==> joins_at(rooms, rid, arrivals).contains_key(rid),
        room_or_fresh(joins_at(rooms, rid, arrivals), rid).users == arrivals,
        unique_ids(room_or_fresh(joins_at(rooms, rid, arrivals), rid).users),
        forall|j: int|
            1 <= j <= arrivals.len() ==> #[trigger] joins_at(rooms, rid, arrivals.take(j)).contains_key(
                rid,
            ),
        forall|k: Seq<char>|
            k != rid ==> (#[trigger] joins_at(rooms, rid, arrivals).contains_key(k) == rooms.contains_key(k))
                && (rooms.contains_key(k) ==> joins_at(rooms, rid, arrivals)[k] == rooms[k]),
{
    lemma_joins_at(rooms, rid, arrivals);
    assert(room_or_fresh(rooms, rid).users =~= Seq::<User>::empty());
    law_distinct_joins(arrivals);
    assert forall|j: int| 1 <= j <= arrivals.len() implies #[trigger] joins_at(
        rooms,
        rid,
        arrivals.take(j),
    ).contains_key(rid) by {
        assert(arrivals.take(j).len() > 0);
    }
}

/// Every participant appears in a snapshot, and two participants whose
/// names are equal without regard to case appear in roster order.
pub proof fn law_snapshot_lists_ties_in_roster_order(
    users: Seq<User>,
    revealed: bool,
    snap: Seq<ParticipantView>,
    i: int,
    j: int,
)
    requires
        is_snapshot_of(users, revealed, snap),
        0 <= i < j < users.len(),
        name_keys(users)[i] == name_keys(users)[j],
    ensures
        exists|a: int, b: int|
            0 <= a < b < snap.len() && #[trigger] snap[a] == shown(users[i], revealed) && #[trigger] snap[b]
                == shown(users[j], revealed),
{
    let order = choose|order: Seq<usize>|
        #[trigger] is_name_order(users, order) && snap.len() == order.len() && forall|k: int|
            0 <= k < snap.len() ==> #[trigger] snap[k] == shown(users[order[k] as int], revealed);
    assert(listed(order, i) && listed(order, j));
    let a = choose|a: int| 0 <= a < order.len() && order[a] == i;
    let b = choose|b: int| 0 <= b < order.len() && order[b] == j;
    if b < a {
        assert(name_keys(users)[order[b] as int] == name_keys(users)[order[a] as int]);
        assert(order[b] < order[a]);
    }
    assert(a != b);
    assert(snap[a] == shown(users[i], revealed));
    assert(snap[b] == shown(users[j], revealed));
}

} // verus!
