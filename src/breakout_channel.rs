//! One live room: its roster, the reveal flag of its current round and its
//! fanout. Every operation ends by publishing the room's current roster.
use crate::fanout::{
    receiver_channel, receiver_start, Fanout, MessageView, ParticipantView, RoomMessage,
};
use crate::text::{
    lemma_text_le_reflexive, lemma_text_le_total, lemma_text_le_transitive, lowercase, name_key,
    str_le, text_le,
};
use crate::user::User;
use tokio::sync::broadcast::Receiver;
use vstd::prelude::*;

verus! {

/// How many messages a slow subscriber may fall behind before it loses the
/// oldest of them.
pub const SUBSCRIBER_BUFFER: usize = 100;

/// A room as the contracts speak of it.
pub struct RoomView {
    pub lookup_id: Seq<char>,
    pub users: Seq<User>,
    pub show_votes: bool,
    pub sent: Seq<MessageView>,
}

/// No two participants of the roster share a public id.
pub open spec fn unique_ids(users: Seq<User>) -> bool {
    forall|i: int, j: int|
        0 <= i < users.len() && 0 <= j < users.len() && i != j ==> #[trigger] users[i].lookup_id@
            != #[trigger] users[j].lookup_id@
}

/// Some participant of the roster has the public id `id`.
pub open spec fn has_user(users: Seq<User>, id: Seq<char>) -> bool {
    exists|i: int| 0 <= i < users.len() && #[trigger] users[i].lookup_id@ == id
}

/// The roster after `user` joins: unchanged if its id is already there.
pub open spec fn joined(users: Seq<User>, user: User) -> Seq<User> {
    if has_user(users, user.lookup_id@) {
        users
    } else {
        users.push(user)
    }
}

/// Whether a participant is someone other than the one with id `id`.
pub open spec fn other_than(id: Seq<char>) -> spec_fn(User) -> bool {
    |u: User| u.lookup_id@ != id
}

/// The roster after the participant with id `id` leaves.
pub open spec fn left(users: Seq<User>, id: Seq<char>) -> Seq<User> {
    users.filter(other_than(id))
}

/// Leaving with an id that nobody holds changes nothing.
proof fn lemma_left_absent(users: Seq<User>, id: Seq<char>)
    requires
        !has_user(users, id),
    ensures
        left(users, id) == users,
    decreases users.len(),
{
    reveal(Seq::filter);
    if users.len() > 0 {
        let d = users.drop_last();
        assert(!has_user(d, id)) by {
            if has_user(d, id) {
                let i = choose|i: int| 0 <= i < d.len() && #[trigger] d[i].lookup_id@ == id;
                assert(users[i] == d[i]);
            }
        }
        lemma_left_absent(d, id);
        assert(users[users.len() - 1].lookup_id@ != id);
        assert(d.push(users.last()) =~= users);
    }
}

/// In a roster of unique ids, leaving removes exactly the one entry.
proof fn lemma_left_one(users: Seq<User>, id: Seq<char>, k: int)
    requires
        unique_ids(users),
        0 <= k < users.len(),
        users[k].lookup_id@ == id,
    ensures
        left(users, id) == users.remove(k),
    decreases users.len(),
{
    reveal(Seq::filter);
    let d = users.drop_last();
    let n = users.len() - 1;
    if k == n {
        assert(!has_user(d, id)) by {
            if has_user(d, id) {
                let i = choose|i: int| 0 <= i < d.len() && #[trigger] d[i].lookup_id@ == id;
                assert(users[i] == d[i]);
            }
        }
        lemma_left_absent(d, id);
        assert(users.remove(k) =~= d);
    } else {
        assert(unique_ids(d)) by {
            assert forall|i: int, j: int|
                0 <= i < d.len() && 0 <= j < d.len() && i != j implies #[trigger] d[i].lookup_id@
                != #[trigger] d[j].lookup_id@ by {
                assert(d[i] == users[i] && d[j] == users[j]);
            }
        }
        assert(d[k] == users[k]);
        lemma_left_one(d, id, k);
        assert(users[n].lookup_id@ != users[k].lookup_id@);
        assert(users.remove(k) =~= d.remove(k).push(users.last()));
    }
}

/// The vote a participant holds after casting `value`: casting the vote it
/// already holds takes it back.
pub open spec fn toggled_vote(current: Option<i64>, value: Option<i64>) -> Option<i64> {
    if current == value {
        None
    } else {
        value
    }
}

/// The roster after the participant with id `id` casts `value`.
pub open spec fn voted(users: Seq<User>, id: Seq<char>, value: Option<i64>) -> Seq<User> {
    users.map_values(
        |u: User|
            if u.lookup_id@ == id {
                u.with_vote(toggled_vote(u.vote, value))
            } else {
                u
            },
    )
}

/// The roster with every vote cleared.
pub open spec fn cleared(users: Seq<User>) -> Seq<User> {
    users.map_values(|u: User| u.with_vote(None))
}

/// How a participant is shown: its vote's value only once the round is
/// revealed.
pub open spec fn shown(u: User, revealed: bool) -> ParticipantView {
    ParticipantView {
        lookup_id: u.lookup_id,
        display_name: u.display_name,
        vote_present: u.vote is Some,
        vote_value: if revealed {
            u.vote
        } else {
            None
        },
    }
}

/// The texts of `keys`.
pub open spec fn key_texts(keys: Seq<String>) -> Seq<Seq<char>> {
    keys.map_values(|k: String| k@)
}

/// The display-name keys of a roster, in roster order.
pub open spec fn name_keys(users: Seq<User>) -> Seq<Seq<char>> {
    users.map_values(|u: User| name_key(u.display_name@))
}

/// Index `j` stands somewhere in `order`.
pub open spec fn listed(order: Seq<usize>, j: int) -> bool {
    exists|k: int| 0 <= k < order.len() && order[k] == j
}

/// `order` lists every index of `keys` once, sorted by key; equal keys keep
/// their order in `keys`.
pub open spec fn is_key_order(keys: Seq<Seq<char>>, order: Seq<usize>) -> bool {
    &&& order.len() == keys.len()
    &&& forall|k: int| 0 <= k < order.len() ==> #[trigger] order[k] < keys.len()
    &&& forall|j: int| 0 <= j < keys.len() ==> #[trigger] listed(order, j)
    &&& forall|a: int, b: int|
        0 <= a < b < order.len() ==> #[trigger] order[a] != #[trigger] order[b]
    &&& forall|a: int, b: int|
        0 <= a < b < order.len() ==> text_le(keys[#[trigger] order[a] as int], keys[#[trigger] order[b] as int])
    &&& forall|a: int, b: int|
        0 <= a < b < order.len() && keys[#[trigger] order[a] as int] == keys[#[trigger] order[b] as int]
            ==> order[a] < order[b]
}

/// `order` lists every index of `users` once, sorted by display name without
/// regard to case; participants with the same such name keep their roster
/// order.
pub open spec fn is_name_order(users: Seq<User>, order: Seq<usize>) -> bool {
    is_key_order(name_keys(users), order)
}

/// `snap` is the roster shown in display order.
pub open spec fn is_snapshot_of(users: Seq<User>, revealed: bool, snap: Seq<ParticipantView>) -> bool {
    exists|order: Seq<usize>|
        #[trigger] is_name_order(users, order) && snap.len() == order.len() && forall|k: int|
            0 <= k < snap.len() ==> #[trigger] snap[k] == shown(users[order[k] as int], revealed)
}

/// `m` carries the roster of a room in state (`users`, `revealed`).
pub open spec fn is_roster_message(users: Seq<User>, revealed: bool, m: MessageView) -> bool {
    match m {
        MessageView::Voters { revealed: r, participants } => r == revealed && is_snapshot_of(
            users,
            revealed,
            participants,
        ),
        _ => false,
    }
}

/// The room published `events` and then its roster as `after` holds it, on
/// top of what `before` had published.
pub open spec fn published(before: RoomView, after: RoomView, events: Seq<MessageView>) -> bool {
    &&& after.sent.len() == before.sent.len() + events.len() + 1
    &&& after.sent.take((before.sent.len() + events.len()) as int) == before.sent + events
    &&& is_roster_message(after.users, after.show_votes, after.sent.last())
}

/// A roster in which no two participants share a public id.
struct Roster {
    users: Vec<User>,
}

impl Roster {
    #[verifier::type_invariant]
    spec fn ids_unique(&self) -> bool {
        unique_ids(self.users@)
    }

    closed spec fn view(&self) -> Seq<User> {
        self.users@
    }

    fn new() -> (r: Roster)
        ensures
            r.view() == Seq::<User>::empty(),
    {
        Roster { users: Vec::new() }
    }

    fn users(&self) -> (r: &Vec<User>)
        ensures
            r@ == self.view(),
    {
        &self.users
    }

    /// The index of the participant with id `id`.
    fn position(&self, id: &str) -> (r: Option<usize>)
        ensures
            match r {
                Some(k) => k < self.view().len() && self.view()[k as int].lookup_id@ == id@,
                None => !has_user(self.view(), id@),
            },
    {
        let target = id.to_owned();
        let mut k: usize = 0;
        while k < self.users.len()
            invariant
                0 <= k <= self.users@.len(),
                target@ == id@,
                forall|j: int| 0 <= j < k ==> #[trigger] self.users@[j].lookup_id@ != id@,
            decreases self.users@.len() - k,
        {
            if self.users[k].lookup_id == target {
                return Some(k);
            }
            k = k + 1;
        }
        None
    }

    /// Adds `user` unless its id is already there.
    fn attach(&mut self, user: &User)
        ensures
            final(self).view() == joined(old(self).view(), *user),
    {
        proof { use_type_invariant(&*self); }
        if self.position(user.lookup_id.as_str()).is_none() {
            let ghost before = self.users@;
            let mut users: Vec<User> = Vec::new();
            std::mem::swap(&mut users, &mut self.users);
            users.push(user.duplicate());
            proof {
                assert forall|i: int, j: int|
                    0 <= i < users@.len() && 0 <= j < users@.len() && i != j implies
                    #[trigger] users@[i].lookup_id@ != #[trigger] users@[j].lookup_id@ by {
                    if i < before.len() && j < before.len() {
                        assert(before[i].lookup_id@ != before[j].lookup_id@);
                    } else if i < before.len() {
                        assert(users@[i] == before[i]);
                    } else {
                        assert(users@[j] == before[j]);
                    }
                }
            }
            self.users = users;
        }
    }

    /// Removes the participant with id `id`, if present.
    fn detach(&mut self, id: &str)
        ensures
            final(self).view() == left(old(self).view(), id@),
    {
        proof { use_type_invariant(&*self); }
        let ghost before = self.users@;
        match self.position(id) {
            Some(k) => {
                proof { lemma_left_one(before, id@, k as int); }
                let mut users: Vec<User> = Vec::new();
                std::mem::swap(&mut users, &mut self.users);
                users.remove(k);
                proof {
                    assert forall|i: int, j: int|
                        0 <= i < users@.len() && 0 <= j < users@.len() && i != j implies
                        #[trigger] users@[i].lookup_id@ != #[trigger] users@[j].lookup_id@ by {
                        let oi = if i < k { i } else { i + 1 };
                        let oj = if j < k { j } else { j + 1 };
                        assert(users@[i] == before[oi] && users@[j] == before[oj]);
                    }
                }
                self.users = users;
            },
            None => {
                proof { lemma_left_absent(before, id@); }
            },
        }
    }

    /// Records `value` as the vote of the participant with id `id`.
    fn cast(&mut self, id: &str, value: Option<i64>)
        ensures
            final(self).view() == voted(old(self).view(), id@, value),
    {
        proof { use_type_invariant(&*self); }
        let ghost before = self.users@;
        match self.position(id) {
            Some(k) => {
                let mut u = self.users[k].duplicate();
                u.vote = if u.vote == value { None } else { value };
                let mut users: Vec<User> = Vec::new();
                std::mem::swap(&mut users, &mut self.users);
                users.set(k, u);
                proof {
                    assert forall|j: int| 0 <= j < users@.len() && j != k implies
                        #[trigger] users@[j].lookup_id@ != id@ by {
                        assert(before[j].lookup_id@ != before[k as int].lookup_id@);
                    }
                    assert(users@ =~= voted(before, id@, value));
                    assert forall|i: int, j: int|
                        0 <= i < users@.len() && 0 <= j < users@.len() && i != j implies
                        #[trigger] users@[i].lookup_id@ != #[trigger] users@[j].lookup_id@ by {
                        assert(before[i].lookup_id@ != before[j].lookup_id@);
                    }
                }
                self.users = users;
            },
            None => {
                assert(before =~= voted(before, id@, value));
            },
        }
    }

    /// Clears every vote.
    fn clear_votes(&mut self)
        ensures
            final(self).view() == cleared(old(self).view()),
    {
        proof { use_type_invariant(&*self); }
        let ghost before = self.users@;
        let mut users: Vec<User> = Vec::new();
        std::mem::swap(&mut users, &mut self.users);
        let mut i: usize = 0;
        while i < users.len()
            invariant
                users@.len() == before.len(),
                0 <= i <= users@.len(),
                forall|j: int| 0 <= j < i ==> #[trigger] users@[j] == before[j].with_vote(None),
                forall|j: int| i <= j < users@.len() ==> #[trigger] users@[j] == before[j],
            decreases users@.len() - i,
        {
            let mut u = users[i].duplicate();
            u.vote = None;
            users.set(i, u);
            i = i + 1;
        }
        proof {
            assert(users@ =~= cleared(before));
            assert forall|i: int, j: int|
                0 <= i < users@.len() && 0 <= j < users@.len() && i != j implies
                #[trigger] users@[i].lookup_id@ != #[trigger] users@[j].lookup_id@ by {
                assert(before[i].lookup_id@ != before[j].lookup_id@);
            }
        }
        self.users = users;
    }
}

/// A live room.
pub struct BreakoutChannel {
    lookup_id: String,
    roster: Roster,
    show_votes: bool,
    fanout: Fanout,
}

impl View for BreakoutChannel {
    type V = RoomView;

    closed spec fn view(&self) -> RoomView {
        RoomView {
            lookup_id: self.lookup_id@,
            users: self.roster.view(),
            show_votes: self.show_votes,
            sent: self.fanout.sent(),
        }
    }
}

impl BreakoutChannel {
    /// An empty room in an open round.
    pub fn new(lookup_id: &str) -> (r: BreakoutChannel)
        ensures
            r@.lookup_id == lookup_id@,
            r@.users == Seq::<User>::empty(),
            !r@.show_votes,
            r@.sent == Seq::<MessageView>::empty(),
            r.subscriptions() == 0,
    {
        BreakoutChannel {
            lookup_id: lookup_id.to_owned(),
            roster: Roster::new(),
            show_votes: false,
            fanout: Fanout::new(SUBSCRIBER_BUFFER),
        }
    }

    /// The room's public id.
    pub fn lookup_id(&self) -> (r: &String)
        ensures
            r@ == self@.lookup_id,
    {
        &self.lookup_id
    }

    /// The roster, in the order of joining.
    pub fn users(&self) -> (r: &Vec<User>)
        ensures
            r@ == self@.users,
            unique_ids(r@),
    {
        proof { use_type_invariant(&self.roster); }
        self.roster.users()
    }

    /// Whether the current round is revealed.
    pub fn show_votes(&self) -> (r: bool)
        ensures
            r == self@.show_votes,
    {
        self.show_votes
    }

    /// True iff nobody is left in the room.
    pub fn is_empty(&self) -> (r: bool)
        ensures
            r == (self@.users.len() == 0),
    {
        self.roster.users().len() == 0
    }

    /// The channel that the room's subscribers listen on.
    pub closed spec fn channel(&self) -> int {
        self.fanout.channel()
    }

    /// How many receivers were handed out on the room's channel.
    pub closed spec fn subscriptions(&self) -> nat {
        self.fanout.subscriptions()
    }

    /// A receiver of everything the room publishes from now on, and of
    /// nothing published before: fetch a snapshot right after subscribing.
    pub fn subscribe(&mut self) -> (r: Receiver<RoomMessage>)
        ensures
            receiver_channel(r) == old(self).channel(),
            receiver_start(r) == old(self)@.sent.len(),
            final(self)@ == old(self)@,
            final(self).channel() == old(self).channel(),
            final(self).subscriptions() == old(self).subscriptions() + 1,
    {
        self.fanout.subscribe()
    }

    /// Adds `user` unless a participant with its id is already in the room,
    /// then publishes the roster.
    pub fn add_user(&mut self, user: &User)
        ensures
            final(self).channel() == old(self).channel(),
            final(self).subscriptions() == old(self).subscriptions(),
            unique_ids(final(self)@.users),
            final(self)@.users == joined(old(self)@.users, *user),
            final(self)@.show_votes == old(self)@.show_votes,
            final(self)@.lookup_id == old(self)@.lookup_id,
            published(old(self)@, final(self)@, Seq::empty()),
    {
        self.roster.attach(user);
        self.publish_roster();
        proof { use_type_invariant(&self.roster); }
    }

    /// Removes the participant with id `user_lookup_id`, if present, then
    /// publishes the roster.
    pub fn remove_user(&mut self, user_lookup_id: &str)
        ensures
            final(self).channel() == old(self).channel(),
            final(self).subscriptions() == old(self).subscriptions(),
            unique_ids(final(self)@.users),
            final(self)@.users == left(old(self)@.users, user_lookup_id@),
            final(self)@.show_votes == old(self)@.show_votes,
            final(self)@.lookup_id == old(self)@.lookup_id,
            published(old(self)@, final(self)@, Seq::empty()),
    {
        self.roster.detach(user_lookup_id);
        self.publish_roster();
        proof { use_type_invariant(&self.roster); }
    }

    /// Replaces the entry of `user`'s id with `user` itself, at the end of the
    /// roster, then publishes the roster.
    pub fn user_changed_name(&mut self, user: &User)
        ensures
            final(self).channel() == old(self).channel(),
            final(self).subscriptions() == old(self).subscriptions(),
            unique_ids(final(self)@.users),
            final(self)@.users == left(old(self)@.users, user.lookup_id@).push(*user),
            final(self)@.show_votes == old(self)@.show_votes,
            final(self)@.lookup_id == old(self)@.lookup_id,
            published(old(self)@, final(self)@, Seq::empty()),
    {
        self.roster.detach(user.lookup_id.as_str());
        proof {
            let rest = self.roster.view();
            if has_user(rest, user.lookup_id@) {
                let i = choose|i: int|
                    0 <= i < rest.len() && #[trigger] rest[i].lookup_id@ == user.lookup_id@;
                rest.lemma_filter_pred(other_than(user.lookup_id@), i);
            }
        }
        self.roster.attach(user);
        self.publish_roster();
        proof { use_type_invariant(&self.roster); }
    }

    /// The participant with id `user_lookup_id` casts `value`; casting the
    /// vote it already holds takes the vote back. Nothing changes for an
    /// unknown id. Then publishes the roster.
    pub fn vote(&mut self, user_lookup_id: &str, value: Option<i64>)
        ensures
            final(self).channel() == old(self).channel(),
            final(self).subscriptions() == old(self).subscriptions(),
            unique_ids(final(self)@.users),
            final(self)@.users == voted(old(self)@.users, user_lookup_id@, value),
            final(self)@.show_votes == old(self)@.show_votes,
            final(self)@.lookup_id == old(self)@.lookup_id,
            published(old(self)@, final(self)@, Seq::empty()),
    {
        self.roster.cast(user_lookup_id, value);
        self.publish_roster();
        proof { use_type_invariant(&self.roster); }
    }

    /// Flips the reveal flag. Opening a new round clears every vote and
    /// publishes `RoundStarted`; revealing keeps the votes and publishes
    /// `Revealed`. Then publishes the roster.
    pub fn toggle_votes(&mut self)
        ensures
            final(self).channel() == old(self).channel(),
            final(self).subscriptions() == old(self).subscriptions(),
            unique_ids(final(self)@.users),
            final(self)@.show_votes == !old(self)@.show_votes,
            final(self)@.lookup_id == old(self)@.lookup_id,
            old(self)@.show_votes ==> final(self)@.users == cleared(old(self)@.users) && published(
                old(self)@,
                final(self)@,
                seq![MessageView::RoundStarted],
            ),
            !old(self)@.show_votes ==> final(self)@.users == old(self)@.users && published(
                old(self)@,
                final(self)@,
                seq![MessageView::Revealed],
            ),
    {
        let ghost before = self@;
        self.show_votes = !self.show_votes;
        if !self.show_votes {
            self.roster.clear_votes();
            self.fanout.publish(RoomMessage::RoundStarted);
        } else {
            self.fanout.publish(RoomMessage::Revealed);
        }
        let ghost mid = self@;
        self.publish_roster();
        proof {
            assert(self@.sent.take(mid.sent.len() as int) =~= mid.sent);
            assert(self@.sent.take(before.sent.len() + 1int) =~= self@.sent.take(mid.sent.len() as int));
            if before.show_votes {
                assert(mid.sent =~= before.sent + seq![MessageView::RoundStarted]);
            } else {
                assert(mid.sent =~= before.sent + seq![MessageView::Revealed]);
            }
        }
        proof { use_type_invariant(&self.roster); }
    }

    /// Publishes the roster as it stands.
    fn publish_roster(&mut self)
        ensures
            final(self).channel() == old(self).channel(),
            final(self).subscriptions() == old(self).subscriptions(),
            final(self)@.users == old(self)@.users,
            final(self)@.show_votes == old(self)@.show_votes,
            final(self)@.lookup_id == old(self)@.lookup_id,
            published(old(self)@, final(self)@, Seq::empty()),
    {
        let participants = self.snapshot();
        let ghost before = self@;
        self.fanout.publish(RoomMessage::Voters { revealed: self.show_votes, participants });
        assert(self@.sent.take(before.sent.len() as int) =~= before.sent + Seq::empty());
    }

    /// The roster sorted by display name without regard to case, stable for
    /// equal names; a vote's value shows only once the round is revealed.
    pub fn snapshot(&self) -> (r: Vec<ParticipantView>)
        ensures
            is_snapshot_of(self@.users, self@.show_votes, r@),
    {
        let users = self.roster.users();
        let order = name_order(users);
        let mut r: Vec<ParticipantView> = Vec::new();
        let mut k: usize = 0;
        while k < order.len()
            invariant
                is_name_order(users@, order@),
                0 <= k <= order.len(),
                r@.len() == k,
                forall|j: int| 0 <= j < k ==> #[trigger] r@[j] == shown(
                    users@[order@[j] as int],
                    self.show_votes,
                ),
            decreases order.len() - k,
        {
            let u = &users[order[k]];
            r.push(
                ParticipantView {
                    lookup_id: u.lookup_id.clone(),
                    display_name: u.display_name.clone(),
                    vote_present: u.vote.is_some(),
                    vote_value: if self.show_votes {
                        u.vote
                    } else {
                        None
                    },
                },
            );
            k = k + 1;
        }
        assert(is_name_order(users@, order@));
        r
    }
}

/// The indices of the roster in display order.
fn name_order(users: &Vec<User>) -> (order: Vec<usize>)
    ensures
        is_name_order(users@, order@),
{
    let n = users.len();
    let mut keys: Vec<String> = Vec::new();
    let mut i: usize = 0;
    while i < n
        invariant
            n == users@.len(),
            0 <= i <= n,
            keys@.len() == i,
            forall|j: int| 0 <= j < i ==> #[trigger] keys@[j]@ == name_keys(users@)[j],
        decreases n - i,
    {
        keys.push(lowercase(users[i].display_name.as_str()));
        i = i + 1;
    }
    assert(key_texts(keys@) =~= name_keys(users@));
    sort_keys(&keys)
}

/// The indices of `keys` sorted by key, stable for equal keys.
pub fn sort_keys(keys: &Vec<String>) -> (order: Vec<usize>)
    ensures
        is_key_order(key_texts(keys@), order@),
{
    let n = keys.len();
    let ghost ks = key_texts(keys@);
    let mut i: usize = 0;
    let mut order: Vec<usize> = Vec::new();
    while i < n
        invariant
            n == ks.len(),
            0 <= i <= n,
            keys@.len() == n,
            forall|j: int| 0 <= j < n ==> #[trigger] keys@[j]@ == ks[j],
            order@.len() == i,
            forall|j: int| 0 <= j < i ==> #[trigger] listed(order@, j),
            forall|k: int| 0 <= k < order@.len() ==> #[trigger] order@[k] < i,
            forall|a: int, b: int|
                0 <= a < b < order@.len() ==> #[trigger] order@[a] != #[trigger] order@[b],
            forall|a: int, b: int|
                0 <= a < b < order@.len() ==> text_le(
                    ks[#[trigger] order@[a] as int],
                    ks[#[trigger] order@[b] as int],
                ),
            forall|a: int, b: int|
                0 <= a < b < order@.len() && ks[#[trigger] order@[a] as int]
                    == ks[#[trigger] order@[b] as int] ==> order@[a] < order@[b],
        decreases n - i,
    {
        let mut pos: usize = 0;
        while pos < order.len() && str_le(keys[order[pos]].as_str(), keys[i].as_str())
            invariant
                0 <= pos <= order@.len(),
                i < n,
                keys@.len() == n,
                forall|k: int| 0 <= k < order@.len() ==> #[trigger] order@[k] < i,
                forall|k: int|
                    0 <= k < pos ==> text_le(
                        ks[#[trigger] order@[k] as int],
                        ks[i as int],
                    ),
                forall|j: int| 0 <= j < n ==> #[trigger] keys@[j]@ == ks[j],
            decreases order@.len() - pos,
        {
            pos = pos + 1;
        }
        let ghost old_order = order@;
        let ghost ki = ks[i as int];
        proof {
            if pos < old_order.len() {
                let kp = ks[old_order[pos as int] as int];
                assert(!text_le(kp, ki));
                lemma_text_le_total(kp, ki);
                lemma_text_le_reflexive(ki);
            }
        }
        order.insert(pos, i);
        proof {
            let o = order@;
            assert(o == old_order.insert(pos as int, i));
            assert forall|j: int| 0 <= j < i + 1 implies #[trigger] listed(o, j) by {
                if j == i {
                    assert(o[pos as int] == j);
                } else {
                    assert(listed(old_order, j));
                    let k = choose|k: int| 0 <= k < old_order.len() && old_order[k] == j;
                    if k < pos {
                        assert(o[k] == j);
                    } else {
                        assert(o[k + 1] == j);
                    }
                }
            }
            assert forall|k: int| 0 <= k < o.len() implies #[trigger] o[k] < i + 1 by {
                if k > pos {
                    assert(o[k] == old_order[k - 1]);
                }
            }
            assert forall|a: int, b: int| 0 <= a < b < o.len() implies #[trigger] o[a]
                != #[trigger] o[b] by {
                if a < pos && b > pos {
                    assert(o[b] == old_order[b - 1]);
                } else if a > pos {
                    assert(o[a] == old_order[a - 1] && o[b] == old_order[b - 1]);
                } else if a == pos {
                    assert(o[b] == old_order[b - 1]);
                }
            }
            assert forall|a: int, b: int| 0 <= a < b < o.len() implies text_le(
                ks[#[trigger] o[a] as int],
                ks[#[trigger] o[b] as int],
            ) by {
                if b < pos {
                } else if b == pos {
                } else if a < pos {
                    assert(o[b] == old_order[b - 1]);
                    if b - 1 == pos as int {
                        lemma_text_le_transitive(
                            ks[o[a] as int],
                            ki,
                            ks[o[b] as int],
                        );
                    } else {
                        assert(text_le(
                            ks[old_order[a] as int],
                            ks[old_order[b - 1] as int],
                        ));
                    }
                } else if a == pos {
                    assert(o[b] == old_order[b - 1]);
                    let kp = ks[old_order[pos as int] as int];
                    if b - 1 > pos {
                        assert(text_le(kp, ks[old_order[b - 1] as int]));
                        lemma_text_le_transitive(ki, kp, ks[o[b] as int]);
                    }
                } else {
                    assert(o[a] == old_order[a - 1] && o[b] == old_order[b - 1]);
                }
            }
            assert forall|a: int, b: int|
                0 <= a < b < o.len() && ks[#[trigger] o[a] as int] == ks[#[trigger] o[b] as int] implies o[a] < o[b] by {
                if b < pos {
                } else if b == pos {
                } else if a < pos {
                    assert(o[b] == old_order[b - 1]);
                    if b - 1 == pos as int {
                        lemma_text_le_reflexive(ki);
                    } else {
                        let kp = ks[old_order[pos as int] as int];
                        assert(text_le(kp, ks[old_order[b - 1] as int]));
                        assert(text_le(ks[old_order[a] as int], ki));
                        if ks[o[a] as int] == ks[o[b] as int] {
                            lemma_text_le_transitive(kp, ks[o[b] as int], ki);
                        }
                    }
                } else if a == pos {
                    assert(o[b] == old_order[b - 1]);
                    let kp = ks[old_order[pos as int] as int];
                    if b - 1 > pos {
                        assert(text_le(kp, ks[old_order[b - 1] as int]));
                    }
                } else {
                    assert(o[a] == old_order[a - 1] && o[b] == old_order[b - 1]);
                }
            }
        }
        i = i + 1;
    }
    order
}

} // verus!
