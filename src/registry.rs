//! The process-wide set of live rooms, keyed by room id. A room is created on
//! first reference and discarded once its last participant has left.
use crate::breakout_channel::{left, published, BreakoutChannel, RoomView};
use crate::fanout::MessageView;
use crate::user::User;
use vstd::prelude::*;

verus! {

/// The state of a room that was just created for id `lookup_id`.
pub open spec fn fresh_room(lookup_id: Seq<char>) -> RoomView {
    RoomView {
        lookup_id: lookup_id,
        users: Seq::<User>::empty(),
        show_votes: false,
        sent: Seq::<MessageView>::empty(),
    }
}

/// The live rooms, each under its own id.
pub struct BreakoutChannels {
    ids: Vec<String>,
    channels: Vec<BreakoutChannel>,
}

impl BreakoutChannels {
    /// The ids are unique and each stands beside its room.
    closed spec fn keyed(&self) -> bool {
        &&& self.ids@.len() == self.channels@.len()
        &&& forall|i: int, j: int|
            0 <= i < self.ids@.len() && 0 <= j < self.ids@.len() && i != j ==> #[trigger] self.ids@[i]@
                != #[trigger] self.ids@[j]@
    }

    /// The ids are unique, and each room stands under its own id.
    pub closed spec fn wf(&self) -> bool {
        &&& self.keyed()
        &&& forall|i: int| 0 <= i < self.ids@.len() ==> #[trigger] self.channels@[i]@.lookup_id == self.ids@[i]@
    }

    /// Each live room's own id is the one it is kept under.
    pub proof fn lemma_rooms_under_own_id(&self)
        requires
            self.wf(),
        ensures
            forall|k: Seq<char>| #[trigger] self@.contains_key(k) ==> self@[k].lookup_id == k,
    {
        assert forall|k: Seq<char>| #[trigger] self@.contains_key(k) implies self@[k].lookup_id == k by {
            assert(self.holds(k));
            let j = choose|j: int| 0 <= j < self.ids@.len() && #[trigger] self.ids@[j]@ == k;
            self.lemma_at(j);
        }
    }

    /// Some room stands under `id`.
    closed spec fn holds(&self, id: Seq<char>) -> bool {
        exists|i: int| 0 <= i < self.ids@.len() && #[trigger] self.ids@[i]@ == id
    }

    /// The index of the room under `id`.
    closed spec fn slot(&self, id: Seq<char>) -> int {
        choose|i: int| 0 <= i < self.ids@.len() && #[trigger] self.ids@[i]@ == id
    }

    /// The room at index `i` is the one the map shows under its id.
    proof fn lemma_at(&self, i: int)
        requires
            self.keyed(),
            0 <= i < self.ids@.len(),
        ensures
            self@.contains_key(self.ids@[i]@),
            self@[self.ids@[i]@] == self.channels@[i]@,
    {
        let id = self.ids@[i]@;
        assert(self.holds(id));
        let j = self.slot(id);
        assert(self.ids@[j]@ == id);
    }

    /// Replacing the room at index `i` replaces it in the map.
    proof fn lemma_replaced(before: BreakoutChannels, i: int, after: BreakoutChannels, c: BreakoutChannel)
        requires
            before.keyed(),
            0 <= i < before.ids@.len(),
            after.ids@ == before.ids@,
            after.channels@ == before.channels@.update(i, c),
        ensures
            after.keyed(),
            before.wf() && c@.lookup_id == before.ids@[i]@ ==> after.wf(),
            after@ == before@.insert(before.ids@[i]@, c@),
    {
        if before.wf() && c@.lookup_id == before.ids@[i]@ {
            assert forall|j: int| 0 <= j < after.ids@.len() implies #[trigger] after.channels@[j]@.lookup_id
                == after.ids@[j]@ by {
                if j != i {
                    assert(after.channels@[j] == before.channels@[j]);
                }
            }
        }
        let id = before.ids@[i]@;
        assert forall|k: Seq<char>| #[trigger] after@.contains_key(k) <==> before@.insert(id, c@).contains_key(k) by {
            if before@.insert(id, c@).contains_key(k) && k != id {
                assert(before.holds(k));
                assert(after.holds(k));
            }
            if k == id {
                assert(after.holds(k));
            }
        }
        assert forall|k: Seq<char>| #[trigger] after@.contains_key(k) implies after@[k] == before@.insert(id, c@)[k] by {
            assert(after.holds(k));
            let j = choose|j: int| 0 <= j < after.ids@.len() && #[trigger] after.ids@[j]@ == k;
            after.lemma_at(j);
            before.lemma_at(j);
        }
        assert(after@ =~= before@.insert(id, c@));
    }

    /// `lemma_replaced`, for every replacement at once.
    proof fn lemma_replaced_any(before: BreakoutChannels, i: int)
        requires
            before.keyed(),
            0 <= i < before.ids@.len(),
        ensures
            forall|after: BreakoutChannels, c: BreakoutChannel|
                #![trigger after@, c@]
                after.ids@ == before.ids@ && after.channels@ == before.channels@.update(i, c)
                    ==> after.keyed() && (before.wf() && c@.lookup_id == before.ids@[i]@ ==> after.wf())
                    && after@ == before@.insert(before.ids@[i]@, c@),
    {
        assert forall|after: BreakoutChannels, c: BreakoutChannel|
            #![trigger after@, c@]
            after.ids@ == before.ids@ && after.channels@ == before.channels@.update(i, c)
                implies after.keyed() && (before.wf() && c@.lookup_id == before.ids@[i]@ ==> after.wf())
                && after@ == before@.insert(before.ids@[i]@, c@) by {
            BreakoutChannels::lemma_replaced(before, i, after, c);
        }
    }

    /// No live rooms.
    pub fn new() -> (r: BreakoutChannels)
        ensures
            r.wf(),
            r@ == Map::<Seq<char>, RoomView>::empty(),
    {
        let r = BreakoutChannels { ids: Vec::new(), channels: Vec::new() };
        assert(r@ =~= Map::<Seq<char>, RoomView>::empty());
        r
    }

    /// The index of the room with id `lookup_id`.
    fn position(&self, lookup_id: &str) -> (r: Option<usize>)
        requires
            self.wf(),
        ensures
            match r {
                Some(i) => i < self.ids@.len() && self.ids@[i as int]@ == lookup_id@,
                None => !self@.contains_key(lookup_id@),
            },
    {
        let target = lookup_id.to_owned();
        let mut i: usize = 0;
        while i < self.ids.len()
            invariant
                0 <= i <= self.ids@.len(),
                target@ == lookup_id@,
                forall|j: int| 0 <= j < i ==> #[trigger] self.ids@[j]@ != lookup_id@,
            decreases self.ids@.len() - i,
        {
            if self.ids[i] == target {
                return Some(i);
            }
            i = i + 1;
        }
        None
    }

    /// The room with id `lookup_id`, if it is live.
    pub fn get(&self, lookup_id: &str) -> (r: Option<&BreakoutChannel>)
        requires
            self.wf(),
        ensures
            r is Some <==> self@.contains_key(lookup_id@),
            r is Some ==> r->0@ == self@[lookup_id@],
    {
        match self.position(lookup_id) {
            Some(i) => {
                proof { self.lemma_at(i as int); }
                Some(&self.channels[i])
            },
            None => None,
        }
    }

    /// A connection of participant `user_lookup_id` to room `room_id` closed:
    /// the participant leaves that room, which publishes its roster, and the
    /// room is discarded if nobody is left in it. Nothing happens for a room
    /// that is not live.
    pub fn disconnect(&mut self, room_id: &str, user_lookup_id: &str)
        requires
            old(self).wf(),
        ensures
            final(self).wf(),
            !old(self)@.contains_key(room_id@) ==> final(self)@ == old(self)@,
            old(self)@.contains_key(room_id@) && left(old(self)@[room_id@].users, user_lookup_id@).len()
                == 0 ==> final(self)@ == old(self)@.remove(room_id@),
            old(self)@.contains_key(room_id@) && left(old(self)@[room_id@].users, user_lookup_id@).len()
                > 0 ==> {
                let before = old(self)@[room_id@];
                let after = final(self)@[room_id@];
                &&& final(self)@ == old(self)@.insert(room_id@, after)
                &&& after.users == left(before.users, user_lookup_id@)
                &&& after.show_votes == before.show_votes
                &&& after.lookup_id == before.lookup_id
                &&& published(before, after, Seq::empty())
            },
    {
        if let Some(i) = self.position(room_id) {
            proof {
                self.lemma_at(i as int);
                BreakoutChannels::lemma_replaced_any(*self, i as int);
            }
            let ghost before = *self;
            let room = &mut self.channels[i];
            room.remove_user(user_lookup_id);
            proof {
                assert(self.ids@ == before.ids@);
                self.lemma_at(i as int);
            }
            self.remove_if_empty(room_id);
        }
    }

    /// Discards the room with id `lookup_id` if nobody is left in it; any other
    /// case leaves everything as it is.
    pub fn remove_if_empty(&mut self, lookup_id: &str)
        requires
            old(self).wf(),
        ensures
            final(self).wf(),
            final(self)@ == if old(self)@.contains_key(lookup_id@) && old(self)@[lookup_id@].users.len() == 0 {
                old(self)@.remove(lookup_id@)
            } else {
                old(self)@
            },
    {
        if let Some(i) = self.position(lookup_id) {
            proof { self.lemma_at(i as int); }
            if self.channels[i].is_empty() {
                let ghost before = *self;
                self.ids.remove(i);
                self.channels.remove(i);
                proof {
                    let id = lookup_id@;
                    assert(self.wf()) by {
                        assert forall|a: int, b: int|
                            0 <= a < self.ids@.len() && 0 <= b < self.ids@.len() && a != b
                            implies #[trigger] self.ids@[a]@ != #[trigger] self.ids@[b]@ by {
                            let oa = if a < i { a } else { a + 1 };
                            let ob = if b < i { b } else { b + 1 };
                            assert(self.ids@[a] == before.ids@[oa] && self.ids@[b] == before.ids@[ob]);
                        }
                    }
                    assert forall|k: Seq<char>| #[trigger] self@.contains_key(k) implies
                        before@.remove(id).contains_key(k) && self@[k] == before@.remove(id)[k] by {
                        assert(self.holds(k));
                        let j = choose|j: int| 0 <= j < self.ids@.len() && #[trigger] self.ids@[j]@ == k;
                        let oj = if j < i { j } else { j + 1 };
                        assert(self.ids@[j] == before.ids@[oj]);
                        assert(self.channels@[j] == before.channels@[oj]);
                        self.lemma_at(j);
                        before.lemma_at(oj);
                    }
                    assert forall|k: Seq<char>| #[trigger] before@.remove(id).contains_key(k)
                        implies self@.contains_key(k) by {
                        assert(before.holds(k));
                        let oj = choose|j: int| 0 <= j < before.ids@.len() && #[trigger] before.ids@[j]@ == k;
                        assert(oj != i);
                        let j = if oj < i { oj } else { oj - 1 };
                        assert(self.ids@[j] == before.ids@[oj]);
                        self.lemma_at(j);
                    }
                    assert(self@ =~= before@.remove(id));
                }
            }
        }
    }
}

impl View for BreakoutChannels {
    type V = Map<Seq<char>, RoomView>;

    closed spec fn view(&self) -> Map<Seq<char>, RoomView> {
        Map::new(|id: Seq<char>| self.holds(id), |id: Seq<char>| self.channels@[self.slot(id)]@)
    }
}

impl BreakoutChannel {
    /// The room with id `lookup_id`, created empty if it is not live.
    pub fn find_or_create<'a>(channels: &'a mut BreakoutChannels, lookup_id: &str) -> (r: &'a mut BreakoutChannel)
        requires
            old(channels).wf(),
        ensures
            (*r)@.lookup_id == lookup_id@,
            (*final(r))@.lookup_id == lookup_id@ ==> final(channels).wf(),
            old(channels)@.contains_key(lookup_id@) ==> (*r)@ == old(channels)@[lookup_id@],
            !old(channels)@.contains_key(lookup_id@) ==> (*r)@ == fresh_room(lookup_id@)
                && (*r).subscriptions() == 0,
            final(channels)@ == old(channels)@.insert(lookup_id@, (*final(r))@),
    {
        match channels.position(lookup_id) {
            Some(i) => {
                proof { channels.lemma_at(i as int); }
                proof { BreakoutChannels::lemma_replaced_any(*channels, i as int); }
                &mut channels.channels[i]
            },
            None => {
                let ghost before = *channels;
                channels.ids.push(lookup_id.to_owned());
                channels.channels.push(BreakoutChannel::new(lookup_id));
                let n = channels.channels.len() - 1;
                proof {
                    assert(channels.wf()) by {
                        assert forall|j: int| 0 <= j < channels.ids@.len() implies #[trigger] channels.channels@[j]@.lookup_id
                            == channels.ids@[j]@ by {
                            if j < n {
                                assert(channels.channels@[j] == before.channels@[j]);
                                assert(channels.ids@[j] == before.ids@[j]);
                            }
                        }
                        assert forall|a: int, b: int|
                            0 <= a < channels.ids@.len() && 0 <= b < channels.ids@.len() && a != b
                            implies #[trigger] channels.ids@[a]@ != #[trigger] channels.ids@[b]@ by {
                            if a < n && b < n {
                                assert(channels.ids@[a] == before.ids@[a] && channels.ids@[b] == before.ids@[b]);
                            } else if a < n {
                                assert(channels.ids@[a] == before.ids@[a]);
                                assert(!before.holds(lookup_id@));
                            } else {
                                assert(channels.ids@[b] == before.ids@[b]);
                                assert(!before.holds(lookup_id@));
                            }
                        }
                    }
                    assert forall|k: Seq<char>| #[trigger] channels@.contains_key(k) && k != lookup_id@
                        implies before@.contains_key(k) && channels@[k] == before@[k] by {
                        assert(channels.holds(k));
                        let j = choose|j: int| 0 <= j < channels.ids@.len() && #[trigger] channels.ids@[j]@ == k;
                        assert(j < n);
                        assert(channels.ids@[j] == before.ids@[j]);
                        channels.lemma_at(j);
                        before.lemma_at(j);
                    }
                    assert forall|k: Seq<char>| #[trigger] before@.contains_key(k)
                        implies channels@.contains_key(k) by {
                        assert(before.holds(k));
                        let j = choose|j: int| 0 <= j < before.ids@.len() && #[trigger] before.ids@[j]@ == k;
                        assert(channels.ids@[j] == before.ids@[j]);
                        channels.lemma_at(j);
                    }
                    channels.lemma_at(n as int);
                    BreakoutChannels::lemma_replaced_any(*channels, n as int);
                    assert(channels@ =~= before@.insert(lookup_id@, channels.channels@[n as int]@));
                }
                &mut channels.channels[n]
            },
        }
    }
}

} // verus!
