//! The routing fabric: who forwards what to whom.
//!
//! The switchboard owns every session and keeps three indices in
//! lockstep with them: room occupancy (master handles only), the media
//! forwarding edges from publishers to subscribers, and the block
//! relation between users. [`Switchboard::wf`] states the invariants
//! the indices keep; every mutating operation preserves them.

use vstd::prelude::*;

use crate::messages::{RoomId, UserId};
use vstd::seq_lib::lemma_seq_contains_after_push;
use crate::sessions::{is_master, room_of, user_of, Session, SessionId};

verus! {

broadcast use lemma_seq_contains_after_push;

/// The routing indices, maintained in lockstep.
#[derive(Debug)]
pub struct Switchboard {
    /// Every session ever created, indexed by [`SessionId`]; a
    /// destroyed session keeps its slot but stands in no index.
    pub sessions: Vec<Session>,
    /// Master handles per room, in join order.
    pub occupants: Vec<(RoomId, Vec<SessionId>)>,
    /// Media forwarding edges, publisher first, subscriber second.
    pub edges: Vec<(SessionId, SessionId)>,
    /// Blocks, blocker first, blocked second.
    pub blocks: Vec<(UserId, UserId)>,
}

impl Switchboard {
    /// Whether an identity names a session slot.
    pub open spec fn valid_id(self, s: SessionId) -> bool {
        s < self.sessions@.len()
    }

    /// The session in a slot.
    pub open spec fn sess(self, s: SessionId) -> Session {
        self.sessions@[s as int]
    }

    /// Whether a session is live: created and not destroyed.
    pub open spec fn live(self, s: SessionId) -> bool {
        self.valid_id(s) && !self.sess(s).destroyed
    }

    /// The position of a room's occupant entry, if the room has one.
    pub open spec fn room_at(self, r: Seq<char>) -> Option<int> {
        spec_room_at(self.occupants@, r)
    }

    /// Whether a session is an occupant (a master handle) of a room.
    pub open spec fn is_occupant(self, r: Seq<char>, s: SessionId) -> bool {
        match self.room_at(r) {
            Option::Some(i) => self.occupants@[i].1@.contains(s),
            Option::None => false,
        }
    }

    /// How many master handles a room holds.
    pub open spec fn occupant_count(self, r: Seq<char>) -> nat {
        match self.room_at(r) {
            Option::Some(i) => self.occupants@[i].1@.len(),
            Option::None => 0,
        }
    }

    /// Whether media flows from publisher `p` to subscriber `s`.
    pub open spec fn edge(self, p: SessionId, s: SessionId) -> bool {
        self.edges@.contains((p, s))
    }

    /// Whether user `a` blocks user `b`.
    pub open spec fn blocked(self, a: Seq<char>, b: Seq<char>) -> bool {
        pair_in(self.blocks@, a, b)
    }

    /// Whether a session of user `u` and a candidate recipient session
    /// `t` are kept apart by a block in either direction.
    pub open spec fn mutually_blocked(self, u: Seq<char>, t: SessionId) -> bool {
        match self.sess(t).join_state {
            Option::Some(js) => self.blocked(u, js.user_id@) || self.blocked(js.user_id@, u),
            Option::None => false,
        }
    }

    /// Whether some live session has joined as user `u`.
    pub open spec fn user_connected(self, u: Seq<char>) -> bool {
        exists|i: SessionId|
            self.live(i) && #[trigger] self.sess(i).join_state is Some && user_of(self.sess(i))
                == u
    }

    /// The users present in a room, one per master handle, in join
    /// order.
    pub open spec fn users_of(self, r: Seq<char>) -> Seq<UserId> {
        match self.room_at(r) {
            Option::Some(i) => Seq::new(
                self.occupants@[i].1@.len(),
                |k: int| self.sess(self.occupants@[i].1@[k]).join_state->0.user_id,
            ),
            Option::None => Seq::<UserId>::empty(),
        }
    }

    /// Whether session `p` is a publisher for user `u`: live, joined as
    /// `u`, with a subscriber offer cached.
    pub open spec fn is_publisher_for(self, u: Seq<char>, p: SessionId) -> bool {
        &&& self.live(p)
        &&& self.sess(p).join_state is Some
        &&& user_of(self.sess(p)) == u
        &&& self.sess(p).subscriber_offer is Some
    }

    /// Everything the indices promise about each other.
    pub open spec fn wf(self) -> bool {
        // Room keys are distinct.
        &&& (forall|i: int, j: int|
            0 <= i < j < self.occupants@.len() ==> #[trigger] self.occupants@[i].0@
                != #[trigger] self.occupants@[j].0@)
        // Each occupant is a live master handle joined into that room.
        &&& (forall|i: int, k: int|
            0 <= i < self.occupants@.len() && 0 <= k < self.occupants@[i].1@.len() ==> {
                let s = #[trigger] self.occupants@[i].1@[k];
                &&& self.live(s)
                &&& self.sess(s).join_state is Some
                &&& room_of(self.sess(s)) == self.occupants@[i].0@
                &&& is_master(self.sess(s))
            })
        // No occupant list names a session twice.
        &&& (forall|i: int, k1: int, k2: int|
            0 <= i < self.occupants@.len() && 0 <= k1 < k2 < self.occupants@[i].1@.len()
                ==> #[trigger] self.occupants@[i].1@[k1] != #[trigger] self.occupants@[i].1@[k2])
        // Each edge runs from a live publisher with a cached offer to a
        // live subscriber whose subscription names the publisher's user.
        &&& (forall|k: int|
            0 <= k < self.edges@.len() ==> {
                let p = (#[trigger] self.edges@[k]).0;
                let s = self.edges@[k].1;
                &&& self.live(p)
                &&& self.live(s)
                &&& self.sess(p).join_state is Some
                &&& self.sess(p).subscriber_offer is Some
                &&& self.sess(s).subscription is Some
                &&& self.sess(s).subscription->0.media is Some
                &&& self.sess(s).subscription->0.media->0@ == user_of(self.sess(p))
            })
        // No edge stands twice.
        &&& (forall|k1: int, k2: int|
            0 <= k1 < k2 < self.edges@.len() ==> #[trigger] self.edges@[k1]
                != #[trigger] self.edges@[k2])
    }

    /// An empty switchboard.
    pub fn new() -> (sb: Switchboard)
        ensures
            sb.wf(),
            sb.sessions@.len() == 0,
            sb.occupants@.len() == 0,
            sb.edges@.len() == 0,
            sb.blocks@.len() == 0,
    {
        Switchboard { sessions: Vec::new(), occupants: Vec::new(), edges: Vec::new(), blocks: Vec::new() }
    }

    /// Open a fresh session and hand back its identity.
    pub fn connect(&mut self) -> (s: SessionId)
        requires
            old(self).wf(),
        ensures
            final(self).wf(),
            s == old(self).sessions@.len(),
            final(self).sessions@ == old(self).sessions@.push(crate::sessions::Session {
                join_state: Option::None,
                subscription: Option::None,
                subscriber_offer: Option::None,
                fir_seq: 0,
                destroyed: false,
            }),
            final(self).occupants == old(self).occupants,
            final(self).edges == old(self).edges,
            final(self).blocks == old(self).blocks,
    {
        let s = self.sessions.len();
        self.sessions.push(Session::new());
        proof {
            assert(final(self).sess(s as SessionId).join_state is None);
            assert(forall|t: SessionId|
                t < old(self).sessions@.len() ==> final(self).sess(t) == old(self).sess(t));
        }
        s
    }

    // -----------------------------------------------------------------
    // Mutators
    // -----------------------------------------------------------------

    /// Add a master handle to its room's occupant list. The caller has
    /// already joined the session into the room and made it a master.
    pub fn join_room(&mut self, s: SessionId, r: &RoomId)
        requires
            old(self).wf(),
            old(self).live(s),
            old(self).sess(s).join_state is Some,
            room_of(old(self).sess(s)) == r@,
            is_master(old(self).sess(s)),
            !old(self).is_occupant(r@, s),
        ensures
            final(self).wf(),
            final(self).sessions == old(self).sessions,
            final(self).edges == old(self).edges,
            final(self).blocks == old(self).blocks,
            final(self).is_occupant(r@, s),
            final(self).occupant_count(r@) == old(self).occupant_count(r@) + 1,
            forall|r2: Seq<char>, t: SessionId|
                !(r2 == r@ && t == s) ==> #[trigger] final(self).is_occupant(r2, t)
                    == old(self).is_occupant(r2, t),
            forall|r2: Seq<char>|
                r2 != r@ ==> #[trigger] final(self).occupant_count(r2) == old(
                    self,
                ).occupant_count(r2),
    {
        let ghost old_occ = self.occupants@;
        let found = self.find_room(r);
        match found {
            Some(i) => {
                proof {
                    lemma_room_at_props(old_occ, r@);
                }
                let entry = &mut self.occupants[i];
                entry.1.push(s);
                proof {
                    let new_occ = self.occupants@;
                    assert(new_occ == old_occ.update(i as int, new_occ[i as int]));
                    assert(forall|j: int|
                        0 <= j < new_occ.len() && j != i ==> new_occ[j] == old_occ[j]);
                    assert(forall|j: int| 0 <= j < new_occ.len() ==> new_occ[j].0@ == old_occ[j].0@);
                    lemma_room_at_same_keys(old_occ, new_occ);
                    assert(new_occ[i as int].1@ == old_occ[i as int].1@.push(s));

                    assert(self.is_occupant(r@, s));
                    assert(self.occupant_count(r@) == old(self).occupant_count(r@) + 1);
                    assert forall|r2: Seq<char>, t: SessionId|
                        !(r2 == r@ && t == s) implies #[trigger] self.is_occupant(r2, t) == old(
                        self,
                    ).is_occupant(r2, t) by {
                        lemma_room_at_props(old_occ, r2);
                        match spec_room_at(old_occ, r2) {
                            Option::Some(j) => {
                                if j == i {
                                    assert(r2 == r@);
                                } else {
                                    assert(new_occ[j] == old_occ[j]);
                                }
                            },
                            Option::None => {},
                        }
                    }
                    assert forall|r2: Seq<char>| r2 != r@ implies #[trigger] self.occupant_count(
                        r2,
                    ) == old(self).occupant_count(r2) by {
                        lemma_room_at_props(old_occ, r2);
                        match spec_room_at(old_occ, r2) {
                            Option::Some(j) => {
                                assert(j != i);
                                assert(new_occ[j] == old_occ[j]);
                            },
                            Option::None => {},
                        }
                    }
                    assert forall|i2: int, k: int|
                        0 <= i2 < new_occ.len() && 0 <= k < new_occ[i2].1@.len() implies {
                        let t = #[trigger] new_occ[i2].1@[k];
                        &&& self.live(t)
                        &&& self.sess(t).join_state is Some
                        &&& room_of(self.sess(t)) == new_occ[i2].0@
                        &&& is_master(self.sess(t))
                    } by {
                        if i2 == i && k == new_occ[i2].1@.len() - 1 {
                            assert(new_occ[i2].1@[k] == s);
                        } else {
                            assert(new_occ[i2].1@[k] == old_occ[i2].1@[k]);
                        }
                    }
                    assert forall|i2: int, k1: int, k2: int|
                        0 <= i2 < new_occ.len() && 0 <= k1 < k2 < new_occ[i2].1@.len()
                        implies #[trigger] new_occ[i2].1@[k1] != #[trigger] new_occ[i2].1@[k2] by {
                        if i2 == i && k2 == new_occ[i2].1@.len() - 1 {
                            assert(new_occ[i2].1@[k1] == old_occ[i2].1@[k1]);
                            assert(!old_occ[i as int].1@.contains(s));
                            assert(old_occ[i2].1@[k1] != s);
                        }
                    }
                    assert(self.wf());
                }
            },
            None => {
                proof {
                    lemma_room_at_props(old_occ, r@);
                }
                let mut list: Vec<SessionId> = Vec::new();
                list.push(s);
                self.occupants.push((r.clone(), list));
                proof {
                    let new_occ = self.occupants@;
                    let e = new_occ.last();
                    assert(new_occ == old_occ.push(e));
                    assert(e.0@ == r@);
                    assert(e.1@ =~= seq![s]);
                    lemma_room_at_push(old_occ, e);

                    assert(spec_room_at(new_occ, r@) == Option::Some(old_occ.len() as int));
                    assert(new_occ[old_occ.len() as int].1@.contains(s)) by {
                        assert(new_occ[old_occ.len() as int].1@[0] == s);
                    }
                    assert(self.is_occupant(r@, s));
                    assert(self.occupant_count(r@) == old(self).occupant_count(r@) + 1);
                    assert forall|r2: Seq<char>, t: SessionId|
                        !(r2 == r@ && t == s) implies #[trigger] self.is_occupant(r2, t) == old(
                        self,
                    ).is_occupant(r2, t) by {
                        lemma_room_at_props(old_occ, r2);
                        match spec_room_at(old_occ, r2) {
                            Option::Some(j) => {
                                assert(new_occ[j] == old_occ[j]);
                            },
                            Option::None => {
                                if r2 == r@ {
                                    assert(new_occ[old_occ.len() as int].1@ =~= seq![s]);
                                    if new_occ[old_occ.len() as int].1@.contains(t) {
                                        let q = choose|q: int|
                                            0 <= q < new_occ[old_occ.len() as int].1@.len()
                                                && new_occ[old_occ.len() as int].1@[q] == t;
                                        assert(t == s);
                                    }
                                }
                            },
                        }
                    }
                    assert forall|r2: Seq<char>| r2 != r@ implies #[trigger] self.occupant_count(
                        r2,
                    ) == old(self).occupant_count(r2) by {
                        lemma_room_at_props(old_occ, r2);
                        match spec_room_at(old_occ, r2) {
                            Option::Some(j) => {
                                assert(new_occ[j] == old_occ[j]);
                            },
                            Option::None => {},
                        }
                    }
                    assert forall|i2: int, j2: int|
                        0 <= i2 < j2 < new_occ.len() implies #[trigger] new_occ[i2].0@
                        != #[trigger] new_occ[j2].0@ by {
                        if j2 == new_occ.len() - 1 {
                            assert(new_occ[i2] == old_occ[i2]);
                            assert(old_occ[i2].0@ != r@);
                        }
                    }
                    assert forall|i2: int, k: int|
                        0 <= i2 < new_occ.len() && 0 <= k < new_occ[i2].1@.len() implies {
                        let t = #[trigger] new_occ[i2].1@[k];
                        &&& self.live(t)
                        &&& self.sess(t).join_state is Some
                        &&& room_of(self.sess(t)) == new_occ[i2].0@
                        &&& is_master(self.sess(t))
                    } by {
                        if i2 == new_occ.len() - 1 {
                            assert(new_occ[i2].1@[k] == s);
                        } else {
                            assert(new_occ[i2] == old_occ[i2]);
                        }
                    }
                    assert forall|i2: int, k1: int, k2: int|
                        0 <= i2 < new_occ.len() && 0 <= k1 < k2 < new_occ[i2].1@.len()
                        implies #[trigger] new_occ[i2].1@[k1] != #[trigger] new_occ[i2].1@[k2] by {
                        if i2 < new_occ.len() - 1 {
                            assert(new_occ[i2] == old_occ[i2]);
                        }
                    }
                    assert(self.wf());
                }
            },
        }
    }

    /// Add a media forwarding edge from publisher `p` to subscriber `s`
    /// and its inverse lookup.
    pub fn subscribe_to_user(&mut self, s: SessionId, p: SessionId)
        requires
            old(self).wf(),
            old(self).live(s),
            old(self).live(p),
            old(self).sess(p).join_state is Some,
            old(self).sess(p).subscriber_offer is Some,
            old(self).sess(s).subscription is Some,
            old(self).sess(s).subscription->0.media is Some,
            old(self).sess(s).subscription->0.media->0@ == user_of(old(self).sess(p)),
            !old(self).edge(p, s),
        ensures
            final(self).wf(),
            final(self).sessions == old(self).sessions,
            final(self).occupants == old(self).occupants,
            final(self).blocks == old(self).blocks,
            final(self).edges@ == old(self).edges@.push((p, s)),
            forall|x: SessionId, y: SessionId| #[trigger]
                final(self).edge(x, y) == (old(self).edge(x, y) || (x == p && y == s)),
    {
        self.edges.push((p, s));
        proof {
            assert(forall|x: SessionId, y: SessionId| #[trigger] self.edge(x, y) == (old(
                self,
            ).edge(x, y) || (x == p && y == s)));
            assert forall|k1: int, k2: int|
                0 <= k1 < k2 < self.edges@.len() implies #[trigger] self.edges@[k1]
                != #[trigger] self.edges@[k2] by {
                if k2 == self.edges@.len() - 1 {
                    assert(!old(self).edges@.contains((p, s)));
                    assert(old(self).edges@[k1] == self.edges@[k1]);
                }
            }
        }
    }

    /// Record that user `a` blocks user `b`.
    pub fn establish_block(&mut self, a: UserId, b: UserId)
        requires
            old(self).wf(),
        ensures
            final(self).wf(),
            final(self).sessions == old(self).sessions,
            final(self).occupants == old(self).occupants,
            final(self).edges == old(self).edges,
            forall|x: Seq<char>, y: Seq<char>| #[trigger]
                final(self).blocked(x, y) == (old(self).blocked(x, y) || (x == a@ && y == b@)),
    {
        let ghost ga = a@;
        let ghost gb = b@;
        self.blocks.push((a, b));
        proof {
            assert forall|x: Seq<char>, y: Seq<char>| #[trigger] self.blocked(x, y) == (old(
                self,
            ).blocked(x, y) || (x == ga && y == gb)) by {
                lemma_pair_in_push(old(self).blocks@, self.blocks@.last(), x, y);
            }
        }
    }

    /// Lift every block by user `a` of user `b`.
    pub fn lift_block(&mut self, a: &UserId, b: &UserId)
        requires
            old(self).wf(),
        ensures
            final(self).wf(),
            final(self).sessions == old(self).sessions,
            final(self).occupants == old(self).occupants,
            final(self).edges == old(self).edges,
            forall|x: Seq<char>, y: Seq<char>| #[trigger]
                final(self).blocked(x, y) == (old(self).blocked(x, y) && !(x == a@ && y == b@)),
    {
        let n: usize = self.blocks.len();
        let mut kept: Vec<(UserId, UserId)> = Vec::new();
        let mut i: usize = 0;
        proof {
            assert(self.blocks@.take(0) =~= Seq::<(UserId, UserId)>::empty());
        }
        while i < n
            invariant
                n == self.blocks@.len(),
                0 <= i <= n,
                forall|x: Seq<char>, y: Seq<char>| #[trigger] pair_in(kept@, x, y) == (pair_in(
                    self.blocks@.take(i as int),
                    x,
                    y,
                ) && !(x == a@ && y == b@)),
            decreases n - i,
        {
            let keep = !(self.blocks[i].0 == *a && self.blocks[i].1 == *b);
            let ghost prev_kept = kept@;
            if keep {
                let e = (self.blocks[i].0.clone(), self.blocks[i].1.clone());
                proof {
                    assert(e.0@ == self.blocks@[i as int].0@ && e.1@ == self.blocks@[i as int].1@);
                }
                kept.push(e);
            }
            proof {
                let bl = self.blocks@;
                assert(bl.take(i + 1) =~= bl.take(i as int).push(bl[i as int]));
                assert forall|x: Seq<char>, y: Seq<char>| #[trigger] pair_in(kept@, x, y) == (
                pair_in(bl.take(i + 1), x, y) && !(x == a@ && y == b@)) by {
                    lemma_pair_in_push(bl.take(i as int), bl[i as int], x, y);
                    if kept@.len() > prev_kept.len() {
                        lemma_pair_in_push(prev_kept, kept@.last(), x, y);
                    }
                }
            }
            i += 1;
        }
        proof {
            assert(self.blocks@.take(n as int) =~= self.blocks@);
        }
        self.blocks = kept;
    }

    /// Take a session out of every index and mark it destroyed. Its
    /// slot and fields stay, so its identity is never reused; a room
    /// entry left empty stays behind and reads as an absent room.
    pub fn remove_session(&mut self, s: SessionId)
        requires
            old(self).wf(),
            old(self).valid_id(s),
        ensures
            final(self).wf(),
            final(self).sessions@.len() == old(self).sessions@.len(),
            final(self).sess(s).destroyed,
            final(self).sess(s).join_state == old(self).sess(s).join_state,
            final(self).sess(s).subscription == old(self).sess(s).subscription,
            final(self).sess(s).subscriber_offer == old(self).sess(s).subscriber_offer,
            final(self).sess(s).fir_seq == old(self).sess(s).fir_seq,
            forall|t: SessionId|
                t != s && old(self).valid_id(t) ==> #[trigger] final(self).sess(t) == old(
                    self,
                ).sess(t),
            final(self).blocks == old(self).blocks,
            forall|r2: Seq<char>, t: SessionId| #[trigger]
                final(self).is_occupant(r2, t) == (old(self).is_occupant(r2, t) && t != s),
            forall|r2: Seq<char>|
                old(self).is_occupant(r2, s) ==> #[trigger] final(self).occupant_count(r2) + 1
                    == old(self).occupant_count(r2),
            forall|r2: Seq<char>|
                !old(self).is_occupant(r2, s) ==> #[trigger] final(self).occupant_count(r2)
                    == old(self).occupant_count(r2),
            forall|p: SessionId, t: SessionId| #[trigger]
                final(self).edge(p, t) == (old(self).edge(p, t) && p != s && t != s),
    {
        let ghost old_occ = self.occupants@;
        // Take the session out of its room's occupant list, if it is in one.
        let room: Option<usize> = match &self.sessions[s].join_state {
            Some(js) => self.find_room(&js.room_id),
            None => None,
        };
        proof {
            if old(self).sess(s).join_state is None {
                assert forall|r2: Seq<char>| !#[trigger] old(self).is_occupant(r2, s) by {
                    lemma_room_at_props(old_occ, r2);
                }
            }
        }
        match room {
            Some(i) => {
                proof {
                    lemma_room_at_props(old_occ, room_of(old(self).sess(s)));
                }
                let pos = position_of(&self.occupants[i].1, s);
                match pos {
                    Some(k) => {
                        let entry = &mut self.occupants[i];
                        entry.1.remove(k);
                        proof {
                            let new_occ = self.occupants@;
                            let old_list = old_occ[i as int].1@;
                            let new_list = new_occ[i as int].1@;
                            assert(new_list == old_list.remove(k as int));
                            old_list.remove_ensures(k as int);
                            assert(forall|j: int|
                                0 <= j < new_occ.len() && j != i ==> new_occ[j] == old_occ[j]);
                            assert(forall|j: int|
                                0 <= j < new_occ.len() ==> new_occ[j].0@ == old_occ[j].0@);
                            lemma_room_at_same_keys(old_occ, new_occ);
                            // What the shortened list holds.
                            assert forall|t: SessionId| #[trigger] new_list.contains(t) == (
                            old_list.contains(t) && t != s) by {
                                if new_list.contains(t) {
                                    let q = choose|q: int|
                                        0 <= q < new_list.len() && new_list[q] == t;
                                    if q < k {
                                        assert(old_list[q] == t);
                                        assert(t != s) by {
                                            if t == s {
                                                assert(old_list[q] == old_list[k as int]);
                                            }
                                        }
                                    } else {
                                        assert(old_list[q + 1] == t);
                                        assert(t != s) by {
                                            if t == s {
                                                assert(old_list[q + 1] == old_list[k as int]);
                                            }
                                        }
                                    }
                                }
                                if old_list.contains(t) && t != s {
                                    let q = choose|q: int|
                                        0 <= q < old_list.len() && old_list[q] == t;
                                    if q < k {
                                        assert(new_list[q] == t);
                                    } else {
                                        assert(q != k);
                                        assert(new_list[q - 1] == t);
                                    }
                                }
                            }
                        }
                    },
                    None => {
                        proof {
                            assert(!old_occ[i as int].1@.contains(s));
                        }
                    },
                }
            },
            None => {
                proof {
                    if old(self).sess(s).join_state is Some {
                        assert forall|r2: Seq<char>| !#[trigger] old(self).is_occupant(r2, s) by {
                            lemma_room_at_props(old_occ, r2);
                            if old(self).is_occupant(r2, s) {
                                let j = spec_room_at(old_occ, r2)->0;
                                let q = choose|q: int|
                                    0 <= q < old_occ[j].1@.len() && old_occ[j].1@[q] == s;
                                assert(old_occ[j].0@ == r2);
                                assert(room_of(old(self).sess(s)) == r2);
                                lemma_room_at_props(old_occ, room_of(old(self).sess(s)));
                            }
                        }
                    }
                }
            },
        }
        let ghost mid_occ = self.occupants@;
        // Drop every forwarding edge that touches the session.
        let n: usize = self.edges.len();
        let mut kept: Vec<(SessionId, SessionId)> = Vec::new();
        let mut idx: usize = 0;
        proof {
            assert(self.edges@.take(0) =~= Seq::<(SessionId, SessionId)>::empty());
        }
        while idx < n
            invariant
                n == self.edges@.len(),
                0 <= idx <= n,
                forall|x: (SessionId, SessionId)| #[trigger] kept@.contains(x) == (self.edges@.take(
                    idx as int,
                ).contains(x) && x.0 != s && x.1 != s),
                forall|k1: int, k2: int|
                    0 <= k1 < k2 < kept@.len() ==> #[trigger] kept@[k1] != #[trigger] kept@[k2],
                forall|k1: int, k2: int|
                    0 <= k1 < k2 < self.edges@.len() ==> #[trigger] self.edges@[k1]
                        != #[trigger] self.edges@[k2],
            decreases n - idx,
        {
            let e = self.edges[idx];
            if e.0 != s && e.1 != s {
                proof {
                    assert(!kept@.contains(e)) by {
                        if kept@.contains(e) {
                            assert(self.edges@.take(idx as int).contains(e));
                            let q = choose|q: int|
                                0 <= q < idx && self.edges@.take(idx as int)[q] == e;
                            assert(self.edges@[q] == e);
                            assert(self.edges@[idx as int] == e);
                        }
                    }
                }
                kept.push(e);
            }
            proof {
                assert(self.edges@.take(idx + 1) =~= self.edges@.take(idx as int).push(
                    self.edges@[idx as int],
                ));
            }
            idx += 1;
        }
        proof {
            assert(self.edges@.take(n as int) =~= self.edges@);
        }
        self.edges = kept;
        // Finally mark the session destroyed.
        let slot = &mut self.sessions[s];
        slot.destroyed = true;
        proof {
            let fin = *self;
            assert(fin.occupants@ == mid_occ);
            assert(fin.sess(s).destroyed);
            assert(forall|t: SessionId|
                t != s && old(self).valid_id(t) ==> #[trigger] fin.sess(t) == old(self).sess(t));
            // Occupancy afterwards.
            assert forall|r2: Seq<char>, t: SessionId| #[trigger] fin.is_occupant(r2, t) == (old(
                self,
            ).is_occupant(r2, t) && t != s) by {
                lemma_room_at_props(old_occ, r2);
                lemma_room_at_props(mid_occ, r2);
                if spec_room_at(old_occ, r2) is Some {
                    let j = spec_room_at(old_occ, r2)->0;
                    assert(old(self).is_occupant(r2, t) == old_occ[j].1@.contains(t));
                }
            }
            assert forall|r2: Seq<char>|
                old(self).is_occupant(r2, s) implies #[trigger] fin.occupant_count(r2) + 1 == old(
                self,
            ).occupant_count(r2) by {
                lemma_room_at_props(old_occ, r2);
            }
            assert forall|r2: Seq<char>|
                !old(self).is_occupant(r2, s) implies #[trigger] fin.occupant_count(r2) == old(
                self,
            ).occupant_count(r2) by {
                lemma_room_at_props(old_occ, r2);
            }
            // Edges afterwards.
            assert forall|p: SessionId, t: SessionId| #[trigger] fin.edge(p, t) == (old(self).edge(
                p,
                t,
            ) && p != s && t != s) by {
                if fin.edge(p, t) {
                    assert(fin.edges@.contains((p, t)));
                }
                if old(self).edge(p, t) && p != s && t != s {
                    assert(old(self).edges@.contains((p, t)));
                }
            }
            // The invariant still holds.
            assert forall|i2: int, k: int|
                0 <= i2 < fin.occupants@.len() && 0 <= k < fin.occupants@[i2].1@.len() implies {
                let t = #[trigger] fin.occupants@[i2].1@[k];
                &&& fin.live(t)
                &&& fin.sess(t).join_state is Some
                &&& room_of(fin.sess(t)) == fin.occupants@[i2].0@
                &&& is_master(fin.sess(t))
            } by {
                let t = fin.occupants@[i2].1@[k];
                assert(fin.occupants@[i2].1@.contains(t));
                assert(fin.is_occupant(fin.occupants@[i2].0@, t)) by {
                    lemma_room_at_props(mid_occ, fin.occupants@[i2].0@);
                    assert(spec_room_at(mid_occ, fin.occupants@[i2].0@) == Option::Some(i2));
                }
                assert(t != s);
                assert(old(self).is_occupant(fin.occupants@[i2].0@, t));
                lemma_room_at_props(old_occ, fin.occupants@[i2].0@);
                let j = spec_room_at(old_occ, fin.occupants@[i2].0@)->0;
                let q = choose|q: int| 0 <= q < old_occ[j].1@.len() && old_occ[j].1@[q] == t;
            }
            assert forall|i2: int, k1: int, k2: int|
                0 <= i2 < fin.occupants@.len() && 0 <= k1 < k2 < fin.occupants@[i2].1@.len()
                implies #[trigger] fin.occupants@[i2].1@[k1]
                != #[trigger] fin.occupants@[i2].1@[k2] by {
                if mid_occ[i2] == old_occ[i2] {
                } else {
                    let old_list = old_occ[i2].1@;
                    let new_list = mid_occ[i2].1@;
                    assert(forall|q1: int, q2: int|
                        0 <= q1 < q2 < old_list.len() ==> old_list[q1] != old_list[q2]);
                }
            }
            assert forall|k: int| 0 <= k < fin.edges@.len() implies {
                let p = (#[trigger] fin.edges@[k]).0;
                let t = fin.edges@[k].1;
                &&& fin.live(p)
                &&& fin.live(t)
                &&& fin.sess(p).join_state is Some
                &&& fin.sess(p).subscriber_offer is Some
                &&& fin.sess(t).subscription is Some
                &&& fin.sess(t).subscription->0.media is Some
                &&& fin.sess(t).subscription->0.media->0@ == user_of(fin.sess(p))
            } by {
                let e = fin.edges@[k];
                assert(fin.edges@.contains(e));
                assert(fin.edge(e.0, e.1));
                assert(old(self).edge(e.0, e.1) && e.0 != s && e.1 != s);
                let q = choose|q: int|
                    0 <= q < old(self).edges@.len() && old(self).edges@[q] == e;
            }
            assert(fin.wf());
        }
    }

    // -----------------------------------------------------------------
    // Reads
    // -----------------------------------------------------------------

    /// Whether media from `s` should reach `t`: an edge runs there, it
    /// is not `s` itself, and no block in either direction intervenes.
    pub open spec fn media_recipient(self, s: SessionId, t: SessionId) -> bool {
        &&& self.edge(s, t)
        &&& t != s
        &&& !self.mutually_blocked(user_of(self.sess(s)), t)
    }

    /// Whether `p` is a publisher that `s` subscribes to and may still
    /// exchange packets with: blocks cut keyframe requests off too.
    pub open spec fn media_sender(self, s: SessionId, p: SessionId) -> bool {
        &&& self.edge(p, s)
        &&& !(self.sess(s).join_state is Some && self.mutually_blocked(
            user_of(self.sess(s)),
            p,
        ))
    }

    /// Whether data from `s` should reach `t`: a room cohabitant other
    /// than `s` itself, with no block in either direction.
    pub open spec fn data_recipient(self, s: SessionId, t: SessionId) -> bool {
        &&& self.sess(s).join_state is Some
        &&& self.is_occupant(room_of(self.sess(s)), t)
        &&& t != s
        &&& !self.mutually_blocked(user_of(self.sess(s)), t)
    }

    /// Whether user `a` blocks user `b`.
    pub fn is_blocked(&self, a: &UserId, b: &UserId) -> (r: bool)
        ensures
            r == self.blocked(a@, b@),
    {
        let n: usize = self.blocks.len();
        let mut i: usize = 0;
        while i < n
            invariant
                n == self.blocks@.len(),
                0 <= i <= n,
                forall|k: int|
                    0 <= k < i ==> !((#[trigger] self.blocks@[k]).0@ == a@ && self.blocks@[k].1@
                        == b@),
            decreases n - i,
        {
            if self.blocks[i].0 == *a && self.blocks[i].1 == *b {
                return true;
            }
            i += 1;
        }
        false
    }

    /// Whether a block in either direction stands between user `u` and
    /// the user that session `t` joined as.
    fn blocked_from(&self, u: &UserId, t: SessionId) -> (r: bool)
        requires
            self.valid_id(t),
        ensures
            r == self.mutually_blocked(u@, t),
    {
        match &self.sessions[t].join_state {
            Some(js) => {
                let v = &js.user_id;
                self.is_blocked(u, v) || self.is_blocked(v, u)
            },
            None => false,
        }
    }

    /// The position of a room's occupant entry.
    fn find_room(&self, r: &RoomId) -> (ri: Option<usize>)
        ensures
            match ri {
                Option::Some(i) => self.room_at(r@) == Option::Some(i as int),
                Option::None => self.room_at(r@) is None,
            },
    {
        let n: usize = self.occupants.len();
        let mut i: usize = 0;
        proof {
            assert(self.occupants@.skip(0) =~= self.occupants@);
        }
        while i < n
            invariant
                n == self.occupants@.len(),
                0 <= i <= n,
                self.room_at(r@) == match spec_room_at(self.occupants@.skip(i as int), r@) {
                    Option::Some(k) => Option::Some(k + i),
                    Option::None => Option::<int>::None,
                },
            decreases n - i,
        {
            proof {
                assert(self.occupants@.skip(i as int)[0] == self.occupants@[i as int]);
            }
            if self.occupants[i].0 == *r {
                return Some(i);
            }
            proof {
                assert(self.occupants@.skip(i as int).drop_first() =~= self.occupants@.skip(
                    i + 1,
                ));
            }
            i += 1;
        }
        None
    }

    /// Whether any live session has joined as user `u`.
    pub fn is_connected(&self, u: &UserId) -> (r: bool)
        ensures
            r == self.user_connected(u@),
    {
        let n: usize = self.sessions.len();
        let mut i: usize = 0;
        while i < n
            invariant
                n == self.sessions@.len(),
                0 <= i <= n,
                forall|t: SessionId|
                    t < i ==> !(self.live(t) && #[trigger] self.sess(t).join_state is Some
                        && user_of(self.sess(t)) == u@),
            decreases n - i,
        {
            if !self.sessions[i].destroyed {
                match &self.sessions[i].join_state {
                    Some(js) => {
                        if js.user_id == *u {
                            proof {
                                assert(self.live(i as SessionId) && self.sess(
                                    i as SessionId,
                                ).join_state is Some && user_of(self.sess(i as SessionId)) == u@);
                            }
                            return true;
                        }
                    },
                    None => {},
                }
            }
            i += 1;
        }
        false
    }

    /// The session publishing as user `u`, if one is: live, joined as
    /// `u`, with a cached subscriber offer. Where several qualify the
    /// oldest is chosen.
    pub fn get_publisher(&self, u: &UserId) -> (r: Option<SessionId>)
        ensures
            match r {
                Option::Some(p) => self.is_publisher_for(u@, p),
                Option::None => forall|p: SessionId| !self.is_publisher_for(u@, p),
            },
    {
        let n: usize = self.sessions.len();
        let mut i: usize = 0;
        while i < n
            invariant
                n == self.sessions@.len(),
                0 <= i <= n,
                forall|p: SessionId| p < i ==> !#[trigger] self.is_publisher_for(u@, p),
            decreases n - i,
        {
            if !self.sessions[i].destroyed && self.sessions[i].subscriber_offer.is_some() {
                match &self.sessions[i].join_state {
                    Some(js) => {
                        if js.user_id == *u {
                            return Some(i);
                        }
                    },
                    None => {},
                }
            }
            proof {
                assert(!self.is_publisher_for(u@, i as SessionId));
            }
            i += 1;
        }
        None
    }

    /// The master handles in a room, in join order.
    pub fn occupants_of(&self, r: &RoomId) -> (v: Vec<SessionId>)
        ensures
            match self.room_at(r@) {
                Option::Some(i) => v@ == self.occupants@[i].1@,
                Option::None => v@ == Seq::<SessionId>::empty(),
            },
    {
        match self.find_room(r) {
            Some(i) => {
                proof {
                    lemma_room_at_props(self.occupants@, r@);
                }
                let list = &self.occupants[i].1;
                let m: usize = list.len();
                let mut v: Vec<SessionId> = Vec::new();
                let mut k: usize = 0;
                while k < m
                    invariant
                        m == list@.len(),
                        0 <= k <= m,
                        v@ == list@.subrange(0, k as int),
                    decreases m - k,
                {
                    v.push(list[k]);
                    k += 1;
                }
                proof {
                    assert(v@ =~= list@);
                }
                v
            },
            None => Vec::new(),
        }
    }

    /// The users present in a room: the user of each master handle, in
    /// join order.
    pub fn get_users(&self, r: &RoomId) -> (v: Vec<UserId>)
        requires
            self.wf(),
        ensures
            v@ == self.users_of(r@),
    {
        match self.find_room(r) {
            Some(i) => {
                proof {
                    lemma_room_at_props(self.occupants@, r@);
                }
                let list = &self.occupants[i].1;
                let m: usize = list.len();
                let mut v: Vec<UserId> = Vec::new();
                let mut k: usize = 0;
                while k < m
                    invariant
                        self.wf(),
                        self.room_at(r@) == Option::Some(i as int),
                        0 <= i < self.occupants@.len(),
                        list == &self.occupants@[i as int].1,
                        m == list@.len(),
                        0 <= k <= m,
                        v@.len() == k,
                        forall|q: int|
                            0 <= q < k ==> v@[q] == self.sess(
                                self.occupants@[i as int].1@[q],
                            ).join_state->0.user_id,
                    decreases m - k,
                {
                    let s = list[k];
                    proof {
                        assert(self.live(s) && self.sess(s).join_state is Some);
                    }
                    match &self.sessions[s].join_state {
                        Some(js) => {
                            v.push(js.user_id.clone());
                        },
                        None => {
                            proof {
                                assert(false);
                            }
                        },
                    }
                    k += 1;
                }
                proof {
                    assert(v@ =~= self.users_of(r@));
                }
                v
            },
            None => {
                proof {
                    lemma_room_at_props(self.occupants@, r@);
                    assert(Seq::<UserId>::empty() =~= self.users_of(r@));
                }
                Vec::new()
            },
        }
    }

    /// The sessions that media sent by `s` must be forwarded to.
    pub fn media_recipients_for(&self, s: SessionId) -> (v: Vec<SessionId>)
        requires
            self.wf(),
            self.valid_id(s),
        ensures
            v@.no_duplicates(),
            forall|t: SessionId| #[trigger] v@.contains(t) <==> self.media_recipient(s, t),
            forall|t: SessionId| v@.contains(t) ==> self.live(t),
    {
        let n: usize = self.edges.len();
        let mut v: Vec<SessionId> = Vec::new();
        let mut k: usize = 0;
        while k < n
            invariant
                self.wf(),
                self.valid_id(s),
                n == self.edges@.len(),
                0 <= k <= n,
                v@.no_duplicates(),
                forall|t: SessionId| #[trigger] v@.contains(t) ==> self.media_recipient(s, t),
                forall|q: int|
                    0 <= q < k && (#[trigger] self.edges@[q]).0 == s && self.media_recipient(
                        s,
                        self.edges@[q].1,
                    ) ==> v@.contains(self.edges@[q].1),
            decreases n - k,
        {
            let p = self.edges[k].0;
            let t = self.edges[k].1;
            if p == s && t != s {
                proof {
                    assert(self.edges@.contains(self.edges@[k as int]));
                    assert(self.edge(s, t));
                    assert(self.sess(s).join_state is Some);
                }
                let js = match &self.sessions[s].join_state {
                    Some(js) => js,
                    None => {
                        proof {
                            assert(false);
                        }
                        return v;
                    },
                };
                proof {
                    assert(js.user_id@ == user_of(self.sess(s)));
                }
                if !self.blocked_from(&js.user_id, t) {
                    proof {
                        assert(self.media_recipient(s, t));
                    }
                    if !contains_id(&v, t) {
                        v.push(t);
                    }
                }
            }
            k += 1;
        }
        proof {
            assert forall|t: SessionId| #[trigger] v@.contains(t) <==> self.media_recipient(
                s,
                t,
            ) by {
                if self.media_recipient(s, t) {
                    let q = choose|q: int|
                        0 <= q < self.edges@.len() && self.edges@[q] == (s, t);
                    assert(self.edges@[q].0 == s && self.edges@[q].1 == t);
                }
            }
            assert forall|t: SessionId| v@.contains(t) implies self.live(t) by {
                let q = choose|q: int| 0 <= q < self.edges@.len() && self.edges@[q] == (s, t);
            }
        }
        v
    }

    /// The publishers that `s` subscribes to and may still exchange
    /// packets with.
    pub fn media_senders_to(&self, s: SessionId) -> (v: Vec<SessionId>)
        requires
            self.wf(),
            self.valid_id(s),
        ensures
            v@.no_duplicates(),
            forall|p: SessionId| #[trigger] v@.contains(p) <==> self.media_sender(s, p),
            forall|p: SessionId| v@.contains(p) ==> self.live(p),
    {
        let n: usize = self.edges.len();
        let mut v: Vec<SessionId> = Vec::new();
        let mut k: usize = 0;
        while k < n
            invariant
                self.wf(),
                self.valid_id(s),
                n == self.edges@.len(),
                0 <= k <= n,
                v@.no_duplicates(),
                forall|p: SessionId| #[trigger] v@.contains(p) ==> self.media_sender(s, p),
                forall|q: int|
                    0 <= q < k && (#[trigger] self.edges@[q]).1 == s && self.media_sender(
                        s,
                        self.edges@[q].0,
                    ) ==> v@.contains(self.edges@[q].0),
            decreases n - k,
        {
            let p = self.edges[k].0;
            let t = self.edges[k].1;
            if t == s {
                proof {
                    assert(self.edges@.contains(self.edges@[k as int]));
                    assert(self.edge(p, s));
                }
                let keep = match &self.sessions[s].join_state {
                    Some(js) => !self.blocked_from(&js.user_id, p),
                    None => true,
                };
                if keep {
                    proof {
                        assert(self.media_sender(s, p));
                    }
                    if !contains_id(&v, p) {
                        v.push(p);
                    }
                }
            }
            k += 1;
        }
        proof {
            assert forall|p: SessionId| #[trigger] v@.contains(p) <==> self.media_sender(
                s,
                p,
            ) by {
                if self.media_sender(s, p) {
                    let q = choose|q: int|
                        0 <= q < self.edges@.len() && self.edges@[q] == (p, s);
                    assert(self.edges@[q].1 == s && self.edges@[q].0 == p);
                }
            }
            assert forall|p: SessionId| v@.contains(p) implies self.live(p) by {
                let q = choose|q: int| 0 <= q < self.edges@.len() && self.edges@[q] == (p, s);
            }
        }
        v
    }

    /// The raw subscriber set of publisher `s`, unfiltered: used when a
    /// renegotiated subscriber offer must reach every subscriber.
    pub fn subscribers_to(&self, s: SessionId) -> (v: Vec<SessionId>)
        requires
            self.wf(),
        ensures
            v@.no_duplicates(),
            forall|t: SessionId| #[trigger] v@.contains(t) <==> self.edge(s, t),
            forall|t: SessionId| v@.contains(t) ==> self.live(t),
    {
        let n: usize = self.edges.len();
        let mut v: Vec<SessionId> = Vec::new();
        let mut k: usize = 0;
        while k < n
            invariant
                self.wf(),
                n == self.edges@.len(),
                0 <= k <= n,
                v@.no_duplicates(),
                forall|t: SessionId| #[trigger] v@.contains(t) ==> self.edge(s, t),
                forall|q: int|
                    0 <= q < k && (#[trigger] self.edges@[q]).0 == s ==> v@.contains(
                        self.edges@[q].1,
                    ),
            decreases n - k,
        {
            let p = self.edges[k].0;
            let t = self.edges[k].1;
            if p == s {
                proof {
                    assert(self.edges@.contains(self.edges@[k as int]));
                    assert(self.edge(s, t));
                }
                if !contains_id(&v, t) {
                    v.push(t);
                }
            }
            k += 1;
        }
        proof {
            assert forall|t: SessionId| #[trigger] v@.contains(t) <==> self.edge(s, t) by {
                if self.edge(s, t) {
                    let q = choose|q: int|
                        0 <= q < self.edges@.len() && self.edges@[q] == (s, t);
                    assert(self.edges@[q].0 == s && self.edges@[q].1 == t);
                }
            }
            assert forall|t: SessionId| v@.contains(t) implies self.live(t) by {
                let q = choose|q: int| 0 <= q < self.edges@.len() && self.edges@[q] == (s, t);
            }
        }
        v
    }

    /// The sessions that data sent by `s` must be forwarded to: the
    /// cohabitants of its room, except itself and anyone blocked.
    pub fn data_recipients_for(&self, s: SessionId) -> (v: Vec<SessionId>)
        requires
            self.wf(),
            self.valid_id(s),
        ensures
            v@.no_duplicates(),
            forall|t: SessionId| #[trigger] v@.contains(t) <==> self.data_recipient(s, t),
            forall|t: SessionId| v@.contains(t) ==> self.live(t),
    {
        let js = match &self.sessions[s].join_state {
            Some(js) => js,
            None => {
                return Vec::new();
            },
        };
        proof {
            assert(self.sess(s).join_state is Some);
            assert(js.room_id@ == room_of(self.sess(s)));
            assert(js.user_id@ == user_of(self.sess(s)));
        }
        match self.find_room(&js.room_id) {
            Some(i) => {
                proof {
                    lemma_room_at_props(self.occupants@, js.room_id@);
                }
                let list = &self.occupants[i].1;
                let m: usize = list.len();
                let mut v: Vec<SessionId> = Vec::new();
                let mut k: usize = 0;
                while k < m
                    invariant
                        self.wf(),
                        self.valid_id(s),
                        self.sess(s).join_state is Some,
                        js == self.sess(s).join_state->0,
                        self.room_at(room_of(self.sess(s))) == Option::Some(i as int),
                        0 <= i < self.occupants@.len(),
                        list == &self.occupants@[i as int].1,
                        m == list@.len(),
                        0 <= k <= m,
                        v@.no_duplicates(),
                        forall|t: SessionId| #[trigger] v@.contains(t) ==> self.data_recipient(
                            s,
                            t,
                        ),
                        forall|q: int|
                            0 <= q < k && self.data_recipient(
                                s,
                                #[trigger] list@[q],
                            ) ==> v@.contains(list@[q]),
                    decreases m - k,
                {
                    let t = list[k];
                    proof {
                        assert(list@.contains(t)) by {
                            assert(list@[k as int] == t);
                        }
                        assert(self.is_occupant(room_of(self.sess(s)), t));
                        assert(self.live(t));
                    }
                    if t != s && !self.blocked_from(&js.user_id, t) {
                        proof {
                            assert(self.data_recipient(s, t));
                        }
                        if !contains_id(&v, t) {
                            v.push(t);
                        }
                    }
                    k += 1;
                }
                proof {
                    assert forall|t: SessionId| #[trigger] v@.contains(t)
                        <==> self.data_recipient(s, t) by {
                        if self.data_recipient(s, t) {
                            assert(self.is_occupant(room_of(self.sess(s)), t));
                            let q = choose|q: int| 0 <= q < list@.len() && list@[q] == t;
                        }
                    }
                    assert forall|t: SessionId| v@.contains(t) implies self.live(t) by {
                        assert(self.data_recipient(s, t));
                        assert(self.is_occupant(room_of(self.sess(s)), t));
                        let q = choose|q: int| 0 <= q < list@.len() && list@[q] == t;
                    }
                }
                v
            },
            None => {
                proof {
                    assert(forall|t: SessionId| !self.data_recipient(s, t));
                }
                Vec::new()
            },
        }
    }
}

/// The position of a session identity in a list, if it stands there.
fn position_of(v: &Vec<SessionId>, t: SessionId) -> (r: Option<usize>)
    ensures
        match r {
            Option::Some(k) => k < v@.len() && v@[k as int] == t,
            Option::None => !v@.contains(t),
        },
{
    let n: usize = v.len();
    let mut i: usize = 0;
    while i < n
        invariant
            n == v@.len(),
            0 <= i <= n,
            forall|q: int| 0 <= q < i ==> v@[q] != t,
        decreases n - i,
    {
        if v[i] == t {
            return Some(i);
        }
        i += 1;
    }
    proof {
        if v@.contains(t) {
            let q = choose|q: int| 0 <= q < v@.len() && v@[q] == t;
        }
    }
    None
}

/// Whether a list of session identities holds one.
fn contains_id(v: &Vec<SessionId>, t: SessionId) -> (r: bool)
    ensures
        r == v@.contains(t),
{
    let n: usize = v.len();
    let mut i: usize = 0;
    while i < n
        invariant
            n == v@.len(),
            0 <= i <= n,
            forall|q: int| 0 <= q < i ==> v@[q] != t,
        decreases n - i,
    {
        if v[i] == t {
            return true;
        }
        i += 1;
    }
    proof {
        if v@.contains(t) {
            let q = choose|q: int| 0 <= q < v@.len() && v@[q] == t;
        }
    }
    false
}

/// Setting the join state or the subscription of a live session that
/// had not joined keeps the switchboard's invariant: such a session
/// stands in no index as an occupant or publisher, and where it stands
/// as a subscriber its subscription may not be taken away.
pub proof fn lemma_wf_set_fields(a: Switchboard, b: Switchboard, from: SessionId)
    requires
        a.wf(),
        b.occupants == a.occupants,
        b.edges == a.edges,
        b.blocks == a.blocks,
        b.sessions@.len() == a.sessions@.len(),
        forall|t: SessionId| t != from && a.valid_id(t) ==> #[trigger] b.sess(t) == a.sess(t),
        a.valid_id(from),
        b.sess(from).destroyed == a.sess(from).destroyed,
        b.sess(from).subscriber_offer == a.sess(from).subscriber_offer,
        a.sess(from).join_state is Some ==> b.sess(from).join_state == a.sess(from).join_state,
        a.sess(from).subscription is Some ==> b.sess(from).subscription == a.sess(
            from,
        ).subscription,
    ensures
        b.wf(),
{
    assert forall|i: int, k: int|
        0 <= i < b.occupants@.len() && 0 <= k < b.occupants@[i].1@.len() implies {
        let s = #[trigger] b.occupants@[i].1@[k];
        &&& b.live(s)
        &&& b.sess(s).join_state is Some
        &&& room_of(b.sess(s)) == b.occupants@[i].0@
        &&& is_master(b.sess(s))
    } by {
        let s = b.occupants@[i].1@[k];
        assert(a.live(s) && a.sess(s).join_state is Some && is_master(a.sess(s)));
        if s == from {
            assert(b.sess(s).join_state == a.sess(s).join_state);
            assert(b.sess(s).subscription == a.sess(s).subscription);
        }
    }
    assert forall|k: int| 0 <= k < b.edges@.len() implies {
        let p = (#[trigger] b.edges@[k]).0;
        let s = b.edges@[k].1;
        &&& b.live(p)
        &&& b.live(s)
        &&& b.sess(p).join_state is Some
        &&& b.sess(p).subscriber_offer is Some
        &&& b.sess(s).subscription is Some
        &&& b.sess(s).subscription->0.media is Some
        &&& b.sess(s).subscription->0.media->0@ == user_of(b.sess(p))
    } by {
        let p = b.edges@[k].0;
        let s = b.edges@[k].1;
        assert(a.live(p) && a.sess(p).join_state is Some);
        if p == from {
            assert(b.sess(p).join_state == a.sess(p).join_state);
        }
        assert(a.sess(s).subscription is Some);
        if s == from {
            assert(b.sess(s).subscription == a.sess(s).subscription);
            assert(b.sess(s).destroyed == a.sess(s).destroyed);
        }
    }
}

/// Caching a fresh subscriber offer on a live session keeps the
/// invariant: every clause that reads the offer only asks that it be
/// set, and the new value is set.
pub proof fn lemma_wf_set_offer(a: Switchboard, b: Switchboard, from: SessionId)
    requires
        a.wf(),
        b.occupants == a.occupants,
        b.edges == a.edges,
        b.blocks == a.blocks,
        b.sessions@.len() == a.sessions@.len(),
        forall|t: SessionId| t != from && a.valid_id(t) ==> #[trigger] b.sess(t) == a.sess(t),
        a.valid_id(from),
        b.sess(from).destroyed == a.sess(from).destroyed,
        b.sess(from).join_state == a.sess(from).join_state,
        b.sess(from).subscription == a.sess(from).subscription,
        b.sess(from).subscriber_offer is Some,
    ensures
        b.wf(),
{
    assert forall|i: int, k: int|
        0 <= i < b.occupants@.len() && 0 <= k < b.occupants@[i].1@.len() implies {
        let s = #[trigger] b.occupants@[i].1@[k];
        &&& b.live(s)
        &&& b.sess(s).join_state is Some
        &&& room_of(b.sess(s)) == b.occupants@[i].0@
        &&& is_master(b.sess(s))
    } by {
        let s = b.occupants@[i].1@[k];
        assert(a.live(s) && a.sess(s).join_state is Some && is_master(a.sess(s)));
    }
    assert forall|k: int| 0 <= k < b.edges@.len() implies {
        let p = (#[trigger] b.edges@[k]).0;
        let s = b.edges@[k].1;
        &&& b.live(p)
        &&& b.live(s)
        &&& b.sess(p).join_state is Some
        &&& b.sess(p).subscriber_offer is Some
        &&& b.sess(s).subscription is Some
        &&& b.sess(s).subscription->0.media is Some
        &&& b.sess(s).subscription->0.media->0@ == user_of(b.sess(p))
    } by {
        let p = b.edges@[k].0;
        let s = b.edges@[k].1;
        assert(a.live(p) && a.sess(p).join_state is Some && a.sess(p).subscriber_offer is Some);
        assert(a.sess(s).subscription is Some);
    }
}

/// Whether a pair of users stands in a block list.
pub open spec fn pair_in(bl: Seq<(UserId, UserId)>, x: Seq<char>, y: Seq<char>) -> bool {
    exists|i: int| 0 <= i < bl.len() && bl[i].0@ == x && bl[i].1@ == y
}

/// How appending one pair changes the relation a block list holds.
pub proof fn lemma_pair_in_push(bl: Seq<(UserId, UserId)>, e: (UserId, UserId), x: Seq<char>, y: Seq<char>)
    ensures
        pair_in(bl.push(e), x, y) == (pair_in(bl, x, y) || (e.0@ == x && e.1@ == y)),
{
    if pair_in(bl, x, y) {
        let i = choose|i: int| 0 <= i < bl.len() && bl[i].0@ == x && bl[i].1@ == y;
        assert(bl.push(e)[i].0@ == x && bl.push(e)[i].1@ == y);
    }
    if e.0@ == x && e.1@ == y {
        assert(bl.push(e)[bl.len() as int].0@ == x && bl.push(e)[bl.len() as int].1@ == y);
    }
    if pair_in(bl.push(e), x, y) {
        let i = choose|i: int| 0 <= i < bl.push(e).len() && bl.push(e)[i].0@ == x && bl.push(e)[i].1@ == y;
        if i < bl.len() {
            assert(bl[i].0@ == x && bl[i].1@ == y);
        }
    }
}

/// Two occupant tables with the same room keys place every room at the
/// same position.
pub proof fn lemma_room_at_same_keys(a: Seq<(RoomId, Vec<SessionId>)>, b: Seq<(RoomId, Vec<SessionId>)>)
    requires
        a.len() == b.len(),
        forall|j: int| 0 <= j < a.len() ==> a[j].0@ == b[j].0@,
    ensures
        forall|r: Seq<char>| #[trigger] spec_room_at(a, r) == spec_room_at(b, r),
    decreases a.len(),
{
    if a.len() != 0 {
        assert(forall|j: int|
            0 <= j < a.len() - 1 ==> #[trigger] a.drop_first()[j].0@ == b.drop_first()[j].0@);
        lemma_room_at_same_keys(a.drop_first(), b.drop_first());
        assert forall|r: Seq<char>| #[trigger] spec_room_at(a, r) == spec_room_at(b, r) by {
            reveal_with_fuel(spec_room_at, 2);
            assert(spec_room_at(a.drop_first(), r) == spec_room_at(b.drop_first(), r));
        }
    }
}

/// How appending one room entry changes where rooms are found.
pub proof fn lemma_room_at_push(occ: Seq<(RoomId, Vec<SessionId>)>, e: (RoomId, Vec<SessionId>))
    ensures
        forall|r: Seq<char>| #[trigger] spec_room_at(occ.push(e), r) == match spec_room_at(
            occ,
            r,
        ) {
            Option::Some(i) => Option::Some(i),
            Option::None => if e.0@ == r {
                Option::Some(occ.len() as int)
            } else {
                Option::<int>::None
            },
        },
    decreases occ.len(),
{
    if occ.len() == 0 {
        assert forall|r: Seq<char>| #[trigger] spec_room_at(occ.push(e), r) == (if e.0@ == r {
            Option::Some(0int)
        } else {
            Option::<int>::None
        }) by {
            reveal_with_fuel(spec_room_at, 3);
            assert(occ.push(e)[0] == e);
            assert(occ.push(e).drop_first() =~= Seq::<(RoomId, Vec<SessionId>)>::empty());
        }
    } else {
        lemma_room_at_push(occ.drop_first(), e);
        assert forall|r: Seq<char>| #[trigger] spec_room_at(occ.push(e), r) == match spec_room_at(
            occ,
            r,
        ) {
            Option::Some(i) => Option::Some(i),
            Option::None => if e.0@ == r {
                Option::Some(occ.len() as int)
            } else {
                Option::<int>::None
            },
        } by {
            reveal_with_fuel(spec_room_at, 2);
            assert(occ.push(e)[0] == occ[0]);
            assert(occ.push(e).drop_first() =~= occ.drop_first().push(e));
            assert(spec_room_at(occ.drop_first().push(e), r) == match spec_room_at(
                occ.drop_first(),
                r,
            ) {
                Option::Some(i) => Option::Some(i),
                Option::None => if e.0@ == r {
                    Option::Some(occ.drop_first().len() as int)
                } else {
                    Option::<int>::None
                },
            });
        }
    }
}

/// The position of the first entry keyed by room `r`.
pub open spec fn spec_room_at(occ: Seq<(RoomId, Vec<SessionId>)>, r: Seq<char>) -> Option<int>
    decreases occ.len(),
{
    if occ.len() == 0 {
        Option::None
    } else if occ[0].0@ == r {
        Option::Some(0)
    } else {
        match spec_room_at(occ.drop_first(), r) {
            Option::Some(i) => Option::Some(i + 1),
            Option::None => Option::None,
        }
    }
}

/// What the position found by [`spec_room_at`] satisfies.
pub proof fn lemma_room_at_props(occ: Seq<(RoomId, Vec<SessionId>)>, r: Seq<char>)
    ensures
        match spec_room_at(occ, r) {
            Option::Some(i) => 0 <= i < occ.len() && occ[i].0@ == r && (forall|j: int|
                0 <= j < i ==> occ[j].0@ != r),
            Option::None => forall|j: int| 0 <= j < occ.len() ==> occ[j].0@ != r,
        },
    decreases occ.len(),
{
    if occ.len() == 0 {
    } else if occ[0].0@ == r {
    } else {
        lemma_room_at_props(occ.drop_first(), r);
        assert(forall|j: int|
            0 <= j < occ.len() - 1 ==> #[trigger] occ.drop_first()[j].0@ == occ[j + 1].0@);
        match spec_room_at(occ.drop_first(), r) {
            Option::Some(i) => {
                assert(occ.drop_first()[i].0@ == r);
                assert forall|j: int| 0 <= j < i + 1 implies occ[j].0@ != r by {
                    if j > 0 {
                        assert(occ.drop_first()[j - 1].0@ != r);
                    }
                }
            },
            Option::None => {
                assert forall|j: int| 0 <= j < occ.len() implies occ[j].0@ != r by {
                    if j > 0 {
                        assert(occ.drop_first()[j - 1].0@ != r);
                    }
                }
            },
        }
    }
}

} // verus!
