//! Room membership: which peers are in which room.

use vstd::prelude::*;
use crate::table::Table;
use crate::text::str_equals;

verus! {

/// The characters of each string.
pub open spec fn names(v: Seq<String>) -> Seq<Seq<char>> {
    v.map_values(|s: String| s@)
}

/// The members after `peer` joins `room`.
pub open spec fn members_after_join(
    m: Map<Seq<char>, Set<Seq<char>>>,
    room: Seq<char>,
    peer: Seq<char>,
) -> Map<Seq<char>, Set<Seq<char>>> {
    let current = if m.contains_key(room) { m[room] } else { Set::empty() };
    m.insert(room, current.insert(peer))
}

/// The members after `peer` leaves `room`: the room goes once nobody is left
/// in it; leaving a room that does not exist changes nothing.
pub open spec fn members_after_leave(
    m: Map<Seq<char>, Set<Seq<char>>>,
    room: Seq<char>,
    peer: Seq<char>,
) -> Map<Seq<char>, Set<Seq<char>>> {
    if m.contains_key(room) {
        let rest = m[room].remove(peer);
        if rest.len() == 0 {
            m.remove(room)
        } else {
            m.insert(room, rest)
        }
    } else {
        m
    }
}

/// Every room has a finite, non-empty set of peers.
pub open spec fn members_valid(m: Map<Seq<char>, Set<Seq<char>>>) -> bool {
    forall|k: Seq<char>| #[trigger] m.contains_key(k) ==> m[k].finite() && m[k].len() > 0
}

proof fn lemma_names_push(v: Seq<String>, s: String)
    ensures
        names(v.push(s)) == names(v).push(s@),
{
    assert(names(v.push(s)) =~= names(v).push(s@));
}

proof fn lemma_names_remove(v: Seq<String>, j: int)
    requires
        0 <= j < v.len(),
    ensures
        names(v.remove(j)) == names(v).remove(j),
{
    assert(names(v.remove(j)) =~= names(v).remove(j));
}

proof fn lemma_set_push(s: Seq<Seq<char>>, x: Seq<char>)
    ensures
        s.push(x).to_set() == s.to_set().insert(x),
{
    assert forall|y: Seq<char>| #[trigger] s.push(x).to_set().contains(y) == s.to_set().insert(
        x,
    ).contains(y) by {
        if s.push(x).contains(y) && y != x {
            let i = choose|i: int| 0 <= i < s.push(x).len() && s.push(x)[i] == y;
            assert(s[i] == y);
        }
        if s.contains(y) {
            let i = choose|i: int| 0 <= i < s.len() && s[i] == y;
            assert(s.push(x)[i] == y);
        }
        if y == x {
            assert(s.push(x)[s.len() as int] == x);
        }
    }
    assert(s.push(x).to_set() =~= s.to_set().insert(x));
}

proof fn lemma_set_remove(s: Seq<Seq<char>>, j: int)
    requires
        0 <= j < s.len(),
        s.no_duplicates(),
    ensures
        s.remove(j).to_set() == s.to_set().remove(s[j]),
        s.remove(j).no_duplicates(),
{
    let r = s.remove(j);
    assert forall|a: int| 0 <= a < r.len() implies #[trigger] r[a] == s[if a < j { a } else { a + 1 }] by {}
    assert forall|y: Seq<char>| #[trigger] r.to_set().contains(y) == s.to_set().remove(s[j]).contains(y) by {
        if r.contains(y) {
            let i = choose|i: int| 0 <= i < r.len() && r[i] == y;
            let oi = if i < j { i } else { i + 1 };
            assert(s[oi] == y);
            assert(oi != j);
        }
        if s.contains(y) && y != s[j] {
            let i = choose|i: int| 0 <= i < s.len() && s[i] == y;
            assert(i != j);
            let ni = if i < j { i } else { i - 1 };
            assert(r[ni] == y);
        }
    }
    assert(r.to_set() =~= s.to_set().remove(s[j]));
    assert forall|a: int, b: int| 0 <= a < r.len() && 0 <= b < r.len() && a != b implies r[a] != r[b] by {
        let oa = if a < j { a } else { a + 1 };
        let ob = if b < j { b } else { b + 1 };
        assert(s[oa] != s[ob]);
    }
}

fn index_of_name(list: &Vec<String>, name: &str) -> (r: Option<usize>)
    ensures
        match r {
            Some(j) => j < list@.len() && list@[j as int]@ == name@,
            None => !names(list@).contains(name@),
        },
{
    let mut j: usize = 0;
    while j < list.len()
        invariant
            j <= list@.len(),
            forall|i: int| 0 <= i < j ==> list@[i]@ != name@,
        decreases list@.len() - j,
    {
        if str_equals(list[j].as_str(), name) {
            return Some(j);
        }
        j = j + 1;
    }
    proof {
        if names(list@).contains(name@) {
            let i = choose|i: int| 0 <= i < names(list@).len() && names(list@)[i] == name@;
            assert(list@[i]@ == name@);
        }
    }
    None
}

/// Every room of a table holds distinct peers, at least one.
spec fn table_ok(rooms: &Table<Vec<String>>) -> bool {
    forall|k: Seq<char>| #[trigger]
        rooms.entries().contains_key(k) ==> names(rooms.entries()[k]@).no_duplicates()
            && rooms.entries()[k]@.len() > 0
}

/// The peers of each room of a table.
spec fn members_of(rooms: &Table<Vec<String>>) -> Map<Seq<char>, Set<Seq<char>>> {
    rooms.entries().map_values(|v: Vec<String>| names(v@).to_set())
}

proof fn lemma_members_of_valid(rooms: &Table<Vec<String>>)
    requires
        table_ok(rooms),
    ensures
        members_valid(members_of(rooms)),
{
    assert forall|k: Seq<char>| #[trigger] members_of(rooms).contains_key(k) implies members_of(
        rooms,
    )[k].finite() && members_of(rooms)[k].len() > 0 by {
        let v = rooms.entries()[k]@;
        names(v).unique_seq_to_set();
    }
}

fn table_join(rooms: &mut Table<Vec<String>>, room_id: &str, peer_id: &str) -> (count: usize)
    requires
        table_ok(old(rooms)),
    ensures
        table_ok(final(rooms)),
        members_of(final(rooms)) == members_after_join(members_of(old(rooms)), room_id@, peer_id@),
        count == members_of(final(rooms))[room_id@].len(),
{
    let ghost before = members_of(rooms);
    let mut list: Vec<String> = match rooms.get(room_id) {
        Some(l) => {
            let c = l.clone();
            assert(c@ =~= l@);
            c
        },
        None => Vec::new(),
    };
    let ghost current = if before.contains_key(room_id@) {
        before[room_id@]
    } else {
        Set::<Seq<char>>::empty()
    };
    proof {
        if !before.contains_key(room_id@) {
            assert(names(list@).to_set() =~= current);
        }
    }
    assert(names(list@).to_set() == current);
    assert(names(list@).no_duplicates());
    match index_of_name(&list, peer_id) {
        Some(j) => {
            proof {
                assert(names(list@)[j as int] == peer_id@);
                assert(current.insert(peer_id@) =~= current);
            }
        },
        None => {
            let ghost prev = list@;
            list.push(peer_id.to_owned());
            proof {
                lemma_names_push(prev, list@.last());
                lemma_set_push(names(prev), peer_id@);
                assert forall|a: int, b: int|
                    0 <= a < names(list@).len() && 0 <= b < names(list@).len() && a != b
                        implies names(list@)[a] != names(list@)[b] by {
                    if a == prev.len() {
                        assert(names(prev)[b] == names(list@)[b]);
                    } else if b == prev.len() {
                        assert(names(prev)[a] == names(list@)[a]);
                    }
                }
            }
        },
    }
    proof {
        names(list@).unique_seq_to_set();
    }
    let count = list.len();
    rooms.insert(room_id, list);
    proof {
        assert(members_of(rooms) =~= members_after_join(before, room_id@, peer_id@));
    }
    count
}

fn table_leave(rooms: &mut Table<Vec<String>>, room_id: &str, peer_id: &str)
    requires
        table_ok(old(rooms)),
    ensures
        table_ok(final(rooms)),
        members_of(final(rooms)) == members_after_leave(members_of(old(rooms)), room_id@, peer_id@),
{
    let ghost before = members_of(rooms);
    let found: Option<Vec<String>> = match rooms.get(room_id) {
        Some(l) => {
            let c = l.clone();
            assert(c@ =~= l@);
            Some(c)
        },
        None => None,
    };
    if let Some(mut list) = found {
        let ghost current = before[room_id@];
        assert(names(list@).to_set() == current);
        match index_of_name(&list, peer_id) {
            Some(j) => {
                let ghost prev = list@;
                list.remove(j);
                proof {
                    lemma_names_remove(prev, j as int);
                    lemma_set_remove(names(prev), j as int);
                }
            },
            None => {
                assert(current.remove(peer_id@) =~= current);
            },
        }
        proof {
            names(list@).unique_seq_to_set();
        }
        if list.len() == 0 {
            rooms.remove(room_id);
            proof {
                assert(members_of(rooms) =~= members_after_leave(before, room_id@, peer_id@));
            }
        } else {
            rooms.insert(room_id, list);
            proof {
                assert(members_of(rooms) =~= members_after_leave(before, room_id@, peer_id@));
            }
        }
    } else {
        assert(members_of(rooms) =~= members_after_leave(before, room_id@, peer_id@));
    }
}

/// Which peers are in which room.
pub struct RoomRegistry {
    rooms: Table<Vec<String>>,
    subscribed: Table<()>,
}

impl RoomRegistry {
    /// Every room holds distinct peers, at least one, and only rooms with
    /// peers are marked subscribed.
    #[verifier::type_invariant]
    spec fn well_formed(self) -> bool {
        &&& table_ok(&self.rooms)
        &&& self.subscribed.entries().dom().subset_of(self.rooms.entries().dom())
    }

    /// The rooms whose events from other replicas are being received.
    pub closed spec fn subscriptions(&self) -> Set<Seq<char>> {
        self.subscribed.entries().dom()
    }

    /// The peers of each room.
    pub closed spec fn members(&self) -> Map<Seq<char>, Set<Seq<char>>> {
        members_of(&self.rooms)
    }

    /// A registry without rooms.
    pub fn new() -> (r: Self)
        ensures
            r.members() == Map::<Seq<char>, Set<Seq<char>>>::empty(),
            r.subscriptions() == Set::<Seq<char>>::empty(),
    {
        let r = RoomRegistry { rooms: Table::new(), subscribed: Table::new() };
        assert(r.members() =~= Map::<Seq<char>, Set<Seq<char>>>::empty());
        assert(r.subscriptions() =~= Set::<Seq<char>>::empty());
        r
    }

    /// Whether the room has any peers.
    pub fn has_room(&self, room_id: &str) -> (b: bool)
        ensures
            b == self.members().contains_key(room_id@),
    {
        proof {
            use_type_invariant(self);
        }
        self.rooms.get(room_id).is_some()
    }

    /// Adds `peer_id` to `room_id`, creating the room if needed, and returns the
    /// number of peers now in the room; every room keeps at least one peer.
    pub fn join(&mut self, room_id: &str, peer_id: &str) -> (count: usize)
        ensures
            final(self).members() == members_after_join(old(self).members(), room_id@, peer_id@),
            count == final(self).members()[room_id@].len(),
            members_valid(final(self).members()),
            final(self).subscriptions() == old(self).subscriptions(),
    {
        proof {
            use_type_invariant(&*self);
        }
        let mut rooms: Table<Vec<String>> = Table::new();
        let mut subscribed: Table<()> = Table::new();
        std::mem::swap(&mut subscribed, &mut self.subscribed);
        std::mem::swap(&mut rooms, &mut self.rooms);
        let ghost subs = subscribed.entries().dom();
        let ghost before_rooms = rooms.entries().dom();
        let count = table_join(&mut rooms, room_id, peer_id);
        proof {
            lemma_members_of_valid(&rooms);
            assert(members_of(&rooms).dom() =~= rooms.entries().dom());
            assert(members_of(&rooms).dom() =~= before_rooms.insert(room_id@));
            assert(subs.subset_of(rooms.entries().dom()));
        }
        self.rooms = rooms;
        self.subscribed = subscribed;
        count
    }

    /// Removes `peer_id` from `room_id`; the room goes when its last peer
    /// leaves, and every other room keeps at least one peer.
    pub fn leave(&mut self, room_id: &str, peer_id: &str)
        ensures
            final(self).members() == members_after_leave(old(self).members(), room_id@, peer_id@),
            members_valid(final(self).members()),
            final(self).subscriptions() == (if final(self).members().contains_key(room_id@) {
                old(self).subscriptions()
            } else {
                old(self).subscriptions().remove(room_id@)
            }),
    {
        proof {
            use_type_invariant(&*self);
        }
        let mut rooms: Table<Vec<String>> = Table::new();
        let mut subscribed: Table<()> = Table::new();
        std::mem::swap(&mut subscribed, &mut self.subscribed);
        std::mem::swap(&mut rooms, &mut self.rooms);
        let ghost before_rooms = rooms.entries().dom();
        let ghost before_subs = subscribed.entries().dom();
        table_leave(&mut rooms, room_id, peer_id);
        if rooms.get(room_id).is_none() {
            subscribed.remove(room_id);
        }
        proof {
            lemma_members_of_valid(&rooms);
            assert(members_of(&rooms).dom() =~= rooms.entries().dom());
            assert(subscribed.entries().dom() =~= (if rooms.entries().contains_key(room_id@) {
                before_subs
            } else {
                before_subs.remove(room_id@)
            }));
            assert forall|k: Seq<char>| subscribed.entries().dom().contains(k) implies rooms.entries().dom().contains(k) by {
                assert(before_subs.contains(k));
                assert(before_rooms.contains(k));
                if k != room_id@ {
                    assert(members_of(&rooms).contains_key(k));
                }
            }
        }
        self.rooms = rooms;
        self.subscribed = subscribed;
    }

    /// Marks the room as receiving events from other replicas. `true` when it
    /// is to start now: the room has peers and was not marked yet; a mark lasts
    /// until the room's last peer leaves.
    pub fn mark_subscribed(&mut self, room_id: &str) -> (start: bool)
        ensures
            start == (old(self).members().contains_key(room_id@) && !old(
                self,
            ).subscriptions().contains(room_id@)),
            final(self).subscriptions() == (if old(self).members().contains_key(room_id@) {
                old(self).subscriptions().insert(room_id@)
            } else {
                old(self).subscriptions()
            }),
            final(self).members() == old(self).members(),
    {
        proof {
            use_type_invariant(&*self);
        }
        if self.rooms.get(room_id).is_none() {
            return false;
        }
        let mut subscribed: Table<()> = Table::new();
        std::mem::swap(&mut subscribed, &mut self.subscribed);
        let start = subscribed.get(room_id).is_none();
        subscribed.insert(room_id, ());
        proof {
            assert(subscribed.entries().dom() =~= old(self).subscriptions().insert(room_id@));
        }
        self.subscribed = subscribed;
        start
    }
}

/// Law: a peer that joins a room it was not in and then leaves it again leaves
/// the membership as it was.
pub proof fn join_then_leave_restores(
    m: Map<Seq<char>, Set<Seq<char>>>,
    room: Seq<char>,
    peer: Seq<char>,
)
    requires
        members_valid(m),
        !(m.contains_key(room) && m[room].contains(peer)),
    ensures
        members_after_leave(members_after_join(m, room, peer), room, peer) == m,
{
    let current = if m.contains_key(room) { m[room] } else { Set::<Seq<char>>::empty() };
    let joined = members_after_join(m, room, peer);
    assert(joined[room].remove(peer) =~= current);
    if m.contains_key(room) {
        assert(current.len() > 0);
        assert(members_after_leave(joined, room, peer) =~= m);
    } else {
        assert(current.len() == 0);
        assert(members_after_leave(joined, room, peer) =~= m);
    }
}

/// Law: joining and leaving keep every room non-empty.
pub proof fn membership_stays_valid(m: Map<Seq<char>, Set<Seq<char>>>, room: Seq<char>, peer: Seq<char>)
    requires
        members_valid(m),
    ensures
        members_valid(members_after_join(m, room, peer)),
        members_valid(members_after_leave(m, room, peer)),
{
    let j = members_after_join(m, room, peer);
    assert forall|k: Seq<char>| #[trigger] j.contains_key(k) implies j[k].finite() && j[k].len() > 0 by {
        if k == room {
            let current = if m.contains_key(room) { m[room] } else { Set::<Seq<char>>::empty() };
            assert(current.insert(peer).contains(peer));
        }
    }
}

} // verus!
