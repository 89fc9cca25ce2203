//! The room registry: each named room owns its member-name set and a
//! broadcast channel for fan-out.  Rooms are created on first join and
//! destroyed when their member set empties; the member-set emptiness check
//! is the destruction rule, so a room with members is never deleted and an
//! emptied room never lingers.
//!
//! The channel half is a handle from tokio's broadcast module, opaque here
//! and reached through trusted wrappers; the membership bookkeeping is
//! verified against a map view from room name to member-name set.

use crate::text::{lex_le, lemma_lex_le_total, lemma_lex_le_trans, str_eq, str_lex_le};
use tokio::sync::broadcast::{Receiver, Sender};
use vstd::prelude::*;
use vstd::seq_lib::group_to_multiset_ensures;

verus! {

#[verifier::external_type_specification]
#[verifier::external_body]
#[verifier::reject_recursive_types(T)]
pub struct ExSender<T>(Sender<T>);

#[verifier::external_type_specification]
#[verifier::external_body]
#[verifier::reject_recursive_types(T)]
pub struct ExReceiver<T>(Receiver<T>);

/// One event on a room's channel.  A `Msg` payload arrives already
/// formatted as `sender: text`.
#[derive(Clone)]
pub enum RoomMsg {
    Joined(String),
    Left(String),
    Msg(String),
}

/// Buffered events per room channel; a subscriber that falls further
/// behind is told how much it skipped rather than blocking the senders.
pub const ROOM_CHANNEL_CAPACITY: usize = 1024;

/// Relies on tokio::sync::broadcast::channel: a fresh channel with the
/// given buffer capacity.  The call panics only when the capacity is zero
/// or above half the address space, which the bound here rules out.
#[verifier::external_body]
fn new_channel(capacity: usize) -> (tx: Sender<RoomMsg>)
    requires
        1 <= capacity <= usize::MAX / 2,
{
    tokio::sync::broadcast::channel(capacity).0
}

/// The channel a sending handle belongs to.  Every handle holds a
/// reference to one channel for its whole life, so this is a fixed
/// attribute of the handle; cloning and subscribing stay on that channel.
pub uninterp spec fn sender_channel(tx: Sender<RoomMsg>) -> int;

/// The channel a receiving handle draws its events from.
pub uninterp spec fn receiver_channel(rx: Receiver<RoomMsg>) -> int;

/// Relies on tokio::sync::broadcast::Sender::clone: another handle to the
/// same channel.
#[verifier::external_body]
fn clone_sender(tx: &Sender<RoomMsg>) -> (r: Sender<RoomMsg>)
    ensures
        sender_channel(r) == sender_channel(*tx),
{
    tx.clone()
}

/// Relies on tokio::sync::broadcast::Sender::subscribe: a receiver on the
/// sender's own channel that observes the events sent after this call, in
/// send order.
#[verifier::external_body]
pub fn subscribe(tx: &Sender<RoomMsg>) -> (r: Receiver<RoomMsg>)
    ensures
        receiver_channel(r) == sender_channel(*tx),
{
    tx.subscribe()
}

/// Relies on tokio::sync::broadcast::Sender::send: hands the event to every
/// current subscriber's buffer; with no subscriber the event is dropped,
/// which the room protocol treats as a no-op.
#[verifier::external_body]
pub fn publish(tx: &Sender<RoomMsg>, msg: RoomMsg) {
    let _ = tx.send(msg);
}

/// One live room: its name, its members' display names, and the sending
/// half of its broadcast channel.
pub struct Room {
    pub name: String,
    pub users: Vec<String>,
    pub tx: Sender<RoomMsg>,
}

/// The members as character sequences, in joining order.
pub open spec fn user_views(users: Seq<String>) -> Seq<Seq<char>> {
    users.map_values(|u: String| u@)
}

impl Room {
    /// The member-name set.
    pub open spec fn member_set(self) -> Set<Seq<char>> {
        user_views(self.users@).to_set()
    }

    /// No member listed twice, and at least one member: an empty room is
    /// destroyed at once, so none is ever stored.
    pub open spec fn wf(self) -> bool {
        &&& user_views(self.users@).no_duplicates()
        &&& self.users@.len() >= 1
    }
}

/// The registry of live rooms.
pub struct Rooms {
    rooms: Vec<Room>,
}

/// The map after one join: the room appears if it was absent, and its
/// member set gains the joiner.
pub open spec fn join_model(
    m: Map<Seq<char>, Set<Seq<char>>>,
    room: Seq<char>,
    user: Seq<char>,
) -> Map<Seq<char>, Set<Seq<char>>> {
    let prev = if m.dom().contains(room) {
        m[room]
    } else {
        Set::empty()
    };
    m.insert(room, prev.insert(user))
}

/// The map after one leave: the member is dropped, and a room left with
/// nobody disappears.
pub open spec fn leave_model(
    m: Map<Seq<char>, Set<Seq<char>>>,
    room: Seq<char>,
    user: Seq<char>,
) -> Map<Seq<char>, Set<Seq<char>>> {
    if !m.dom().contains(room) {
        m
    } else {
        let rest = m[room].remove(user);
        if rest =~= Set::<Seq<char>>::empty() {
            m.remove(room)
        } else {
            m.insert(room, rest)
        }
    }
}

/// The map after a member renames itself within one room.
pub open spec fn rename_model(
    m: Map<Seq<char>, Set<Seq<char>>>,
    room: Seq<char>,
    prev: Seq<char>,
    next: Seq<char>,
) -> Map<Seq<char>, Set<Seq<char>>> {
    if !m.dom().contains(room) {
        m
    } else {
        m.insert(room, m[room].remove(prev).insert(next))
    }
}

impl Rooms {
    pub closed spec fn rooms_seq(self) -> Seq<Room> {
        self.rooms@
    }

    /// Every stored room well formed, and no room name twice.
    pub open spec fn wf(self) -> bool {
        &&& forall|i: int| 0 <= i < self.rooms_seq().len() ==> (#[trigger] self.rooms_seq()[i]).wf()
        &&& forall|i: int, j: int|
            0 <= i < j < self.rooms_seq().len() ==> self.rooms_seq()[i].name@
                != self.rooms_seq()[j].name@
    }

    pub open spec fn has_room(self, n: Seq<char>) -> bool {
        exists|i: int|
            0 <= i < self.rooms_seq().len() && (#[trigger] self.rooms_seq()[i]).name@ == n
    }

    pub open spec fn room_index(self, n: Seq<char>) -> int {
        choose|i: int|
            0 <= i < self.rooms_seq().len() && (#[trigger] self.rooms_seq()[i]).name@ == n
    }

    pub open spec fn members(self, n: Seq<char>) -> Set<Seq<char>> {
        self.rooms_seq()[self.room_index(n)].member_set()
    }

    /// The identity of the channel belonging to the room named `n`.
    pub open spec fn channel_of(self, n: Seq<char>) -> int {
        sender_channel(self.rooms_seq()[self.room_index(n)].tx)
    }

    /// The unique index of the room named `n`.
    pub proof fn lemma_room_index(self, n: Seq<char>)
        requires
            self.wf(),
            self.has_room(n),
        ensures
            0 <= self.room_index(n) < self.rooms_seq().len(),
            self.rooms_seq()[self.room_index(n)].name@ == n,
            forall|k: int|
                0 <= k < self.rooms_seq().len() && (#[trigger] self.rooms_seq()[k]).name@ == n
                    ==> k == self.room_index(n),
    {
        let i = self.room_index(n);
        assert(0 <= i < self.rooms_seq().len() && self.rooms_seq()[i].name@ == n);
        assert forall|k: int|
            0 <= k < self.rooms_seq().len() && (#[trigger] self.rooms_seq()[k]).name@
                == n implies k == i by {
            if k != i {
                if k < i {
                    assert(self.rooms_seq()[k].name@ != self.rooms_seq()[i].name@);
                } else {
                    assert(self.rooms_seq()[i].name@ != self.rooms_seq()[k].name@);
                }
            }
        }
    }
}

impl View for Rooms {
    type V = Map<Seq<char>, Set<Seq<char>>>;

    open spec fn view(&self) -> Map<Seq<char>, Set<Seq<char>>> {
        Map::new(|n: Seq<char>| self.has_room(n), |n: Seq<char>| self.members(n))
    }
}

fn find_room(rooms: &Vec<Room>, name: &str) -> (r: Option<usize>)
    ensures
        match r {
            Some(i) => 0 <= i < rooms@.len() && rooms@[i as int].name@ == name@,
            None => forall|k: int| 0 <= k < rooms@.len() ==> (#[trigger] rooms@[k]).name@ != name@,
        },
{
    let mut i: usize = 0;
    while i < rooms.len()
        invariant
            0 <= i <= rooms@.len(),
            forall|k: int| 0 <= k < i ==> (#[trigger] rooms@[k]).name@ != name@,
        decreases rooms@.len() - i,
    {
        if str_eq(rooms[i].name.as_str(), name) {
            return Some(i);
        }
        i = i + 1;
    }
    None
}

fn find_user(users: &Vec<String>, name: &str) -> (r: Option<usize>)
    ensures
        match r {
            Some(j) => 0 <= j < users@.len() && users@[j as int]@ == name@,
            None => forall|k: int| 0 <= k < users@.len() ==> (#[trigger] users@[k])@ != name@,
        },
{
    let mut i: usize = 0;
    while i < users.len()
        invariant
            0 <= i <= users@.len(),
            forall|k: int| 0 <= k < i ==> (#[trigger] users@[k])@ != name@,
        decreases users@.len() - i,
    {
        if str_eq(users[i].as_str(), name) {
            return Some(i);
        }
        i = i + 1;
    }
    None
}

impl Rooms {
    pub fn new() -> (r: Rooms)
        ensures
            r.wf(),
            r@ == Map::<Seq<char>, Set<Seq<char>>>::empty(),
    {
        let r = Rooms { rooms: Vec::new() };
        proof {
            assert(r@ =~= Map::<Seq<char>, Set<Seq<char>>>::empty());
        }
        r
    }

    /// Adds `user_name` to the room, creating the room (with a fresh
    /// channel) if the name is new, and returns a handle bound to the
    /// room's own channel; no existing room's channel changes.
    pub fn join(&mut self, room_name: &str, user_name: &str) -> (tx: Sender<RoomMsg>)
        requires
            old(self).wf(),
        ensures
            final(self).wf(),
            final(self)@ == join_model(old(self)@, room_name@, user_name@),
            sender_channel(tx) == final(self).channel_of(room_name@),
            forall|n: Seq<char>|
                #[trigger] old(self)@.dom().contains(n) ==> final(self).channel_of(n) == old(self).channel_of(n),
    {
        let ghost m0 = self@;
        match find_room(&self.rooms, room_name) {
            Some(i) => {
                proof {
                    self.lemma_room_index(room_name@);
                }
                match find_user(&self.rooms[i].users, user_name) {
                    Some(j) => {
                        proof {
                            let iu = self.room_index(room_name@);
                            assert(i as int == iu);
                            let uv = user_views(self.rooms_seq()[iu].users@);
                            assert(uv[j as int] == user_name@);
                            assert(uv.to_set().contains(uv[j as int]));
                            assert(self.members(room_name@).contains(user_name@));
                            assert(m0[room_name@].insert(user_name@) =~= m0[room_name@]);
                            assert(join_model(m0, room_name@, user_name@) =~= m0);
                        }
                        let tx = clone_sender(&self.rooms[i].tx);
                        proof {
                            assert(self.channel_of(room_name@) == sender_channel(
                                self.rooms_seq()[i as int].tx,
                            ));
                        }
                        tx
                    },
                    None => {
                        let ghost rold = self.rooms_seq()[i as int];
                        let owned = user_name.to_owned();
                        let room = &mut self.rooms[i];
                        room.users.push(owned);
                        let tx = clone_sender(&self.rooms[i].tx);
                        proof {
                            let unew = self.rooms_seq()[i as int].users@;
                            assert(unew.last()@ == user_name@);
                            lemma_user_views_push(rold.users@, unew, user_name@);
                            lemma_join_existing(*old(self), *self, i as int, room_name@, user_name@);
                            assert(sender_channel(tx) == sender_channel(
                                self.rooms_seq()[i as int].tx,
                            ));
                        }
                        tx
                    },
                }
            },
            None => {
                let mut users: Vec<String> = Vec::new();
                users.push(user_name.to_owned());
                let tx0 = new_channel(ROOM_CHANNEL_CAPACITY);
                let tx = clone_sender(&tx0);
                let room = Room { name: room_name.to_owned(), users, tx: tx0 };
                self.rooms.push(room);
                proof {
                    let unew = self.rooms_seq().last().users@;
                    assert(unew.len() == 1);
                    assert(unew.last()@ == user_name@);
                    lemma_user_views_push(Seq::<String>::empty(), unew, user_name@);
                    assert(user_views(Seq::<String>::empty()) =~= Seq::<Seq<char>>::empty());
                    lemma_join_fresh_state(*old(self), *self, room_name@, user_name@);
                    assert(sender_channel(tx) == sender_channel(self.rooms_seq().last().tx));
                }
                tx
            },
        }
    }
}

// ---------------------------------------------------------------------------
// Proof helpers
// ---------------------------------------------------------------------------
/// A member list extended by one name has the extended view.
proof fn lemma_user_views_push(u: Seq<String>, v: Seq<String>, xv: Seq<char>)
    requires
        v.len() == u.len() + 1,
        forall|k: int| 0 <= k < u.len() ==> v[k] == u[k],
        v.last()@ == xv,
    ensures
        user_views(v) =~= user_views(u).push(xv),
{
    assert forall|k: int| 0 <= k < v.len() implies user_views(v)[k] == user_views(u).push(xv)[k] by {
        if k < u.len() {
            assert(v[k] == u[k]);
        }
    }
}

/// Removing from a member list removes from its view.
proof fn lemma_user_views_remove(u: Seq<String>, j: int)
    requires
        0 <= j < u.len(),
    ensures
        user_views(u.remove(j)) =~= user_views(u).remove(j),
{
    assert forall|k: int|
        0 <= k < u.remove(j).len() implies user_views(u.remove(j))[k] == user_views(u).remove(
        j,
    )[k] by {
        if k < j {
            assert(u.remove(j)[k] == u[k]);
        } else {
            assert(u.remove(j)[k] == u[k + 1]);
        }
    }
}

/// A pushed element joins the set of a sequence.
proof fn lemma_push_to_set(s: Seq<Seq<char>>, x: Seq<char>)
    ensures
        s.push(x).to_set() =~= s.to_set().insert(x),
{
    assert forall|y: Seq<char>| #[trigger] s.push(x).contains(y) implies s.contains(y) || y
        == x by {
        let k = choose|k: int| 0 <= k < s.push(x).len() && s.push(x)[k] == y;
        if k < s.len() {
            assert(s[k] == y);
        }
    }
    assert forall|y: Seq<char>| s.contains(y) || y == x implies #[trigger] s.push(x).contains(
        y,
    ) by {
        if s.contains(y) {
            let k = choose|k: int| 0 <= k < s.len() && s[k] == y;
            assert(s.push(x)[k] == y);
        } else {
            assert(s.push(x)[s.len() as int] == y);
        }
    }
}

/// Removing one occurrence from a duplicate-free sequence removes the
/// element from its set.
proof fn lemma_remove_to_set(s: Seq<Seq<char>>, j: int)
    requires
        s.no_duplicates(),
        0 <= j < s.len(),
    ensures
        s.remove(j).to_set() =~= s.to_set().remove(s[j]),
{
    let t = s.remove(j);
    assert forall|y: Seq<char>| #[trigger] t.contains(y) implies s.contains(y) && y != s[j] by {
        let k = choose|k: int| 0 <= k < t.len() && t[k] == y;
        if k < j {
            assert(s[k] == y);
            assert(k != j);
        } else {
            assert(s[k + 1] == y);
            assert(k + 1 != j);
        }
    }
    assert forall|y: Seq<char>| s.contains(y) && y != s[j] implies #[trigger] t.contains(y) by {
        let k = choose|k: int| 0 <= k < s.len() && s[k] == y;
        if k < j {
            assert(t[k] == y);
        } else {
            assert(k > j);
            assert(t[k - 1] == y);
        }
    }
}

impl Rooms {
    /// The room at index `k` is the one the view maps its name to.
    proof fn lemma_members_at(self, k: int)
        requires
            self.wf(),
            0 <= k < self.rooms_seq().len(),
        ensures
            self.has_room(self.rooms_seq()[k].name@),
            self.room_index(self.rooms_seq()[k].name@) == k,
            self@.dom().contains(self.rooms_seq()[k].name@),
            self@[self.rooms_seq()[k].name@] == self.rooms_seq()[k].member_set(),
    {
        let n = self.rooms_seq()[k].name@;
        assert(self.has_room(n));
        self.lemma_room_index(n);
    }
}

/// After pushing a fresh member onto the room at index `i`, the registry's
/// view is the join model applied to the old view.
proof fn lemma_join_existing(a: Rooms, b: Rooms, i: int, rn: Seq<char>, un: Seq<char>)
    requires
        a.wf(),
        0 <= i < a.rooms_seq().len(),
        a.rooms_seq()[i].name@ == rn,
        forall|k: int|
            0 <= k < a.rooms_seq()[i].users@.len() ==> (#[trigger] a.rooms_seq()[i].users@[k])@
                != un,
        b.rooms_seq().len() == a.rooms_seq().len(),
        forall|k: int|
            0 <= k < a.rooms_seq().len() && k != i ==> b.rooms_seq()[k] == a.rooms_seq()[k],
        b.rooms_seq()[i].name == a.rooms_seq()[i].name,
        b.rooms_seq()[i].tx == a.rooms_seq()[i].tx,
        user_views(b.rooms_seq()[i].users@) =~= user_views(a.rooms_seq()[i].users@).push(un),
    ensures
        b.wf(),
        b@ == join_model(a@, rn, un),
        b.channel_of(rn) == sender_channel(b.rooms_seq()[i].tx),
        forall|n: Seq<char>| #[trigger] a.has_room(n) ==> b.channel_of(n) == a.channel_of(n),
{
    let sa = a.rooms_seq();
    let sb = b.rooms_seq();
    let va = user_views(sa[i].users@);
    let vb = user_views(sb[i].users@);
    assert forall|k: int|
        0 <= k < va.len() implies #[trigger] va[k] != un by {
        assert(va[k] == sa[i].users@[k]@);
    }
    assert(!va.contains(un));
    assert forall|k: int| 0 <= k < sb.len() implies (#[trigger] sb[k]).name@ == sa[k].name@ by {}
    assert forall|k: int| 0 <= k < sb.len() implies (#[trigger] sb[k]).wf() by {
        if k == i {
            assert forall|x: int, y: int| 0 <= x < y < vb.len() implies vb[x] != vb[y] by {
                if y == va.len() as int {
                    assert(vb[x] == va[x]);
                    assert(vb[y] == un);
                } else {
                    assert(vb[x] == va[x]);
                    assert(vb[y] == va[y]);
                }
            }
        } else {
            assert(sb[k] == sa[k]);
        }
    }
    assert(b.wf());
    lemma_push_to_set(va, un);
    assert(sb[i].member_set() =~= sa[i].member_set().insert(un));
    a.lemma_members_at(i);
    b.lemma_members_at(i);
    let target = join_model(a@, rn, un);
    assert forall|n: Seq<char>| #[trigger] b.has_room(n) implies a.has_room(n) by {
        let k = choose|k: int| 0 <= k < sb.len() && sb[k].name@ == n;
        assert(sa[k].name@ == n);
    }
    assert forall|n: Seq<char>| #[trigger] a.has_room(n) implies b.has_room(n) by {
        let k = choose|k: int| 0 <= k < sa.len() && sa[k].name@ == n;
        assert(sb[k].name@ == n);
    }
    assert forall|n: Seq<char>| b.has_room(n) && n != rn implies b@[n] == a@[n] by {
        let k = choose|k: int| 0 <= k < sa.len() && sa[k].name@ == n;
        a.lemma_members_at(k);
        b.lemma_members_at(k);
        assert(k != i);
        assert(sb[k] == sa[k]);
    }
    assert(b@ =~= target) by {
        assert(b@.dom() =~= target.dom());
        assert(b@[rn] == sb[i].member_set());
        assert(target[rn] == a@[rn].insert(un));
        assert(a@[rn] == sa[i].member_set());
    }
    assert(b.room_index(rn) == i);
    assert forall|n: Seq<char>| #[trigger] a.has_room(n) implies b.channel_of(n) == a.channel_of(
        n,
    ) by {
        a.lemma_room_index(n);
        let k = a.room_index(n);
        assert(sb[k].name@ == n);
        assert(b.has_room(n));
        b.lemma_room_index(n);
        assert(b.room_index(n) == k);
        if k != i {
            assert(sb[k] == sa[k]);
        }
    }
}

/// After pushing a new one-member room, the registry's view is the join
/// model applied to the old view.
proof fn lemma_join_fresh_state(a: Rooms, b: Rooms, rn: Seq<char>, un: Seq<char>)
    requires
        a.wf(),
        forall|k: int| 0 <= k < a.rooms_seq().len() ==> (#[trigger] a.rooms_seq()[k]).name@ != rn,
        b.rooms_seq().len() == a.rooms_seq().len() + 1,
        forall|k: int|
            0 <= k < a.rooms_seq().len() ==> b.rooms_seq()[k] == a.rooms_seq()[k],
        b.rooms_seq().last().name@ == rn,
        user_views(b.rooms_seq().last().users@) =~= Seq::<Seq<char>>::empty().push(un),
    ensures
        b.wf(),
        b@ == join_model(a@, rn, un),
        b.channel_of(rn) == sender_channel(b.rooms_seq().last().tx),
        forall|n: Seq<char>| #[trigger] a.has_room(n) ==> b.channel_of(n) == a.channel_of(n),
{
    let sa = a.rooms_seq();
    let sb = b.rooms_seq();
    let last_idx = sa.len() as int;
    assert(!a.has_room(rn));
    assert forall|k: int| 0 <= k < sb.len() implies (#[trigger] sb[k]).wf() by {
        if k < sa.len() {
            assert(sb[k] == sa[k]);
        } else {
            let vb = user_views(sb[k].users@);
            assert(vb =~= Seq::<Seq<char>>::empty().push(un));
            assert(vb.len() == 1);
            assert forall|x: int, y: int| 0 <= x < y < vb.len() implies vb[x] != vb[y] by {}
            assert(sb[k].users@.len() == vb.len());
        }
    }
    assert forall|x: int, y: int|
        0 <= x < y < sb.len() implies sb[x].name@ != sb[y].name@ by {
        if y < sa.len() {
            assert(sb[x] == sa[x]);
            assert(sb[y] == sa[y]);
        } else {
            assert(sb[x] == sa[x]);
            assert(sa[x].name@ != rn);
        }
    }
    assert(b.wf());
    b.lemma_members_at(last_idx);
    lemma_push_to_set(Seq::<Seq<char>>::empty(), un);
    assert(sb[last_idx].member_set() =~= Set::<Seq<char>>::empty().insert(un));
    let target = join_model(a@, rn, un);
    assert forall|n: Seq<char>| #[trigger] b.has_room(n) && n != rn implies a.has_room(n) by {
        let k = choose|k: int| 0 <= k < sb.len() && sb[k].name@ == n;
        assert(k < sa.len());
        assert(sa[k].name@ == n);
    }
    assert forall|n: Seq<char>| #[trigger] a.has_room(n) implies b.has_room(n) by {
        let k = choose|k: int| 0 <= k < sa.len() && sa[k].name@ == n;
        assert(sb[k].name@ == n);
    }
    assert forall|n: Seq<char>| b.has_room(n) && n != rn implies b@[n] == a@[n] by {
        let k = choose|k: int| 0 <= k < sa.len() && sa[k].name@ == n;
        a.lemma_members_at(k);
        b.lemma_members_at(k);
        assert(sb[k] == sa[k]);
    }
    assert(b@ =~= target) by {
        assert(b@.dom() =~= target.dom());
        assert(b@[rn] == sb[last_idx].member_set());
    }
    assert(b.room_index(rn) == last_idx);
    assert forall|n: Seq<char>| #[trigger] a.has_room(n) implies b.channel_of(n) == a.channel_of(
        n,
    ) by {
        a.lemma_room_index(n);
        let k = a.room_index(n);
        assert(sb[k] == sa[k]);
        assert(b.has_room(n));
        b.lemma_room_index(n);
        assert(b.room_index(n) == k);
    }
}

/// Removing one index keeps a sequence duplicate-free.
proof fn lemma_no_dup_remove(s: Seq<Seq<char>>, j: int)
    requires
        s.no_duplicates(),
        0 <= j < s.len(),
    ensures
        s.remove(j).no_duplicates(),
{
    let t = s.remove(j);
    assert forall|x: int, y: int| 0 <= x < y < t.len() implies t[x] != t[y] by {
        if y < j {
            assert(t[x] == s[x] && t[y] == s[y]);
        } else if x < j {
            assert(t[x] == s[x] && t[y] == s[y + 1]);
        } else {
            assert(t[x] == s[x + 1] && t[y] == s[y + 1]);
        }
    }
}

/// After dropping a member who was not the last one, the registry's view is
/// the leave model applied to the old view.
proof fn lemma_leave_nonempty(a: Rooms, b: Rooms, i: int, j: int, rn: Seq<char>, un: Seq<char>)
    requires
        a.wf(),
        0 <= i < a.rooms_seq().len(),
        a.rooms_seq()[i].name@ == rn,
        0 <= j < a.rooms_seq()[i].users@.len(),
        a.rooms_seq()[i].users@[j]@ == un,
        b.rooms_seq().len() == a.rooms_seq().len(),
        forall|k: int|
            0 <= k < a.rooms_seq().len() && k != i ==> b.rooms_seq()[k] == a.rooms_seq()[k],
        b.rooms_seq()[i].name == a.rooms_seq()[i].name,
        b.rooms_seq()[i].tx == a.rooms_seq()[i].tx,
        user_views(b.rooms_seq()[i].users@) =~= user_views(a.rooms_seq()[i].users@).remove(j),
        b.rooms_seq()[i].users@.len() >= 1,
    ensures
        b.wf(),
        b@ == leave_model(a@, rn, un),
        forall|n: Seq<char>| #[trigger] b.has_room(n) ==> b.channel_of(n) == a.channel_of(n),
{
    let sa = a.rooms_seq();
    let sb = b.rooms_seq();
    let va = user_views(sa[i].users@);
    let vb = user_views(sb[i].users@);
    assert(va[j] == un);
    lemma_no_dup_remove(va, j);
    lemma_remove_to_set(va, j);
    assert(vb.to_set() =~= va.to_set().remove(un));
    assert forall|k: int| 0 <= k < sb.len() implies (#[trigger] sb[k]).name@ == sa[k].name@ by {}
    assert forall|k: int| 0 <= k < sb.len() implies (#[trigger] sb[k]).wf() by {
        if k != i {
            assert(sb[k] == sa[k]);
        }
    }
    assert(b.wf());
    a.lemma_members_at(i);
    b.lemma_members_at(i);
    let rest = a@[rn].remove(un);
    assert(vb.to_set().contains(vb[0]));
    assert(!(rest =~= Set::<Seq<char>>::empty()));
    let target = leave_model(a@, rn, un);
    assert(target == a@.insert(rn, rest));
    assert forall|n: Seq<char>| #[trigger] b.has_room(n) implies a.has_room(n) by {
        let k = choose|k: int| 0 <= k < sb.len() && sb[k].name@ == n;
        assert(sa[k].name@ == n);
    }
    assert forall|n: Seq<char>| #[trigger] a.has_room(n) implies b.has_room(n) by {
        let k = choose|k: int| 0 <= k < sa.len() && sa[k].name@ == n;
        assert(sb[k].name@ == n);
    }
    assert forall|n: Seq<char>| b.has_room(n) && n != rn implies b@[n] == a@[n] by {
        let k = choose|k: int| 0 <= k < sa.len() && sa[k].name@ == n;
        a.lemma_members_at(k);
        b.lemma_members_at(k);
        assert(k != i);
        assert(sb[k] == sa[k]);
    }
    assert(b@ =~= target) by {
        assert(b@.dom() =~= target.dom());
        assert(b@[rn] == sb[i].member_set());
    }
    assert forall|n: Seq<char>| #[trigger] b.has_room(n) implies b.channel_of(n) == a.channel_of(
        n,
    ) by {
        a.lemma_room_index(n);
        let k = a.room_index(n);
        assert(sb[k].name@ == n);
        b.lemma_room_index(n);
        assert(b.room_index(n) == k);
        if k != i {
            assert(sb[k] == sa[k]);
        }
    }
}

/// After the only member leaves and the room is deleted, the registry's
/// view is the leave model applied to the old view.
proof fn lemma_leave_empty(a: Rooms, b: Rooms, i: int, rn: Seq<char>, un: Seq<char>)
    requires
        a.wf(),
        0 <= i < a.rooms_seq().len(),
        a.rooms_seq()[i].name@ == rn,
        a.rooms_seq()[i].users@.len() == 1,
        a.rooms_seq()[i].users@[0]@ == un,
        b.rooms_seq() == a.rooms_seq().remove(i),
    ensures
        b.wf(),
        b@ == leave_model(a@, rn, un),
        forall|n: Seq<char>| #[trigger] b.has_room(n) ==> b.channel_of(n) == a.channel_of(n),
{
    let sa = a.rooms_seq();
    let sb = b.rooms_seq();
    let va = user_views(sa[i].users@);
    assert(va.len() == 1);
    assert(va[0] == un);
    a.lemma_members_at(i);
    assert(a@[rn] == va.to_set());
    assert forall|y: Seq<char>| #[trigger] va.to_set().contains(y) implies y == un by {
        let k = choose|k: int| 0 <= k < va.len() && va[k] == y;
    }
    assert(va.to_set().remove(un) =~= Set::<Seq<char>>::empty());
    let target = leave_model(a@, rn, un);
    assert(target == a@.remove(rn));
    assert forall|k: int| 0 <= k < sb.len() implies (#[trigger] sb[k]).wf()
        && exists|k2: int|
        0 <= k2 < sa.len() && k2 != i && sa[k2] == sb[k] by {
        if k < i {
            assert(sa[k] == sb[k]);
        } else {
            assert(sa[k + 1] == sb[k]);
        }
    }
    assert forall|x: int, y: int| 0 <= x < y < sb.len() implies sb[x].name@ != sb[y].name@ by {
        if y < i {
            assert(sb[x] == sa[x] && sb[y] == sa[y]);
        } else if x < i {
            assert(sb[x] == sa[x] && sb[y] == sa[y + 1]);
        } else {
            assert(sb[x] == sa[x + 1] && sb[y] == sa[y + 1]);
        }
    }
    assert(b.wf());
    assert forall|n: Seq<char>| #[trigger] b.has_room(n) implies a.has_room(n) && n != rn by {
        let k = choose|k: int| 0 <= k < sb.len() && sb[k].name@ == n;
        let k2 = choose|k2: int| 0 <= k2 < sa.len() && k2 != i && sa[k2] == sb[k];
        assert(sa[k2].name@ == n);
        if n == rn {
            a.lemma_room_index(rn);
            assert(k2 == i);
            assert(false);
        }
    }
    assert forall|n: Seq<char>| #[trigger] a.has_room(n) && n != rn implies b.has_room(n) by {
        let k = choose|k: int| 0 <= k < sa.len() && sa[k].name@ == n;
        assert(k != i);
        if k < i {
            assert(sb[k] == sa[k]);
        } else {
            assert(sb[k - 1] == sa[k]);
        }
    }
    assert forall|n: Seq<char>| #[trigger] b.has_room(n) implies b@[n] == a@[n]
        && b.channel_of(n) == a.channel_of(n) by {
        b.lemma_room_index(n);
        let k = b.room_index(n);
        let k2 = choose|k2: int| 0 <= k2 < sa.len() && k2 != i && sa[k2] == sb[k];
        a.lemma_members_at(k2);
        b.lemma_members_at(k);
        assert(sb[k] == sa[k2]);
        assert(a.room_index(n) == k2);
    }
    assert(b@ =~= target) by {
        assert(b@.dom() =~= target.dom());
    }
}

impl Rooms {
    /// Drops `user_name` from the room's member set, if the room exists;
    /// deletes the room when its member set empties.  Every surviving room
    /// keeps its channel.
    pub fn leave(&mut self, room_name: &str, user_name: &str)
        requires
            old(self).wf(),
        ensures
            final(self).wf(),
            final(self)@ == leave_model(old(self)@, room_name@, user_name@),
            forall|n: Seq<char>|
                #[trigger] final(self)@.dom().contains(n) ==> final(self).channel_of(n) == old(self).channel_of(n),
    {
        let ghost m0 = self@;
        match find_room(&self.rooms, room_name) {
            None => {
                proof {
                    assert(!self.has_room(room_name@));
                    assert(self@ =~= leave_model(m0, room_name@, user_name@));
                }
            },
            Some(i) => {
                proof {
                    assert(self.rooms_seq()[i as int].name@ == room_name@);
                    assert(self.has_room(room_name@));
                    self.lemma_room_index(room_name@);
                }
                match find_user(&self.rooms[i].users, user_name) {
                    None => {
                        proof {
                            assert(i as int == self.room_index(room_name@));
                            let va = user_views(self.rooms_seq()[i as int].users@);
                            assert forall|k: int| 0 <= k < va.len() implies #[trigger] va[k]
                                != user_name@ by {
                                assert(va[k] == self.rooms_seq()[i as int].users@[k]@);
                            }
                            assert(!va.contains(user_name@));
                            assert(!va.to_set().contains(user_name@));
                            assert(m0[room_name@] == va.to_set());
                            let rest = m0[room_name@].remove(user_name@);
                            assert(rest =~= m0[room_name@]);
                            assert(va.to_set().contains(va[0]));
                            assert(!(rest =~= Set::<Seq<char>>::empty()));
                            assert(self@ =~= leave_model(m0, room_name@, user_name@)) by {
                                assert(m0.insert(room_name@, rest) =~= m0);
                            }
                        }
                    },
                    Some(j) => {
                        let ghost rold = self.rooms_seq()[i as int];
                        let single = self.rooms[i].users.len() == 1;
                        if single {
                            let _ = self.rooms.remove(i);
                            proof {
                                lemma_leave_empty(
                                    *old(self),
                                    *self,
                                    i as int,
                                    room_name@,
                                    user_name@,
                                );
                            }
                        } else {
                            let room = &mut self.rooms[i];
                            let _ = room.users.remove(j);
                            proof {
                                let unew = self.rooms_seq()[i as int].users@;
                                lemma_user_views_remove(rold.users@, j as int);
                                lemma_leave_nonempty(
                                    *old(self),
                                    *self,
                                    i as int,
                                    j as int,
                                    room_name@,
                                    user_name@,
                                );
                            }
                        }
                    },
                }
            },
        }
    }

    /// Leaves one room and joins another, returning a handle bound to the
    /// new room's own channel; rooms other than the new one keep theirs.
    pub fn change(&mut self, prev_room: &str, next_room: &str, user_name: &str) -> (tx: Sender<
        RoomMsg,
    >)
        requires
            old(self).wf(),
        ensures
            final(self).wf(),
            final(self)@ == join_model(
                leave_model(old(self)@, prev_room@, user_name@),
                next_room@,
                user_name@,
            ),
            sender_channel(tx) == final(self).channel_of(next_room@),
            forall|n: Seq<char>|
                #[trigger] final(self)@.dom().contains(n) && n != next_room@ ==> final(self).channel_of(n) == old(self).channel_of(n),
    {
        self.leave(prev_room, user_name);
        let ghost mid = *self;
        let tx = self.join(next_room, user_name);
        proof {
            assert forall|n: Seq<char>|
                #[trigger] final(self)@.dom().contains(n) && n != next_room@ implies final(self).channel_of(n) == old(self).channel_of(n) by {
                assert(mid@.dom().contains(n));
            }
        }
        tx
    }
}

/// After swapping one member name for another inside a room, the registry's
/// view is the rename model applied to the old view.
proof fn lemma_rename(a: Rooms, b: Rooms, i: int, rn: Seq<char>, pn: Seq<char>, nn: Seq<char>)
    requires
        a.wf(),
        0 <= i < a.rooms_seq().len(),
        a.rooms_seq()[i].name@ == rn,
        b.rooms_seq().len() == a.rooms_seq().len(),
        forall|k: int|
            0 <= k < a.rooms_seq().len() && k != i ==> b.rooms_seq()[k] == a.rooms_seq()[k],
        b.rooms_seq()[i].name == a.rooms_seq()[i].name,
        user_views(b.rooms_seq()[i].users@).to_set() =~= user_views(
            a.rooms_seq()[i].users@,
        ).to_set().remove(pn).insert(nn),
        user_views(b.rooms_seq()[i].users@).no_duplicates(),
        b.rooms_seq()[i].users@.len() >= 1,
        b.rooms_seq()[i].tx == a.rooms_seq()[i].tx,
    ensures
        b.wf(),
        b@ == rename_model(a@, rn, pn, nn),
        forall|n: Seq<char>| #[trigger] b.has_room(n) ==> b.channel_of(n) == a.channel_of(n),
{
    let sa = a.rooms_seq();
    let sb = b.rooms_seq();
    assert forall|k: int| 0 <= k < sb.len() implies (#[trigger] sb[k]).name@ == sa[k].name@ by {}
    assert forall|k: int| 0 <= k < sb.len() implies (#[trigger] sb[k]).wf() by {
        if k != i {
            assert(sb[k] == sa[k]);
        }
    }
    assert(b.wf());
    a.lemma_members_at(i);
    b.lemma_members_at(i);
    let target = rename_model(a@, rn, pn, nn);
    assert forall|n: Seq<char>| #[trigger] b.has_room(n) implies a.has_room(n) by {
        let k = choose|k: int| 0 <= k < sb.len() && sb[k].name@ == n;
        assert(sa[k].name@ == n);
    }
    assert forall|n: Seq<char>| #[trigger] a.has_room(n) implies b.has_room(n) by {
        let k = choose|k: int| 0 <= k < sa.len() && sa[k].name@ == n;
        assert(sb[k].name@ == n);
    }
    assert forall|n: Seq<char>| b.has_room(n) && n != rn implies b@[n] == a@[n] by {
        let k = choose|k: int| 0 <= k < sa.len() && sa[k].name@ == n;
        a.lemma_members_at(k);
        b.lemma_members_at(k);
        assert(k != i);
        assert(sb[k] == sa[k]);
    }
    assert(b@ =~= target) by {
        assert(b@.dom() =~= target.dom());
        assert(b@[rn] == sb[i].member_set());
        assert(target[rn] == a@[rn].remove(pn).insert(nn));
    }
    assert forall|n: Seq<char>| #[trigger] b.has_room(n) implies b.channel_of(n) == a.channel_of(
        n,
    ) by {
        a.lemma_room_index(n);
        let k = a.room_index(n);
        assert(sb[k].name@ == n);
        b.lemma_room_index(n);
        assert(b.room_index(n) == k);
        if k != i {
            assert(sb[k] == sa[k]);
        }
    }
}

impl Rooms {
    /// Replaces `prev_name` by `next_name` in the room's member set, so a
    /// renamed connection stays listed under its current name.  No room's
    /// channel changes.
    pub fn change_name(&mut self, room_name: &str, prev_name: &str, next_name: &str)
        requires
            old(self).wf(),
        ensures
            final(self).wf(),
            final(self)@ == rename_model(old(self)@, room_name@, prev_name@, next_name@),
            forall|n: Seq<char>|
                #[trigger] final(self)@.dom().contains(n) ==> final(self).channel_of(n) == old(self).channel_of(n),
    {
        let ghost m0 = self@;
        match find_room(&self.rooms, room_name) {
            None => {
                proof {
                    assert(!self.has_room(room_name@));
                    assert(self@ =~= rename_model(m0, room_name@, prev_name@, next_name@));
                }
            },
            Some(i) => {
                proof {
                    assert(self.rooms_seq()[i as int].name@ == room_name@);
                    assert(self.has_room(room_name@));
                    self.lemma_room_index(room_name@);
                }
                let ghost rold = self.rooms_seq()[i as int];
                let ghost va = user_views(rold.users@);
                match find_user(&self.rooms[i].users, prev_name) {
                    Some(j) => {
                        let room = &mut self.rooms[i];
                        let _ = room.users.remove(j);
                        proof {
                            lemma_user_views_remove(rold.users@, j as int);
                            lemma_no_dup_remove(va, j as int);
                            lemma_remove_to_set(va, j as int);
                        }
                    },
                    None => {
                        proof {
                            assert forall|k: int| 0 <= k < va.len() implies #[trigger] va[k]
                                != prev_name@ by {
                                assert(va[k] == rold.users@[k]@);
                            }
                            assert(!va.contains(prev_name@));
                            assert(!va.to_set().contains(prev_name@));
                            assert(va.to_set().remove(prev_name@) =~= va.to_set());
                        }
                    },
                }
                let ghost rmid = self.rooms_seq()[i as int];
                let ghost vmid = user_views(rmid.users@);
                proof {
                    assert(vmid.to_set() =~= va.to_set().remove(prev_name@));
                    assert(vmid.no_duplicates());
                }
                match find_user(&self.rooms[i].users, next_name) {
                    Some(_) => {
                        proof {
                            let k = choose|k: int|
                                0 <= k < rmid.users@.len() && rmid.users@[k]@ == next_name@;
                            assert(vmid[k] == next_name@);
                            assert(vmid.to_set().contains(next_name@));
                            assert(vmid.to_set().insert(next_name@) =~= vmid.to_set());
                            assert(vmid.to_set().contains(vmid[0]));
                            lemma_rename(
                                *old(self),
                                *self,
                                i as int,
                                room_name@,
                                prev_name@,
                                next_name@,
                            );
                        }
                    },
                    None => {
                        let owned = next_name.to_owned();
                        let room = &mut self.rooms[i];
                        room.users.push(owned);
                        proof {
                            let unew = self.rooms_seq()[i as int].users@;
                            assert(unew.last()@ == next_name@);
                            lemma_user_views_push(rmid.users@, unew, next_name@);
                            lemma_push_to_set(vmid, next_name@);
                            let vnew = user_views(unew);
                            assert(vnew.to_set() =~= vmid.to_set().insert(next_name@));
                            assert forall|k: int| 0 <= k < vmid.len() implies #[trigger] vmid[k]
                                != next_name@ by {
                                assert(vmid[k] == rmid.users@[k]@);
                            }
                            assert forall|x: int, y: int| 0 <= x < y < vnew.len() implies vnew[x]
                                != vnew[y] by {
                                if y == vmid.len() as int {
                                    assert(vnew[x] == vmid[x]);
                                    assert(vnew[y] == next_name@);
                                } else {
                                    assert(vnew[x] == vmid[x]);
                                    assert(vnew[y] == vmid[y]);
                                }
                            }
                            assert(vnew.no_duplicates());
                            lemma_rename(
                                *old(self),
                                *self,
                                i as int,
                                room_name@,
                                prev_name@,
                                next_name@,
                            );
                        }
                    },
                }
            },
        }
    }

    /// The member names of one room, or nothing when the room does not
    /// exist.
    pub fn list_users(&self, room_name: &str) -> (r: Option<Vec<String>>)
        requires
            self.wf(),
        ensures
            match r {
                Some(users) => self@.dom().contains(room_name@) && user_views(users@).to_set()
                    == self@[room_name@] && user_views(users@).no_duplicates(),
                None => !self@.dom().contains(room_name@),
            },
    {
        match find_room(&self.rooms, room_name) {
            None => {
                proof {
                    assert(!self.has_room(room_name@));
                }
                None
            },
            Some(i) => {
                proof {
                    assert(self.rooms_seq()[i as int].name@ == room_name@);
                    assert(self.has_room(room_name@));
                    self.lemma_members_at(i as int);
                }
                let n = self.rooms[i].users.len();
                let mut out: Vec<String> = Vec::new();
                let mut k: usize = 0;
                while k < n
                    invariant
                        0 <= k <= n,
                        0 <= i < self.rooms_seq().len(),
                        n == self.rooms_seq()[i as int].users@.len(),
                        out@.len() == k,
                        forall|t: int|
                            0 <= t < k ==> #[trigger] out@[t] == self.rooms_seq()[i as int].users@[t],
                    decreases n - k,
                {
                    out.push(self.rooms[i].users[k].clone());
                    k = k + 1;
                }
                proof {
                    assert(user_views(out@) =~= user_views(self.rooms_seq()[i as int].users@));
                }
                Some(out)
            },
        }
    }
}

// ---------------------------------------------------------------------------
// Listing rooms
// ---------------------------------------------------------------------------
/// The listing order: larger member counts first, ties by room name in
/// character order.
pub open spec fn entry_le(a: (String, usize), b: (String, usize)) -> bool {
    b.1 < a.1 || (a.1 == b.1 && lex_le(a.0@, b.0@))
}

fn entry_le_exec(a: &(String, usize), b: &(String, usize)) -> (r: bool)
    ensures
        r == entry_le(*a, *b),
{
    if b.1 < a.1 {
        true
    } else if a.1 == b.1 {
        str_lex_le(a.0.as_str(), b.0.as_str())
    } else {
        false
    }
}

proof fn lemma_entry_le_total(a: (String, usize), b: (String, usize))
    ensures
        entry_le(a, b) || entry_le(b, a),
{
    lemma_lex_le_total(a.0@, b.0@);
}

proof fn lemma_entry_le_trans(a: (String, usize), b: (String, usize), c: (String, usize))
    requires
        entry_le(a, b),
        entry_le(b, c),
    ensures
        entry_le(a, c),
{
    if a.1 == b.1 && b.1 == c.1 {
        lemma_lex_le_trans(a.0@, b.0@, c.0@);
    }
}

/// Sorts the entries by `entry_le`, keeping exactly the same entries.
fn sort_entries(v: Vec<(String, usize)>) -> (r: Vec<(String, usize)>)
    ensures
        r@.to_multiset() == v@.to_multiset(),
        forall|x: int, y: int| 0 <= x < y < r@.len() ==> entry_le(r@[x], r@[y]),
{
    let ghost v0 = v@;
    let mut src = v;
    let mut out: Vec<(String, usize)> = Vec::new();
    proof {
        broadcast use group_to_multiset_ensures;

        assert(out@.to_multiset().add(src@.to_multiset()) =~= v0.to_multiset());
    }
    while src.len() > 0
        invariant
            out@.to_multiset().add(src@.to_multiset()) == v0.to_multiset(),
            forall|x: int, y: int| 0 <= x < y < out@.len() ==> entry_le(out@[x], out@[y]),
            forall|x: int, y: int|
                0 <= x < out@.len() && 0 <= y < src@.len() ==> entry_le(out@[x], src@[y]),
        decreases src@.len(),
    {
        let ghost src_before = src@;
        let ghost out_before = out@;
        let mut m: usize = 0;
        let mut t: usize = 1;
        proof {
            lemma_entry_le_total(src@[0], src@[0]);
        }
        while t < src.len()
            invariant
                src@ == src_before,
                src@.len() > 0,
                0 <= m < src@.len(),
                m < t,
                1 <= t <= src@.len(),
                forall|x: int| 0 <= x < t ==> entry_le(src@[m as int], #[trigger] src@[x]),
            decreases src@.len() - t,
        {
            if entry_le_exec(&src[t], &src[m]) {
                proof {
                    lemma_entry_le_total(src@[t as int], src@[t as int]);
                    assert forall|x: int| 0 <= x < t + 1 implies entry_le(
                        src@[t as int],
                        #[trigger] src@[x],
                    ) by {
                        if x < t {
                            lemma_entry_le_trans(src@[t as int], src@[m as int], src@[x]);
                        }
                    }
                }
                m = t;
            } else {
                proof {
                    lemma_entry_le_total(src@[t as int], src@[m as int]);
                }
            }
            t = t + 1;
        }
        let x = src.remove(m);
        proof {
            broadcast use group_to_multiset_ensures;

            assert(src@.to_multiset() =~= src_before.to_multiset().remove(x));
            assert(src_before.contains(src_before[m as int]));
            assert(src_before.to_multiset().count(x) > 0);
            assert(out_before.to_multiset().insert(x).add(src_before.to_multiset().remove(x))
                =~= out_before.to_multiset().add(src_before.to_multiset()));
        }
        out.push(x);
        proof {
            broadcast use group_to_multiset_ensures;

            assert(out@.to_multiset() =~= out_before.to_multiset().insert(x));
            assert(out@.to_multiset().add(src@.to_multiset()) =~= v0.to_multiset());
            assert forall|a: int, b: int| 0 <= a < b < out@.len() implies entry_le(
                out@[a],
                out@[b],
            ) by {
                if b == out@.len() - 1 {
                    assert(out@[a] == out_before[a]);
                    assert(entry_le(out_before[a], src_before[m as int]));
                } else {
                    assert(out@[a] == out_before[a]);
                    assert(out@[b] == out_before[b]);
                }
            }
            assert forall|a: int, b: int|
                #![trigger out@[a], src@[b]]
                0 <= a < out@.len() && 0 <= b < src@.len() implies entry_le(out@[a], src@[b]) by {
                let sv = if b < m { src_before[b] } else { src_before[b + 1] };
                assert(src@[b] == sv);
                if a == out@.len() - 1 {
                    assert(out@[a] == x);
                } else {
                    assert(out@[a] == out_before[a]);
                }
            }
        }
    }
    out
}

/// What a correct `/rooms` listing of the registry state `m` is: every
/// live room exactly once with its member count, sorted by count
/// descending, ties by name ascending.
pub open spec fn listing_ok(m: Map<Seq<char>, Set<Seq<char>>>, entries: Seq<(String, usize)>) -> bool {
    &&& forall|t: int|
        0 <= t < entries.len() ==> m.dom().contains((#[trigger] entries[t]).0@) && entries[t].1
            == m[entries[t].0@].len()
    &&& forall|n: Seq<char>|
        #[trigger] m.dom().contains(n) ==> exists|t: int|
            0 <= t < entries.len() && (#[trigger] entries[t]).0@ == n
    &&& forall|t1: int, t2: int|
        0 <= t1 < t2 < entries.len() ==> (#[trigger] entries[t1]).0@ != (
        #[trigger] entries[t2]).0@
    &&& forall|t1: int, t2: int| 0 <= t1 < t2 < entries.len() ==> entry_le(entries[t1], entries[t2])
}

impl Rooms {
    /// A snapshot of every live room with its member count, sorted by count
    /// descending, ties by name ascending.  Every room appears exactly
    /// once.
    pub fn list(&self) -> (r: Vec<(String, usize)>)
        requires
            self.wf(),
        ensures
            listing_ok(self@, r@),
    {
        let n = self.rooms.len();
        let mut snap: Vec<(String, usize)> = Vec::new();
        let mut k: usize = 0;
        while k < n
            invariant
                0 <= k <= n,
                n == self.rooms_seq().len(),
                snap@.len() == k,
                forall|t: int|
                    0 <= t < k ==> (#[trigger] snap@[t]).0 == self.rooms_seq()[t].name
                        && snap@[t].1 == self.rooms_seq()[t].users@.len(),
            decreases n - k,
        {
            let nm = self.rooms[k].name.clone();
            let c = self.rooms[k].users.len();
            snap.push((nm, c));
            k = k + 1;
        }
        proof {
            assert forall|t: int|
                0 <= t < snap@.len() implies self@.dom().contains((#[trigger] snap@[t]).0@)
                && snap@[t].1 == self@[snap@[t].0@].len() by {
                self.lemma_members_at(t);
                let va = user_views(self.rooms_seq()[t].users@);
                va.unique_seq_to_set();
            }
        }
        let sorted = sort_entries(snap);
        proof {
            broadcast use group_to_multiset_ensures;

            assert forall|t: int|
                0 <= t < sorted@.len() implies self@.dom().contains((#[trigger] sorted@[t]).0@)
                && sorted@[t].1 == self@[sorted@[t].0@].len() by {
                assert(sorted@.to_multiset().count(sorted@[t]) > 0);
                assert(snap@.contains(sorted@[t]));
            }
            assert forall|n2: Seq<char>| #[trigger] self@.dom().contains(n2) implies exists|t: int|
                0 <= t < sorted@.len() && (#[trigger] sorted@[t]).0@ == n2 by {
                assert(self.has_room(n2));
                self.lemma_room_index(n2);
                let k2 = self.room_index(n2);
                assert(snap@[k2].0@ == n2);
                assert(snap@.to_multiset().count(snap@[k2]) > 0);
                assert(sorted@.contains(snap@[k2]));
                let t = choose|t: int| 0 <= t < sorted@.len() && sorted@[t] == snap@[k2];
                assert(sorted@[t].0@ == n2);
            }
            assert forall|t1: int, t2: int|
                0 <= t1 < t2 < snap@.len() implies (#[trigger] snap@[t1]) != (
            #[trigger] snap@[t2]) by {
                assert(self.rooms_seq()[t1].name@ != self.rooms_seq()[t2].name@);
                assert(snap@[t1].0@ != snap@[t2].0@);
            }
            assert(snap@.no_duplicates());
            snap@.lemma_multiset_has_no_duplicates();
            assert forall|e: (String, usize)|
                sorted@.to_multiset().contains(e) implies sorted@.to_multiset().count(e) == 1 by {
                assert(snap@.to_multiset().count(e) == sorted@.to_multiset().count(e));
            }
            sorted@.lemma_multiset_has_no_duplicates_conv();
            assert forall|t1: int, t2: int|
                0 <= t1 < t2 < sorted@.len() implies (#[trigger] sorted@[t1]).0@ != (
            #[trigger] sorted@[t2]).0@ by {
                if sorted@[t1].0@ == sorted@[t2].0@ {
                    assert(sorted@[t1].1 == self@[sorted@[t1].0@].len());
                    assert(sorted@[t2].1 == self@[sorted@[t1].0@].len());
                    assert(sorted@[t1].0 == sorted@[t2].0) by {
                        assert(sorted@.to_multiset().count(sorted@[t1]) > 0);
                        assert(snap@.contains(sorted@[t1]));
                        let u1 = choose|u: int| 0 <= u < snap@.len() && snap@[u] == sorted@[t1];
                        assert(sorted@.to_multiset().count(sorted@[t2]) > 0);
                        assert(snap@.contains(sorted@[t2]));
                        let u2 = choose|u: int| 0 <= u < snap@.len() && snap@[u] == sorted@[t2];
                        assert(snap@[u1].0 == self.rooms_seq()[u1].name);
                        assert(snap@[u2].0 == self.rooms_seq()[u2].name);
                        if u1 != u2 {
                            assert(self.rooms_seq()[u1].name@ != self.rooms_seq()[u2].name@);
                        }
                    }
                    assert(sorted@[t1] == sorted@[t2]);
                    assert(false);
                }
            }
        }
        sorted
    }
}

// ---------------------------------------------------------------------------
// Laws of the room lifecycle
// ---------------------------------------------------------------------------
/// Joining a room name that does not yet exist creates exactly one room:
/// the name appears in the registry with the joiner as its only member, and
/// every other room is untouched.
pub proof fn lemma_join_creates_one_room(
    m: Map<Seq<char>, Set<Seq<char>>>,
    room: Seq<char>,
    user: Seq<char>,
)
    requires
        !m.dom().contains(room),
    ensures
        join_model(m, room, user).dom() == m.dom().insert(room),
        join_model(m, room, user)[room] == Set::<Seq<char>>::empty().insert(user),
        forall|n: Seq<char>|
            #[trigger] m.dom().contains(n) && n != room ==> join_model(m, room, user)[n] == m[n],
{
    assert(join_model(m, room, user).dom() =~= m.dom().insert(room));
    assert(join_model(m, room, user)[room] =~= Set::<Seq<char>>::empty().insert(user));
}

/// After the last member leaves, the room is gone from the registry; a
/// later join to the same name starts over with a fresh one-member set.
pub proof fn lemma_last_leave_destroys_room(
    m: Map<Seq<char>, Set<Seq<char>>>,
    room: Seq<char>,
    user: Seq<char>,
    later: Seq<char>,
)
    requires
        m.dom().contains(room),
        m[room] == Set::<Seq<char>>::empty().insert(user),
    ensures
        !leave_model(m, room, user).dom().contains(room),
        join_model(leave_model(m, room, user), room, later)[room] == Set::<
            Seq<char>,
        >::empty().insert(later),
{
    assert(m[room].remove(user) =~= Set::<Seq<char>>::empty());
    let after = leave_model(m, room, user);
    assert(after == m.remove(room));
    assert(join_model(after, room, later)[room] =~= Set::<Seq<char>>::empty().insert(later));
}

} // verus!
