//! A room: the latest snapshot of one shared text, the hub that broadcasts
//! each new snapshot to the subscribers, and the time of the last activity.
use async_broadcast::{broadcast, InactiveReceiver, Receiver, Sender};
use std::sync::Arc;
use std::time::Instant;
use tokio::sync::Mutex;
use vstd::prelude::*;

use crate::deps::new_lock;
use crate::status::{successor, Status, StatusView};
use crate::text::{byte_len, clamp, clamped, TEXT_MAX_LEN};

verus! {

/// How long a room without subscribers may stay idle before it expires, in
/// nanoseconds: ten minutes.
pub const ROOM_IDLE_NANOS: u128 = 600_000_000_000;

/// What a sweep reads of one room: how many subscribers it has and how long
/// ago it was last active.
#[derive(Clone, Copy, Debug, PartialEq, Eq)]
pub struct Census {
    /// Active subscribers.
    pub clients: usize,
    /// Time since the last write, refresh or subscription, in nanoseconds.
    pub idle_nanos: u128,
}

impl Census {
    /// A room expires when nobody is subscribed and it has been idle for
    /// longer than `ROOM_IDLE_NANOS`. A room with a subscriber never expires.
    pub open spec fn is_expired(self) -> bool {
        self.clients == 0 && self.idle_nanos > ROOM_IDLE_NANOS
    }

    /// Whether the room that was read may be evicted.
    pub fn expired(&self) -> (gone: bool)
        ensures
            gone == self.is_expired(),
            self.clients > 0 ==> !gone,
            self.idle_nanos <= ROOM_IDLE_NANOS ==> !gone,
    {
        self.clients == 0 && self.idle_nanos > ROOM_IDLE_NANOS
    }
}

/// A named broadcast domain for one text.
pub struct Room {
    sender: Sender<Status>,
    receiver: InactiveReceiver<Status>,
    last_status: Status,
    updated: Instant,
}

impl View for Room {
    type V = StatusView;

    /// A room is modelled by its current snapshot.
    closed spec fn view(&self) -> StatusView {
        self.last_status@
    }
}

impl Room {
    #[verifier::type_invariant]
    spec fn text_fits(&self) -> bool {
        byte_len(self.last_status.text@) <= TEXT_MAX_LEN
    }

    /// An empty room: a hub of capacity one that replaces an unread snapshot
    /// rather than block the writer, no subscribers, the initial snapshot.
    pub fn new() -> (room: Room)
        ensures
            room@ == StatusView::initial(),
    {
        let (mut sender, receiver) = broadcast(1);
        sender.set_await_active(false);
        sender.set_overflow(true);
        Room {
            sender,
            receiver: receiver.deactivate(),
            last_status: Status::default(),
            updated: Instant::now(),
        }
    }

    /// The number of subscribers at this moment.
    pub fn num_clients(&self) -> usize {
        self.sender.receiver_count()
    }

    /// Reads subscriber count and idle time.
    pub fn census(&self) -> Census {
        Census { clients: self.num_clients(), idle_nanos: self.updated.elapsed().as_nanos() }
    }

    /// Whether the room may be evicted now: see `Census::expired`.
    pub fn is_expired(&self) -> bool {
        self.census().expired()
    }

    /// Replaces the text by `text`, clamped to `TEXT_MAX_LEN` bytes, and
    /// publishes the new snapshot as `update` does.
    pub fn write(&mut self, text: String) -> (status: Status)
        ensures
            status@ == final(self)@,
            status@.text == clamped(text@),
            status@.text == text@.take(status@.text.len() as int),
            byte_len(text@) <= TEXT_MAX_LEN ==> status@.text == text@,
            status@.sequence == successor(old(self)@.sequence),
            status@.newer_than(old(self)@),
            byte_len(status@.text) <= TEXT_MAX_LEN,
    {
        proof {
            crate::text::lemma_clamped(text@);
        }
        self.last_status.text = clamp(text);
        self.update()
    }

    /// Publishes a fresh snapshot of the unchanged text: the version moves to
    /// its successor, the member count is read anew from the hub, the
    /// snapshot is broadcast, and the room counts as active now.
    pub fn update(&mut self) -> (status: Status)
        ensures
            status@ == final(self)@,
            status@.text == old(self)@.text,
            status@.sequence == successor(old(self)@.sequence),
            status@.newer_than(old(self)@),
            byte_len(status@.text) <= TEXT_MAX_LEN,
    {
        proof {
            use_type_invariant(&*self);
        }
        let members: usize = self.num_clients();
        self.last_status = self.last_status.next(members);
        let _ = self.sender.try_broadcast(self.last_status.clone());
        self.updated = Instant::now();
        self.last_status.clone()
    }

    /// Adds a subscriber and refreshes, so that every member sees the new
    /// count at once. Returns the subscriber's receiving end and the snapshot
    /// to start from.
    pub fn subscribe(&mut self) -> (joined: (Receiver<Status>, Status))
        ensures
            joined.1@ == final(self)@,
            joined.1@.text == old(self)@.text,
            joined.1@.sequence == successor(old(self)@.sequence),
            joined.1@.newer_than(old(self)@),
            byte_len(joined.1@.text) <= TEXT_MAX_LEN,
    {
        let receiver = self.receiver.activate_cloned();
        let status = self.update();
        (receiver, status)
    }
}

/// The lock through which the sessions of one room reach it.
pub type RoomHandle = Arc<Mutex<Room>>;

/// What the last sweep counted.
#[derive(Clone, Copy, Debug, PartialEq, Eq)]
pub struct Stats {
    /// Rooms that the sweep kept.
    pub active_rooms: usize,
    /// Rooms that the sweep evicted.
    pub expired_rooms: usize,
    /// Subscribers over all rooms that the sweep read.
    pub clients: usize,
}

impl Default for Stats {
    fn default() -> (stats: Self)
        ensures
            stats == (Stats { active_rooms: 0, expired_rooms: 0, clients: 0 }),
    {
        Stats { active_rooms: 0, expired_rooms: 0, clients: 0 }
    }
}

/// How many of the rooms read are expired.
pub open spec fn expired_count(census: Seq<Census>) -> nat
    decreases census.len(),
{
    if census.len() == 0 {
        0
    } else if census[0].is_expired() {
        1 + expired_count(census.drop_first())
    } else {
        expired_count(census.drop_first())
    }
}

/// The subscribers of all the rooms read.
pub open spec fn total_clients(census: Seq<Census>) -> nat
    decreases census.len(),
{
    if census.len() == 0 {
        0
    } else {
        census[0].clients as nat + total_clients(census.drop_first())
    }
}

/// The items whose room, at the same index of `census`, is not expired, in
/// their order.
pub open spec fn kept<T>(items: Seq<T>, census: Seq<Census>) -> Seq<T>
    decreases items.len(),
{
    if items.len() == 0 || census.len() == 0 {
        Seq::empty()
    } else if census[0].is_expired() {
        kept(items.drop_first(), census.drop_first())
    } else {
        seq![items[0]] + kept(items.drop_first(), census.drop_first())
    }
}

/// No more rooms are expired than were read.
pub proof fn lemma_expired_count_bound(census: Seq<Census>)
    ensures
        expired_count(census) <= census.len(),
    decreases census.len(),
{
    if census.len() > 0 {
        lemma_expired_count_bound(census.drop_first());
    }
}

/// The subscribers of two runs of rooms add up.
pub proof fn lemma_total_clients_concat(a: Seq<Census>, b: Seq<Census>)
    ensures
        total_clients(a + b) == total_clients(a) + total_clients(b),
    decreases a.len(),
{
    if a.len() == 0 {
        assert(a + b =~= b);
    } else {
        lemma_total_clients_concat(a.drop_first(), b);
        assert((a + b).drop_first() =~= a.drop_first() + b);
    }
}

/// The rooms before index `at` and those from it on hold all subscribers
/// between them.
pub proof fn lemma_total_clients_split(census: Seq<Census>, at: int)
    requires
        0 <= at <= census.len(),
    ensures
        total_clients(census.take(at)) + total_clients(census.skip(at)) == total_clients(census),
{
    assert(census =~= census.take(at) + census.skip(at));
    lemma_total_clients_concat(census.take(at), census.skip(at));
}

/// Whatever `kept` holds stood at an index whose room is not expired.
pub proof fn lemma_kept_source<T>(items: Seq<T>, census: Seq<Census>, x: T)
    requires
        items.len() == census.len(),
        kept(items, census).contains(x),
    ensures
        exists|i: int| 0 <= i < items.len() && items[i] == x && !census[i].is_expired(),
    decreases items.len(),
{
    if items.len() > 0 {
        let rest = kept(items.drop_first(), census.drop_first());
        if !census[0].is_expired() && items[0] == x {
        } else {
            if !census[0].is_expired() {
                let all = seq![items[0]] + rest;
                let at = choose|j: int| 0 <= j < all.len() && all[j] == x;
                assert(rest[at - 1] == x);
            }
            assert(rest.contains(x));
            lemma_kept_source(items.drop_first(), census.drop_first(), x);
            let i = choose|i: int|
                0 <= i < items.drop_first().len() && items.drop_first()[i] == x
                    && !census.drop_first()[i].is_expired();
            assert(items[i + 1] == x && !census[i + 1].is_expired());
        }
    }
}

/// `kept` holds every item whose room is not expired.
pub proof fn lemma_kept_holds<T>(items: Seq<T>, census: Seq<Census>, i: int)
    requires
        items.len() == census.len(),
        0 <= i < items.len(),
        !census[i].is_expired(),
    ensures
        kept(items, census).contains(items[i]),
    decreases items.len(),
{
    let rest = kept(items.drop_first(), census.drop_first());
    if i == 0 {
        assert((seq![items[0]] + rest)[0] == items[0]);
    } else {
        lemma_kept_holds(items.drop_first(), census.drop_first(), i - 1);
        let at = choose|j: int| 0 <= j < rest.len() && rest[j] == items[i];
        if !census[0].is_expired() {
            assert((seq![items[0]] + rest)[at + 1] == items[i]);
        }
    }
}

/// `kept` repeats nothing where the items repeat nothing.
pub proof fn lemma_kept_distinct<T>(items: Seq<T>, census: Seq<Census>)
    requires
        items.len() == census.len(),
        items.no_duplicates(),
    ensures
        kept(items, census).no_duplicates(),
        kept(items, census).len() <= items.len(),
    decreases items.len(),
{
    if items.len() > 0 {
        let tail = items.drop_first();
        let rest = kept(tail, census.drop_first());
        lemma_kept_distinct(tail, census.drop_first());
        if !census[0].is_expired() {
            if rest.contains(items[0]) {
                lemma_kept_source(tail, census.drop_first(), items[0]);
                let i = choose|i: int| 0 <= i < tail.len() && tail[i] == items[0];
                assert(items[i + 1] == items[0]);
            }
            let all = seq![items[0]] + rest;
            assert forall|a: int, b: int| 0 <= a < all.len() && 0 <= b < all.len() && a != b implies all[a]
                != all[b] by {
                if a > 0 && b > 0 {
                    assert(rest[a - 1] != rest[b - 1]);
                } else if a > 0 {
                    assert(rest.contains(rest[a - 1]));
                } else {
                    assert(rest.contains(rest[b - 1]));
                }
            }
        }
    }
}

struct Entry {
    name: String,
    handle: RoomHandle,
}

/// The rooms by name. Rooms are made on first use and leave in a sweep.
pub struct Rooms {
    entries: Vec<Entry>,
    stats: Stats,
}

/// The mathematical value of the registry: names and handles side by side,
/// in the order in which the rooms were made, and the cached aggregate.
pub ghost struct RoomsView {
    pub names: Seq<Seq<char>>,
    pub handles: Seq<RoomHandle>,
    pub stats: Stats,
}

/// The names of `entries`, in order.
spec fn names_of(entries: Seq<Entry>) -> Seq<Seq<char>> {
    Seq::new(entries.len(), |i: int| entries[i].name@)
}

/// The handles of `entries`, in order.
spec fn handles_of(entries: Seq<Entry>) -> Seq<RoomHandle> {
    Seq::new(entries.len(), |i: int| entries[i].handle)
}

impl View for Rooms {
    type V = RoomsView;

    closed spec fn view(&self) -> RoomsView {
        RoomsView {
            names: names_of(self.entries@),
            handles: handles_of(self.entries@),
            stats: self.stats,
        }
    }
}

impl RoomsView {
    /// Every room has one name and one handle, and no name occurs twice.
    pub open spec fn wf(self) -> bool {
        &&& self.names.len() == self.handles.len()
        &&& self.names.no_duplicates()
    }
}

impl Rooms {
    #[verifier::type_invariant]
    spec fn names_differ(&self) -> bool {
        names_of(self.entries@).no_duplicates()
    }

    /// A registry without rooms; its aggregate is all zero.
    pub fn new() -> (rooms: Rooms)
        ensures
            rooms@.names.len() == 0,
            rooms@.handles.len() == 0,
            rooms@.stats == (Stats { active_rooms: 0, expired_rooms: 0, clients: 0 }),
    {
        Rooms { entries: Vec::new(), stats: Stats::default() }
    }

    /// The number of rooms.
    pub fn len(&self) -> (n: usize)
        ensures
            n == self@.names.len(),
            self@.wf(),
    {
        proof {
            use_type_invariant(self);
        }
        self.entries.len()
    }

    /// The aggregate of the last sweep, as cached: nothing is read anew.
    pub fn stats(&self) -> (stats: Stats)
        ensures
            stats == self@.stats,
    {
        self.stats
    }

    /// The handles of all rooms, in the registry's order.
    pub fn handles(&self) -> (handles: Vec<RoomHandle>)
        ensures
            handles@ == self@.handles,
    {
        let mut handles: Vec<RoomHandle> = Vec::new();
        let mut i: usize = 0;
        while i < self.entries.len()
            invariant
                i <= self.entries@.len(),
                handles@ == self@.handles.take(i as int),
            decreases self.entries@.len() - i,
        {
            handles.push(self.entries[i].handle.clone());
            assert(handles@ =~= self@.handles.take(i + 1));
            i += 1;
        }
        assert(handles@ =~= self@.handles);
        handles
    }

    /// Moves the entries out and leaves the registry empty.
    fn take_entries(&mut self) -> (entries: Vec<Entry>)
        ensures
            entries@ == old(self).entries@,
            names_of(entries@).no_duplicates(),
            final(self).stats == old(self).stats,
    {
        proof {
            use_type_invariant(&*self);
        }
        let mut taken = Rooms { entries: Vec::new(), stats: self.stats };
        std::mem::swap(self, &mut taken);
        let Rooms { entries, stats: _ } = taken;
        entries
    }

    /// The handle of the room called `name`. Where there is no such room yet,
    /// one is made, empty, and entered last.
    pub fn get(&mut self, name: String) -> (handle: RoomHandle)
        ensures
            final(self)@.wf(),
            final(self)@.stats == old(self)@.stats,
            old(self)@.names.contains(name@) ==> {
                &&& final(self)@ == old(self)@
                &&& handle == old(self)@.handles[old(self)@.names.index_of(name@)]
            },
            !old(self)@.names.contains(name@) ==> {
                &&& final(self)@.names == old(self)@.names.push(name@)
                &&& final(self)@.handles == old(self)@.handles.push(handle)
            },
    {
        proof {
            use_type_invariant(&*self);
        }
        let mut i: usize = 0;
        while i < self.entries.len()
            invariant
                i <= self.entries@.len(),
                *self == *old(self),
                names_of(self.entries@).no_duplicates(),
                forall|j: int| 0 <= j < i ==> self.entries@[j].name@ != name@,
            decreases self.entries@.len() - i,
        {
            if self.entries[i].name == name {
                proof {
                    let names = self@.names;
                    assert(names[i as int] == name@);
                    assert(names[names.index_of(name@)] == name@);
                }
                return self.entries[i].handle.clone();
            }
            i += 1;
        }
        assert(!self@.names.contains(name@));
        let handle: RoomHandle = Arc::new(new_lock(Room::new()));
        let stats = self.stats;
        let mut entries = self.take_entries();
        entries.push(Entry { name, handle: handle.clone() });
        assert(names_of(entries@) =~= old(self)@.names.push(name@));
        assert(handles_of(entries@) =~= old(self)@.handles.push(handle));
        *self = Rooms { entries, stats };
        handle
    }

    /// Applies a sweep. `census` holds what was read of each room, in the
    /// registry's order. The rooms read as expired leave the registry, the
    /// others stay in their order, and the counts of the sweep replace the
    /// cached aggregate.
    pub fn update(&mut self, census: &Vec<Census>) -> (stats: Stats)
        requires
            census@.len() == old(self)@.names.len(),
            total_clients(census@) <= usize::MAX,
        ensures
            final(self)@.wf(),
            final(self)@.stats == stats,
            final(self)@.names == kept(old(self)@.names, census@),
            final(self)@.handles == kept(old(self)@.handles, census@),
            stats.expired_rooms == expired_count(census@),
            stats.active_rooms == census@.len() - expired_count(census@),
            stats.clients == total_clients(census@),
            forall|i: int|
                0 <= i < census@.len() ==> (final(self)@.names.contains(
                    #[trigger] old(self)@.names[i],
                ) <==> !census@[i].is_expired()),
            forall|i: int|
                0 <= i < census@.len() && census@[i].clients > 0 ==> final(self)@.names.contains(
                    #[trigger] old(self)@.names[i],
                ),
    {
        let mut entries = self.take_entries();
        let ghost names = names_of(entries@);
        let ghost handles = handles_of(entries@);
        let mut stats = Stats::default();
        let mut i: usize = entries.len();
        proof {
            assert(names.take(i as int) =~= names);
            assert(handles.take(i as int) =~= handles);
            assert(names.skip(i as int) =~= Seq::<Seq<char>>::empty());
            assert(handles.skip(i as int) =~= Seq::<RoomHandle>::empty());
            assert(names_of(entries@) =~= names.take(i as int) + kept(
                names.skip(i as int),
                census@.skip(i as int),
            ));
            assert(handles_of(entries@) =~= handles.take(i as int) + kept(
                handles.skip(i as int),
                census@.skip(i as int),
            ));
        }
        while i > 0
            invariant
                i <= census@.len() <= usize::MAX,
                census@.len() == names.len() == handles.len(),
                names_of(entries@) == names.take(i as int) + kept(
                    names.skip(i as int),
                    census@.skip(i as int),
                ),
                handles_of(entries@) == handles.take(i as int) + kept(
                    handles.skip(i as int),
                    census@.skip(i as int),
                ),
                stats.expired_rooms == expired_count(census@.skip(i as int)),
                stats.active_rooms == census@.len() - i - expired_count(census@.skip(i as int)),
                stats.clients == total_clients(census@.skip(i as int)),
                total_clients(census@) <= usize::MAX,
            decreases i,
        {
            i -= 1;
            let ghost before = entries@;
            let ghost kept_names = kept(names.skip(i + 1), census@.skip(i + 1));
            let ghost kept_handles = kept(handles.skip(i + 1), census@.skip(i + 1));
            proof {
                assert(census@.skip(i as int).drop_first() =~= census@.skip(i + 1));
                assert(names.skip(i as int).drop_first() =~= names.skip(i + 1));
                assert(handles.skip(i as int).drop_first() =~= handles.skip(i + 1));
                lemma_total_clients_split(census@, i as int);
                lemma_expired_count_bound(census@.skip(i as int));
                assert(names_of(before).len() == before.len());
                assert(handles_of(before).len() == before.len());
                assert(census@.skip(i as int)[0] == census@[i as int]);
                assert(names.skip(i as int)[0] == names[i as int]);
                assert(handles.skip(i as int)[0] == handles[i as int]);
            }
            let seen: Census = census[i];
            stats.clients = stats.clients + seen.clients;
            if seen.expired() {
                stats.expired_rooms = stats.expired_rooms + 1;
                entries.remove(i);
                proof {
                    assert(names_of(entries@) =~= names.take(i as int) + kept_names) by {
                        assert forall|j: int| 0 <= j < entries@.len() implies names_of(entries@)[j] == (
                        names.take(i as int) + kept_names)[j] by {
                            if j < i {
                                assert(names_of(before)[j] == names[j]);
                            } else {
                                assert(names_of(before)[j + 1] == kept_names[j - i]);
                            }
                        }
                    }
                    assert(handles_of(entries@) =~= handles.take(i as int) + kept_handles) by {
                        assert forall|j: int| 0 <= j < entries@.len() implies handles_of(
                            entries@,
                        )[j] == (handles.take(i as int) + kept_handles)[j] by {
                            if j < i {
                                assert(handles_of(before)[j] == handles[j]);
                            } else {
                                assert(handles_of(before)[j + 1] == kept_handles[j - i]);
                            }
                        }
                    }
                }
            } else {
                stats.active_rooms = stats.active_rooms + 1;
                proof {
                    assert(names.take(i + 1) + kept_names =~= names.take(i as int) + (seq![
                        names[i as int],
                    ] + kept_names));
                    assert(handles.take(i + 1) + kept_handles =~= handles.take(i as int) + (seq![
                        handles[i as int],
                    ] + kept_handles));
                }
            }
        }
        proof {
            assert(names.skip(0) =~= names);
            assert(handles.skip(0) =~= handles);
            assert(census@.skip(0) =~= census@);
            assert(names_of(entries@) =~= kept(names, census@));
            assert(handles_of(entries@) =~= kept(handles, census@));
            lemma_kept_distinct(names, census@);
            assert forall|i: int| 0 <= i < census@.len() implies (kept(names, census@).contains(
                #[trigger] names[i],
            ) <==> !census@[i].is_expired()) by {
                if !census@[i].is_expired() {
                    lemma_kept_holds(names, census@, i);
                }
                if kept(names, census@).contains(names[i]) {
                    lemma_kept_source(names, census@, names[i]);
                }
            }
        }
        *self = Rooms { entries, stats };
        stats
    }
}

impl Rooms {
    /// Whether `census` can be applied to the registry `rooms`: it holds one
    /// reading per room, and its subscribers can be counted in a `usize`.
    pub open spec fn fits(rooms: RoomsView, census: Seq<Census>) -> bool {
        census.len() == rooms.names.len() && total_clients(census) <= usize::MAX
    }

    /// Applies a sweep as `update` does, if `census` fits the registry. If
    /// it does not, nothing changes and `None` is returned.
    pub fn sweep(&mut self, census: &Vec<Census>) -> (stats: Option<Stats>)
        ensures
            stats is Some == Self::fits(old(self)@, census@),
            stats is None ==> final(self)@ == old(self)@,
            stats matches Some(stats) ==> {
                &&& final(self)@.wf()
                &&& final(self)@.stats == stats
                &&& final(self)@.names == kept(old(self)@.names, census@)
                &&& final(self)@.handles == kept(old(self)@.handles, census@)
                &&& stats.expired_rooms == expired_count(census@)
                &&& stats.active_rooms == census@.len() - expired_count(census@)
                &&& stats.clients == total_clients(census@)
            },
    {
        if census.len() != self.len() {
            return None;
        }
        let mut total: usize = 0;
        let mut i: usize = 0;
        while i < census.len()
            invariant
                i <= census@.len(),
                total == total_clients(census@.take(i as int)),
                *self == *old(self),
            decreases census@.len() - i,
        {
            proof {
                let one = seq![census@[i as int]];
                assert(census@.take(i + 1) =~= census@.take(i as int) + one);
                lemma_total_clients_concat(census@.take(i as int), one);
                assert(one.drop_first() =~= Seq::<Census>::empty());
                assert(total_clients(one) == census@[i as int].clients) by {
                    reveal_with_fuel(total_clients, 2);
                }
                lemma_total_clients_split(census@, i + 1);
            }
            match total.checked_add(census[i].clients) {
                Some(sum) => {
                    total = sum;
                },
                None => {
                    return None;
                },
            }
            i += 1;
        }
        assert(census@.take(census@.len() as int) =~= census@);
        Some(self.update(census))
    }
}

impl Default for Rooms {
    fn default() -> (rooms: Self)
        ensures
            rooms@.names.len() == 0,
            rooms@.handles.len() == 0,
            rooms@.stats == (Stats { active_rooms: 0, expired_rooms: 0, clients: 0 }),
    {
        Rooms::new()
    }
}

} // verus!
