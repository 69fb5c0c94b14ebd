//! One client's session: what it is shown, and what each thing that happens
//! on its connection or in its room makes it do.
//!
//! The session is a state machine. Its state is the snapshot that the client
//! shows. Whoever owns the connection feeds it events, one at a time, and
//! carries out the action that comes back; a text frame it hands over
//! together with the room, which the session then writes to. A snapshot is
//! forwarded only if it is strictly newer than the one shown, so the lossy
//! hub may skip, repeat or reorder snapshots without the client ever
//! stepping back.
use async_broadcast::Receiver;
use vstd::prelude::*;
use vstd::string::*;

use crate::room::Room;
use crate::status::{count_segment, gap, patch, successor, text_segment, Status, StatusView};
use crate::text::{byte_len, clamped, decimal, lemma_decimal_digits, TEXT_MAX_LEN};

verus! {

/// Shortest room name, in characters.
pub const ROOM_NAME_MIN: usize = 6;

/// Longest room name, in characters.
pub const ROOM_NAME_MAX: usize = 16;

/// Seconds of silence after which an empty frame keeps the connection open.
pub const KEEPALIVE_SECS: u64 = 30;

/// An ASCII letter or digit.
pub open spec fn is_alphanumeric(c: char) -> bool {
    ('0' <= c <= '9') || ('a' <= c <= 'z') || ('A' <= c <= 'Z')
}

/// A room name is 6 to 16 ASCII letters and digits.
pub open spec fn valid_room_name(name: Seq<char>) -> bool {
    &&& ROOM_NAME_MIN <= name.len() <= ROOM_NAME_MAX
    &&& forall|i: int| 0 <= i < name.len() ==> is_alphanumeric(#[trigger] name[i])
}

/// Whether the byte is an ASCII letter or digit.
fn is_alphanumeric_byte(b: u8) -> (ok: bool)
    ensures
        ok == ((48 <= b <= 57) || (97 <= b <= 122) || (65 <= b <= 90)),
{
    (48 <= b && b <= 57) || (97 <= b && b <= 122) || (65 <= b && b <= 90)
}

/// Whether `name` may name a room.
pub fn is_valid_room_name(name: &str) -> (ok: bool)
    ensures
        ok == valid_room_name(name@),
{
    broadcast use vstd::string::is_ascii_spec_bytes;
    broadcast use vstd::slice::group_slice_axioms;

    if !name.is_ascii() {
        proof {
            let i = choose|i: int| 0 <= i < name@.len() && !('\0' <= #[trigger] name@[i] <= '\u{7f}');
            assert(!is_alphanumeric(name@[i]));
        }
        return false;
    }
    let len: usize = name.as_bytes().len();
    assert(len == name@.len());
    if len < ROOM_NAME_MIN || len > ROOM_NAME_MAX {
        return false;
    }
    let mut i: usize = 0;
    while i < len
        invariant
            i <= len == name@.len(),
            is_ascii(name),
            forall|j: int| 0 <= j < i ==> is_alphanumeric(#[trigger] name@[j]),
        decreases len - i,
    {
        let b: u8 = name.get_ascii(i);
        if !is_alphanumeric_byte(b) {
            proof {
                let c = name@[i as int];
                assert('\0' <= c <= '\u{7f}');
                assert(!is_alphanumeric(c));
            }
            return false;
        }
        proof {
            let c = name@[i as int];
            assert('\0' <= c <= '\u{7f}');
            assert(is_alphanumeric(c));
        }
        i += 1;
    }
    true
}

/// What a client asks for when it connects.
#[derive(Debug, PartialEq, Eq)]
pub struct HandleParams {
    /// The name of the room to join.
    pub room: String,
}

impl HandleParams {
    /// The name of the room to join, if it is a valid one.
    pub fn room_name(self) -> (name: Option<String>)
        ensures
            name is Some == valid_room_name(self.room@),
            name matches Some(n) ==> n@ == self.room@,
    {
        if is_valid_room_name(self.room.as_str()) {
            Some(self.room)
        } else {
            None
        }
    }
}

/// What can happen to a session, but for a text frame: see `Session::edit`.
#[derive(Debug, PartialEq, Eq)]
pub enum Event {
    /// The hub delivered a snapshot.
    Status(Status),
    /// The hub skipped snapshots that this session was too slow to read.
    Overflowed,
    /// The hub was closed.
    HubClosed,
    /// The client sent a frame that is not text.
    NonText,
    /// The client closed the connection.
    PeerClosed,
    /// Reading from or writing to the connection failed.
    SocketFailed,
    /// Nothing happened for `KEEPALIVE_SECS` seconds.
    Idle,
}

/// What a session asks its owner to do.
#[derive(Debug, PartialEq, Eq)]
pub enum Action {
    /// Send this frame to the client.
    Send(String),
    /// Nothing; wait for the next event.
    Wait,
    /// End the session; nothing went wrong. The owner drops the receiving
    /// end and refreshes the room, so that the others see the member leave.
    Finish,
    /// End the session with an error. The owner cleans up as for `Finish`.
    Abort,
}

/// The mathematical value of an `Event`.
pub ghost enum EventView {
    Status(StatusView),
    Overflowed,
    HubClosed,
    NonText,
    PeerClosed,
    SocketFailed,
    Idle,
}

/// The mathematical value of an `Action`.
pub ghost enum ActionView {
    Send(Seq<char>),
    Wait,
    Finish,
    Abort,
}

impl View for Event {
    type V = EventView;

    open spec fn view(&self) -> EventView {
        match self {
            Event::Status(status) => EventView::Status(status@),
            Event::Overflowed => EventView::Overflowed,
            Event::HubClosed => EventView::HubClosed,
            Event::NonText => EventView::NonText,
            Event::PeerClosed => EventView::PeerClosed,
            Event::SocketFailed => EventView::SocketFailed,
            Event::Idle => EventView::Idle,
        }
    }
}

impl View for Action {
    type V = ActionView;

    open spec fn view(&self) -> ActionView {
        match self {
            Action::Send(frame) => ActionView::Send(frame@),
            Action::Wait => ActionView::Wait,
            Action::Finish => ActionView::Finish,
            Action::Abort => ActionView::Abort,
        }
    }
}

/// The frame, if any, that brings a client from `shown` to `incoming`.
pub open spec fn forward(incoming: StatusView, shown: StatusView) -> ActionView {
    match patch(incoming, shown) {
        Some(frame) => ActionView::Send(frame),
        None => ActionView::Wait,
    }
}

/// What a session showing `shown` shows after a snapshot arrived: the
/// snapshot if it is strictly newer, else what it showed before.
pub open spec fn adopt(shown: StatusView, incoming: StatusView) -> StatusView {
    if incoming.newer_than(shown) {
        incoming
    } else {
        shown
    }
}

/// The transition of a session: what it shows next and what it asks for,
/// given what it shows and what happened.
pub open spec fn react(shown: StatusView, event: EventView) -> (StatusView, ActionView) {
    match event {
        EventView::Status(incoming) => (
            adopt(shown, incoming),
            if incoming.newer_than(shown) {
                forward(incoming, shown)
            } else {
                ActionView::Wait
            },
        ),
        EventView::Idle => (shown, ActionView::Send(Seq::empty())),
        EventView::Overflowed => (shown, ActionView::Wait),
        EventView::NonText => (shown, ActionView::Wait),
        EventView::PeerClosed => (shown, ActionView::Finish),
        EventView::HubClosed => (shown, ActionView::Abort),
        EventView::SocketFailed => (shown, ActionView::Abort),
    }
}

/// What a session shows once its client typed `text`: the client shows what
/// was typed; version and member count are as before.
pub open spec fn typed(shown: StatusView, text: Seq<char>) -> StatusView {
    StatusView { sequence: shown.sequence, clients: shown.clients, text: text }
}

/// What a session shows after the snapshots of `updates` arrived in order.
pub open spec fn replay(shown: StatusView, updates: Seq<StatusView>) -> StatusView
    decreases updates.len(),
{
    if updates.len() == 0 {
        shown
    } else {
        replay(adopt(shown, updates[0]), updates.drop_first())
    }
}

/// The session of one client.
pub struct Session {
    current: Status,
}

impl View for Session {
    type V = StatusView;

    /// A session is modelled by the snapshot that its client shows.
    closed spec fn view(&self) -> StatusView {
        self.current@
    }
}

impl Session {
    /// Opens a session on the snapshot that subscribing returned. The frame
    /// is what takes a client that shows nothing yet to that snapshot: the
    /// patch against the initial snapshot.
    pub fn start(initial: Status) -> (opened: (Session, Option<String>))
        ensures
            opened.0@ == initial@,
            match opened.1 {
                Some(frame) => patch(initial@, StatusView::initial()) == Some(frame@),
                None => patch(initial@, StatusView::initial()) is None,
            },
    {
        let frame = initial.diff(&Status::default());
        (Session { current: initial }, frame)
    }

    /// Subscribes to `room` and opens a session on the snapshot that the
    /// room returns. Returns the session, the receiving end of the hub, and
    /// the first frame for the client.
    pub fn join(room: &mut Room) -> (joined: (Session, Receiver<Status>, Option<String>))
        ensures
            joined.0@ == final(room)@,
            final(room)@.text == old(room)@.text,
            final(room)@.sequence == successor(old(room)@.sequence),
            match joined.2 {
                Some(frame) => patch(final(room)@, StatusView::initial()) == Some(frame@),
                None => patch(final(room)@, StatusView::initial()) is None,
            },
    {
        let (receiver, initial) = room.subscribe();
        let (session, frame) = Session::start(initial);
        (session, receiver, frame)
    }

    /// The snapshot that the client shows.
    pub fn current(&self) -> (status: &Status)
        ensures
            status@ == self@,
    {
        &self.current
    }

    /// Takes one event and says what to do about it.
    ///
    /// A snapshot is shown, and its patch sent, only if it is strictly newer
    /// than what the client shows. Silence is answered with an empty frame.
    /// A skipped snapshot or a frame that is not text changes nothing. The
    /// client closing ends the session; a closed hub or a failed connection
    /// aborts it.
    pub fn handle(&mut self, event: Event) -> (action: Action)
        ensures
            (final(self)@, action@) == react(old(self)@, event@),
    {
        match event {
            Event::Status(incoming) => {
                if incoming.is_newer_than(&self.current) {
                    let frame = incoming.diff(&self.current);
                    self.current = incoming;
                    match frame {
                        Some(frame) => Action::Send(frame),
                        None => Action::Wait,
                    }
                } else {
                    Action::Wait
                }
            },
            Event::Idle => Action::Send(String::new()),
            Event::Overflowed => Action::Wait,
            Event::NonText => Action::Wait,
            Event::PeerClosed => Action::Finish,
            Event::HubClosed => Action::Abort,
            Event::SocketFailed => Action::Abort,
        }
    }

    /// Takes a text frame: the whole new text, as the client typed it.
    ///
    /// The session first takes the text over as the text shown, since the
    /// client shows what it typed. Then it writes the text to `room` and
    /// treats the snapshot that the room returns as one that arrived. So the
    /// client is sent the member count, if that changed, and is sent the
    /// text only if the room stored another one than was typed, which it
    /// does when it has to clamp it.
    pub fn edit(&mut self, room: &mut Room, text: String) -> (action: Action)
        ensures
            final(room)@.text == clamped(text@),
            final(room)@.sequence == successor(old(room)@.sequence),
            (final(self)@, action@) == react(
                typed(old(self)@, text@),
                EventView::Status(final(room)@),
            ),
            byte_len(text@) <= TEXT_MAX_LEN ==> action@ == ActionView::Wait || action@
                == ActionView::Send(seq!['n'] + decimal(final(room)@.clients as nat)),
    {
        self.current.text = text.clone();
        let written = room.write(text);
        proof {
            if byte_len(text@) <= TEXT_MAX_LEN {
                lemma_no_self_echo(old(self)@, text@, written@);
            }
        }
        self.handle(Event::Status(written))
    }
}

/// A session never steps back. Whatever happens, what it shows next is not
/// older than what it shows now: either the version is the same, or the
/// snapshot is strictly newer.
pub proof fn lemma_never_regresses(shown: StatusView, event: EventView)
    ensures
        !shown.newer_than(react(shown, event).0),
        react(shown, event).0.sequence == shown.sequence || react(shown, event).0.newer_than(shown),
{
}

/// A session does not echo an edit. Once the client typed a text, a
/// snapshot with that text, such as the room returns for the write, makes
/// the session send at most the member count: a frame without a text
/// segment.
pub proof fn lemma_no_self_echo(shown: StatusView, text: Seq<char>, written: StatusView)
    requires
        written.text == text,
    ensures
        ({
            let answer = react(typed(shown, text), EventView::Status(written)).1;
            &&& answer == ActionView::Wait || answer == ActionView::Send(
                seq!['n'] + decimal(written.clients as nat),
            )
            &&& answer matches ActionView::Send(frame) ==> !frame.contains('$')
        }),
{
    let editing = typed(shown, text);
    let answer = react(editing, EventView::Status(written)).1;
    let digits = decimal(written.clients as nat);
    lemma_decimal_digits(written.clients as nat);
    assert(text_segment(written, editing) =~= Seq::<char>::empty());
    assert(count_segment(written, editing) + Seq::<char>::empty() =~= count_segment(
        written,
        editing,
    ));
    if answer is Send {
        let frame = seq!['n'] + digits;
        assert(answer == ActionView::Send(frame));
        assert forall|i: int| 0 <= i < frame.len() implies frame[i] != '$' by {
            if i > 0 {
                assert(frame[i] == digits[i - 1]);
            }
        }
    }
}

/// A session that edits shows the snapshot of its own write afterwards,
/// as long as that snapshot is ahead of what the session showed before by
/// less than half the range of the counter.
pub proof fn lemma_edit_adopts(shown: StatusView, text: Seq<char>, written: StatusView)
    requires
        gap(written.sequence, shown.sequence) > 0,
    ensures
        react(typed(shown, text), EventView::Status(written)).0 == written,
{
}

/// The first frame of a session that joins a room with a text carries the
/// whole text, after the member count if there are members.
pub proof fn lemma_greeting_carries_text(initial: StatusView)
    requires
        initial.text.len() > 0,
    ensures
        patch(initial, StatusView::initial()) == Some(
            count_segment(initial, StatusView::initial()) + (seq!['$'] + initial.text),
        ),
{
    assert(initial.text != Seq::<char>::empty());
}

/// How far the version of `s` is ahead of the counter `base`.
pub open spec fn position(base: i16, s: StatusView) -> int {
    gap(s.sequence, base)
}

/// Whether `s` belongs to a run of snapshots that starts at the counter
/// `base` and ends with `last`: its version lies between the two, and it is
/// the only snapshot of its version.
pub open spec fn in_run(base: i16, last: StatusView, s: StatusView) -> bool {
    &&& 0 <= position(base, s) <= position(base, last)
    &&& s.sequence == last.sequence ==> s == last
}

/// Within one run the wrapping order is the order of the positions.
pub proof fn lemma_gap_in_run(base: i16, a: i16, b: i16)
    requires
        0 <= gap(a, base),
        0 <= gap(b, base),
    ensures
        gap(a, b) == gap(a, base) - gap(b, base),
{
}

/// Once a session shows the last snapshot of a run, no snapshot of the run
/// moves it.
pub proof fn lemma_settled(base: i16, last: StatusView, updates: Seq<StatusView>)
    requires
        0 <= position(base, last),
        forall|i: int| 0 <= i < updates.len() ==> in_run(base, last, #[trigger] updates[i]),
    ensures
        replay(last, updates) == last,
    decreases updates.len(),
{
    if updates.len() > 0 {
        let first = updates[0];
        assert(in_run(base, last, first));
        lemma_gap_in_run(base, first.sequence, last.sequence);
        let rest = updates.drop_first();
        assert forall|i: int| 0 <= i < rest.len() implies in_run(base, last, #[trigger] rest[i]) by {
            assert(rest[i] == updates[i + 1]);
        }
        lemma_settled(base, last, rest);
    }
}

/// Sessions converge. Take the snapshots that a room published in a run
/// ending with `last`, short enough for the counter not to lap itself. A
/// session that shows one of them and is then delivered any of them, in any
/// order, with gaps and repeats, shows `last` in the end, provided `last`
/// was among those delivered.
pub proof fn lemma_convergence(
    base: i16,
    last: StatusView,
    shown: StatusView,
    updates: Seq<StatusView>,
)
    requires
        in_run(base, last, shown),
        forall|i: int| 0 <= i < updates.len() ==> in_run(base, last, #[trigger] updates[i]),
        updates.contains(last),
    ensures
        replay(shown, updates) == last,
    decreases updates.len(),
{
    let first = updates[0];
    let rest = updates.drop_first();
    let next = adopt(shown, first);
    assert(in_run(base, last, first));
    lemma_gap_in_run(base, first.sequence, shown.sequence);
    assert forall|i: int| 0 <= i < rest.len() implies in_run(base, last, #[trigger] rest[i]) by {
        assert(rest[i] == updates[i + 1]);
    }
    if next == last {
        lemma_settled(base, last, rest);
    } else {
        let at = choose|i: int| 0 <= i < updates.len() && updates[i] == last;
        if at == 0 {
            lemma_gap_in_run(base, last.sequence, shown.sequence);
        } else {
            assert(rest[at - 1] == last);
        }
        lemma_convergence(base, last, next, rest);
    }
}

/// Whether `run` is what a room publishes, one write or refresh after the
/// other, from the snapshot `start` on: each version is the successor of
/// the one before.
pub open spec fn published(start: StatusView, run: Seq<StatusView>) -> bool {
    forall|i: int|
        0 <= i < run.len() ==> (#[trigger] run[i]).sequence == successor(
            if i == 0 {
                start.sequence
            } else {
                run[i - 1].sequence
            },
        )
}

/// The snapshots that a room publishes stand one step apart, as long as the
/// counter does not lap itself.
pub proof fn lemma_published_position(start: StatusView, run: Seq<StatusView>, i: int)
    requires
        published(start, run),
        0 <= i < run.len() <= i16::MAX,
    ensures
        position(start.sequence, run[i]) == i + 1,
    decreases i,
{
    if i > 0 {
        lemma_published_position(start, run, i - 1);
    }
}

/// Concurrent writes converge. Let a room publish the snapshots of `run`,
/// one per write or refresh, in whatever order the writers got hold of it.
/// A session that shows the snapshot before the run, or one of the run, and
/// is delivered snapshots of the run in any order, with gaps and repeats,
/// shows the last one published once that one was among those delivered.
pub proof fn lemma_subscribers_converge(
    start: StatusView,
    run: Seq<StatusView>,
    shown: StatusView,
    updates: Seq<StatusView>,
)
    requires
        published(start, run),
        0 < run.len() <= i16::MAX,
        shown == start || run.contains(shown),
        forall|i: int| 0 <= i < updates.len() ==> run.contains(#[trigger] updates[i]),
        updates.contains(run.last()),
    ensures
        replay(shown, updates) == run.last(),
{
    let base = start.sequence;
    let last = run.last();
    lemma_published_position(start, run, run.len() - 1);
    assert forall|s: StatusView| run.contains(s) implies in_run(base, last, s) by {
        let i = choose|i: int| 0 <= i < run.len() && run[i] == s;
        lemma_published_position(start, run, i);
    }
    assert(in_run(base, last, shown));
    lemma_convergence(base, last, shown, updates);
}

} // verus!
