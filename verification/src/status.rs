//! The versioned snapshot of a room and the patches that carry one snapshot
//! to the next.
//!
//! Snapshots are ordered by their sequence counter, which wraps: one is newer
//! than another when the signed circular distance between the counters is
//! positive. A patch names only the fields that changed, the member count
//! before the text.
use std::cmp::Ordering;
use vstd::prelude::*;
use vstd::std_specs::cmp::PartialOrdSpecImpl;
use vstd::string::*;

use crate::text::{decimal, digit, lemma_decimal_digits, push_decimal};

verus! {

/// What a room shows at one moment.
#[derive(Debug, PartialEq, Eq)]
pub struct Status {
    /// Version counter; wraps on overflow.
    pub sequence: i16,
    /// Number of subscribers when the snapshot was taken.
    pub clients: u32,
    /// The shared text.
    pub text: String,
}

/// The mathematical value of a `Status`.
pub ghost struct StatusView {
    pub sequence: i16,
    pub clients: u32,
    pub text: Seq<char>,
}

impl View for Status {
    type V = StatusView;

    open spec fn view(&self) -> StatusView {
        StatusView { sequence: self.sequence, clients: self.clients, text: self.text@ }
    }
}

impl StatusView {
    /// The snapshot of a room that nobody has touched: version zero, no
    /// members, empty text.
    pub open spec fn initial() -> StatusView {
        StatusView { sequence: 0, clients: 0, text: Seq::empty() }
    }

    /// Whether `self` is strictly newer than `other` in the wrapping order.
    pub open spec fn newer_than(self, other: StatusView) -> bool {
        gap(self.sequence, other.sequence) > 0
    }
}

/// Signed circular distance from counter `b` to counter `a`: the difference
/// `a - b` brought back into the 16-bit range.
pub open spec fn gap(a: i16, b: i16) -> int {
    let d = a - b;
    if d > i16::MAX {
        d - 0x1_0000
    } else if d < i16::MIN {
        d + 0x1_0000
    } else {
        d
    }
}

/// The counter that follows `a`.
pub open spec fn successor(a: i16) -> i16 {
    if a == i16::MAX {
        i16::MIN
    } else {
        (a + 1) as i16
    }
}

/// The member count shown for `members` subscribers: the count itself, or
/// the largest value of the field where it does not fit.
pub open spec fn member_count(members: usize) -> u32 {
    if members > u32::MAX {
        u32::MAX
    } else {
        members as u32
    }
}

/// Each counter's successor is one step ahead of it, across the wrap too.
pub proof fn lemma_successor_is_newer(a: i16)
    ensures
        gap(successor(a), a) == 1,
        gap(a, successor(a)) == -1,
        gap(i16::MIN, i16::MAX) == 1,
{
}

/// How `a` stands to `b` in the wrapping order.
pub open spec fn age_order(a: StatusView, b: StatusView) -> Ordering {
    if gap(a.sequence, b.sequence) > 0 {
        Ordering::Greater
    } else if gap(a.sequence, b.sequence) < 0 {
        Ordering::Less
    } else {
        Ordering::Equal
    }
}

/// The member-count segment of the patch from `prev` to `cur`: `n` and the
/// new count in decimal, or nothing where the count is unchanged.
pub open spec fn count_segment(cur: StatusView, prev: StatusView) -> Seq<char> {
    if cur.clients != prev.clients {
        seq!['n'] + decimal(cur.clients as nat)
    } else {
        Seq::empty()
    }
}

/// The text segment of the patch from `prev` to `cur`: `$` and the whole new
/// text, or nothing where the text is unchanged.
pub open spec fn text_segment(cur: StatusView, prev: StatusView) -> Seq<char> {
    if cur.text != prev.text {
        seq!['$'] + cur.text
    } else {
        Seq::empty()
    }
}

/// The patch that takes a client from `prev` to `cur`: the count segment,
/// then the text segment; no patch where neither field changed.
pub open spec fn patch(cur: StatusView, prev: StatusView) -> Option<Seq<char>> {
    if cur.clients == prev.clients && cur.text == prev.text {
        None
    } else {
        Some(count_segment(cur, prev) + text_segment(cur, prev))
    }
}

/// Whether `c` is a decimal digit.
pub open spec fn is_digit(c: char) -> bool {
    '0' <= c <= '9'
}

/// The number that a decimal numeral stands for.
pub open spec fn numeral_value(digits: Seq<char>) -> nat
    decreases digits.len(),
{
    if digits.len() == 0 {
        0
    } else {
        numeral_value(digits.drop_last()) * 10 + (digits.last() as nat - '0' as nat) as nat
    }
}

/// How many digits `s` starts with.
pub open spec fn leading_digits(s: Seq<char>) -> nat
    decreases s.len(),
{
    if s.len() == 0 || !is_digit(s[0]) {
        0
    } else {
        1 + leading_digits(s.drop_first())
    }
}

/// What a client shows: a member count and a text.
pub ghost struct Shown {
    pub clients: nat,
    pub text: Seq<char>,
}

/// The client's side of the protocol: what a client that shows `shown`
/// shows after it received `frame`. A frame that starts with `n` sets the
/// member count to the numeral that follows; what is left of the frame, if
/// it starts with `$`, sets the text to all that follows. An empty frame
/// changes nothing.
pub open spec fn applied(shown: Shown, frame: Seq<char>) -> Shown {
    let counted = frame.len() > 0 && frame[0] == 'n';
    let width = if counted {
        1 + leading_digits(frame.skip(1))
    } else {
        0
    };
    let rest = frame.skip(width as int);
    Shown {
        clients: if counted {
            numeral_value(frame.subrange(1, width as int))
        } else {
            shown.clients
        },
        text: if rest.len() > 0 && rest[0] == '$' {
            rest.skip(1)
        } else {
            shown.text
        },
    }
}

/// A numeral stands for the number it was written for.
pub proof fn lemma_numeral_value(n: nat)
    ensures
        numeral_value(decimal(n)) == n,
    decreases n,
{
    let d = n % 10;
    let numeral = decimal(n);
    assert(digit(d) as nat - '0' as nat == d);
    assert(numeral.last() == digit(d));
    if n >= 10 {
        lemma_numeral_value(n / 10);
        assert(numeral.drop_last() =~= decimal(n / 10));
    } else {
        assert(numeral.drop_last() =~= Seq::<char>::empty());
    }
    assert(numeral_value(numeral) == numeral_value(numeral.drop_last()) * 10 + d);
}

/// Digits that are followed by no further digit are all counted.
pub proof fn lemma_leading_digits(digits: Seq<char>, rest: Seq<char>)
    requires
        forall|i: int| 0 <= i < digits.len() ==> is_digit(#[trigger] digits[i]),
        rest.len() == 0 || !is_digit(rest[0]),
    ensures
        leading_digits(digits + rest) == digits.len(),
    decreases digits.len(),
{
    if digits.len() == 0 {
        assert(digits + rest =~= rest);
    } else {
        lemma_leading_digits(digits.drop_first(), rest);
        assert((digits + rest).drop_first() =~= digits.drop_first() + rest);
    }
}

/// A patch is enough, and read in one way only: a client that shows the
/// member count and text of `prev` shows those of `cur` after the patch from
/// `prev` to `cur`; and where there is no patch, it shows them already.
pub proof fn lemma_patch_round_trip(cur: StatusView, prev: StatusView)
    ensures
        match patch(cur, prev) {
            Some(frame) => applied(
                Shown { clients: prev.clients as nat, text: prev.text },
                frame,
            ) == (Shown { clients: cur.clients as nat, text: cur.text }),
            None => cur.clients == prev.clients && cur.text == prev.text,
        },
{
    if patch(cur, prev) is Some {
        let frame = patch(cur, prev)->0;
        let shown = Shown { clients: prev.clients as nat, text: prev.text };
        let tail = text_segment(cur, prev);
        if cur.clients != prev.clients {
            let digits = decimal(cur.clients as nat);
            lemma_decimal_digits(cur.clients as nat);
            lemma_numeral_value(cur.clients as nat);
            assert(frame.skip(1) =~= digits + tail);
            lemma_leading_digits(digits, tail);
            let width = 1 + digits.len();
            assert(frame.subrange(1, width as int) =~= digits);
            assert(frame.skip(width as int) =~= tail);
            if cur.text != prev.text {
                assert(tail.skip(1) =~= cur.text);
            }
        } else {
            assert(frame =~= tail);
            assert(frame.skip(0) =~= frame);
            assert(frame.skip(1) =~= cur.text);
        }
    }
}

impl Status {
    /// Compares two snapshots by age. The counters are subtracted with
    /// wraparound, so a snapshot taken just after the counter wrapped still
    /// counts as newer than one taken just before.
    pub fn cmp(&self, other: &Self) -> (o: Ordering)
        ensures
            o == age_order(self@, other@),
            (o == Ordering::Greater) == self@.newer_than(other@),
    {
        let d: i16 = self.sequence.wrapping_sub(other.sequence);
        if d > 0 {
            Ordering::Greater
        } else if d < 0 {
            Ordering::Less
        } else {
            Ordering::Equal
        }
    }

    /// Whether `self` is strictly newer than `other`.
    pub fn is_newer_than(&self, other: &Self) -> (b: bool)
        ensures
            b == self@.newer_than(other@),
    {
        self.sequence.wrapping_sub(other.sequence) > 0
    }

    /// The snapshot that follows `self` when `members` subscribers are
    /// present: the next version of the same text.
    pub fn next(&self, members: usize) -> (status: Status)
        ensures
            status@ == (StatusView {
                sequence: successor(self.sequence),
                clients: member_count(members),
                text: self.text@,
            }),
            status@.newer_than(self@),
    {
        Status {
            sequence: self.sequence.wrapping_add(1),
            clients: if members > u32::MAX as usize {
                u32::MAX
            } else {
                members as u32
            },
            text: self.text.clone(),
        }
    }

    /// The patch that takes a client showing `previous` to `self`, or `None`
    /// where member count and text are both unchanged. The sequence counter
    /// is not part of a patch.
    pub fn diff(&self, previous: &Self) -> (message: Option<String>)
        ensures
            match message {
                Some(m) => patch(self@, previous@) == Some(m@),
                None => patch(self@, previous@) is None,
            },
            self.clients == previous.clients && self.text@ == previous.text@ ==> message is None,
            self.clients == previous.clients && self.text@ != previous.text@ ==> (message matches Some(
                m,
            ) && m@ == seq!['$'] + self.text@),
            self.clients != previous.clients && self.text@ == previous.text@ ==> (message matches Some(
                m,
            ) && m@ == seq!['n'] + decimal(self.clients as nat)),
            self.clients != previous.clients && self.text@ != previous.text@ ==> (message matches Some(
                m,
            ) && m@ == seq!['n'] + decimal(self.clients as nat) + (seq!['$'] + self.text@)),
    {
        let count_changed: bool = previous.clients != self.clients;
        let text_changed: bool = previous.text != self.text;
        if !count_changed && !text_changed {
            return None;
        }
        let mut message = String::new();
        if count_changed {
            proof {
                reveal_strlit("n");
            }
            message.append("n");
            push_decimal(&mut message, self.clients);
        }
        if text_changed {
            proof {
                reveal_strlit("$");
            }
            message.append("$");
            message.append(self.text.as_str());
        }
        assert(message@ =~= count_segment(self@, previous@) + text_segment(self@, previous@));
        Some(message)
    }
}

impl Clone for Status {
    fn clone(&self) -> (copy: Self)
        ensures
            copy == *self,
    {
        Status { sequence: self.sequence, clients: self.clients, text: self.text.clone() }
    }
}

impl Default for Status {
    fn default() -> (status: Self)
        ensures
            status@ == StatusView::initial(),
    {
        Status { sequence: 0, clients: 0, text: String::new() }
    }
}

impl PartialOrd for Status {
    fn partial_cmp(&self, other: &Self) -> (o: Option<Ordering>) {
        Some(self.cmp(other))
    }
}

impl PartialOrdSpecImpl for Status {
    open spec fn obeys_partial_cmp_spec() -> bool {
        true
    }

    open spec fn partial_cmp_spec(&self, other: &Self) -> Option<Ordering> {
        Some(age_order(self@, other@))
    }
}

} // verus!
