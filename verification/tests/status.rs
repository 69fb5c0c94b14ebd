use roomsync::status::Status;
use std::cmp::Ordering;

fn status(sequence: i16, clients: u32, text: &str) -> Status {
    Status { sequence, clients, text: text.to_string() }
}

#[test]
fn default_status_is_empty() {
    let s = Status::default();
    assert_eq!(s.sequence, 0);
    assert_eq!(s.clients, 0);
    assert_eq!(s.text, "");
}

#[test]
fn later_sequence_is_newer() {
    let a = status(5, 0, "");
    let b = status(4, 0, "");
    assert_eq!(a.cmp(&b), Ordering::Greater);
    assert_eq!(b.cmp(&a), Ordering::Less);
    assert!(a.is_newer_than(&b));
    assert!(!b.is_newer_than(&a));
    assert!(a > b);
    assert!(b < a);
}

#[test]
fn same_sequence_is_not_newer() {
    let a = status(7, 1, "x");
    let b = status(7, 2, "y");
    assert_eq!(a.cmp(&b), Ordering::Equal);
    assert!(!a.is_newer_than(&b));
    assert!(!b.is_newer_than(&a));
    assert_eq!(a.partial_cmp(&b), Some(Ordering::Equal));
}

#[test]
fn wrapped_sequence_is_newer_than_the_maximum() {
    let before = status(i16::MAX, 0, "");
    let after = status(i16::MIN, 0, "");
    assert_eq!(after.cmp(&before), Ordering::Greater);
    assert_eq!(before.cmp(&after), Ordering::Less);
    assert!(after > before);
    assert!(after.is_newer_than(&before));
    assert!(!before.is_newer_than(&after));
}

#[test]
fn order_holds_across_the_wrap_within_half_the_range() {
    let before = status(i16::MAX - 10, 0, "");
    let after = status(i16::MIN + 10, 0, "");
    assert!(after.is_newer_than(&before));
    let far = status(-1, 0, "");
    let zero = status(0, 0, "");
    assert!(zero.is_newer_than(&far));
    // Half the range apart, each counts as older than the other.
    let opposite = status(i16::MIN, 0, "");
    assert_eq!(opposite.cmp(&zero), Ordering::Less);
    assert_eq!(zero.cmp(&opposite), Ordering::Less);
}

#[test]
fn next_advances_the_sequence_and_keeps_the_text() {
    let s = status(41, 3, "hello");
    let n = s.next(7);
    assert_eq!(n.sequence, 42);
    assert_eq!(n.clients, 7);
    assert_eq!(n.text, "hello");
    assert!(n.is_newer_than(&s));
}

#[test]
fn next_wraps_at_the_maximum() {
    let s = status(i16::MAX, 0, "t");
    let n = s.next(0);
    assert_eq!(n.sequence, i16::MIN);
    assert!(n.is_newer_than(&s));
}

#[test]
fn next_caps_the_member_count() {
    let s = status(0, 0, "");
    assert_eq!(s.next(u32::MAX as usize).clients, u32::MAX);
    if usize::BITS > 32 {
        assert_eq!(s.next(usize::MAX).clients, u32::MAX);
    }
}

#[test]
fn diff_of_equal_statuses_is_none() {
    let a = status(3, 2, "text");
    assert_eq!(a.diff(&a.clone()), None);
    // The sequence is not part of a patch.
    let b = status(9, 2, "text");
    assert_eq!(b.diff(&a), None);
}

#[test]
fn diff_with_only_text_changed_has_only_the_text_segment() {
    let prev = status(1, 2, "old");
    let cur = status(2, 2, "new text");
    assert_eq!(cur.diff(&prev), Some("$new text".to_string()));
}

#[test]
fn diff_with_only_count_changed_has_only_the_count_segment() {
    let prev = status(1, 2, "same");
    let cur = status(2, 5, "same");
    assert_eq!(cur.diff(&prev), Some("n5".to_string()));
}

#[test]
fn diff_with_both_changed_puts_the_count_first() {
    let prev = status(1, 2, "old");
    let cur = status(2, 3, "new");
    assert_eq!(cur.diff(&prev), Some("n3$new".to_string()));
}

#[test]
fn diff_writes_the_count_in_decimal() {
    let prev = status(0, 1, "");
    assert_eq!(status(1, 0, "").diff(&prev), Some("n0".to_string()));
    assert_eq!(status(1, 10, "").diff(&prev), Some("n10".to_string()));
    assert_eq!(status(1, 907, "").diff(&prev), Some("n907".to_string()));
    assert_eq!(status(1, u32::MAX, "").diff(&prev), Some("n4294967295".to_string()));
}

#[test]
fn diff_to_an_empty_text_keeps_the_marker() {
    let prev = status(1, 1, "gone");
    let cur = status(2, 1, "");
    assert_eq!(cur.diff(&prev), Some("$".to_string()));
}

#[test]
fn diff_carries_text_with_markers_in_it_unchanged() {
    let prev = status(1, 1, "");
    let cur = status(2, 4, "n7$ x $n");
    assert_eq!(cur.diff(&prev), Some("n4$n7$ x $n".to_string()));
}

#[test]
fn clone_keeps_all_fields() {
    let a = status(-3, 8, "héllo");
    let b = a.clone();
    assert_eq!(a, b);
}
