use lightyear_interpolation::{HistoryBuffer, HistoryState, Tick};

#[test]
fn tick_differences_saturate() {
    assert_eq!(Tick(7) - Tick(3), 4);
    assert_eq!(Tick(3) - Tick(7), -4);
    assert_eq!(Tick(u32::MAX) - Tick(0), i32::MAX);
    assert_eq!(Tick(0) - Tick(u32::MAX), i32::MIN);
    assert_eq!(Tick(2147483648) - Tick(0), i32::MAX);
    assert_eq!(Tick(0) - Tick(2147483648), i32::MIN);
    assert!(Tick(u32::MAX) > Tick(0));
}

#[test]
fn buffer_keeps_entries_oldest_first() {
    let mut buffer = HistoryBuffer::<u8>::default();
    assert_eq!(buffer.most_recent(), None);
    assert_eq!(buffer.pop(), None);
    buffer.add_update(Tick(1), 10);
    buffer.add_update(Tick(4), 40);
    assert_eq!(buffer.len(), 2);
    assert_eq!(buffer.get_nth(0), Some(&(Tick(1), HistoryState::Updated(10))));
    assert_eq!(buffer.get_nth(2), None);
    assert_eq!(buffer.most_recent(), Some(&(Tick(4), HistoryState::Updated(40))));
    assert_eq!(buffer.pop(), Some((Tick(1), HistoryState::Updated(10))));
    assert_eq!(buffer.len(), 1);
}

#[test]
fn update_at_the_most_recent_tick_replaces_it() {
    let mut buffer = HistoryBuffer::<u8>::default();
    buffer.add_update(Tick(4), 40);
    buffer.add_update(Tick(4), 41);
    assert_eq!(buffer.len(), 1);
    assert_eq!(buffer.most_recent(), Some(&(Tick(4), HistoryState::Updated(41))));
}

#[test]
fn most_recent_tick_moves_without_its_state() {
    let mut buffer = HistoryBuffer::<u8>::default();
    buffer.set_most_recent_tick(Tick(3));
    assert_eq!(buffer.len(), 0);
    buffer.add_update(Tick(4), 40);
    buffer.set_most_recent_tick(Tick(6));
    assert_eq!(buffer.len(), 1);
    assert_eq!(buffer.most_recent(), Some(&(Tick(6), HistoryState::Updated(40))));
    buffer.set_most_recent_tick(Tick(5));
    assert_eq!(buffer.most_recent(), Some(&(Tick(5), HistoryState::Updated(40))));
}

#[test]
fn sorted_additions_find_their_place() {
    let mut buffer = HistoryBuffer::<u8>::default();
    buffer.add_update_sorted(Tick(5), 50);
    buffer.add_update_sorted(Tick(1), 10);
    buffer.add_remove_sorted(Tick(3));
    buffer.add_update_sorted(Tick(5), 51);
    assert_eq!(buffer.len(), 3);
    assert_eq!(buffer.get_nth(0), Some(&(Tick(1), HistoryState::Updated(10))));
    assert_eq!(buffer.get_nth(1), Some(&(Tick(3), HistoryState::Removed)));
    assert_eq!(buffer.get_nth(2), Some(&(Tick(5), HistoryState::Updated(51))));
}

#[test]
fn buffers_are_equal_when_their_ticks_are() {
    let mut a = HistoryBuffer::<u8>::default();
    let mut b = HistoryBuffer::<u8>::default();
    assert!(a == b);
    a.add_update(Tick(1), 10);
    assert!(a != b);
    b.add_remove_sorted(Tick(1));
    assert!(a == b);
    b.set_most_recent_tick(Tick(2));
    assert!(a != b);
}
