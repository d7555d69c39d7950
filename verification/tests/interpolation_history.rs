use lightyear_interpolation::{
    insert_confirmed_history_on_interpolated, Backfill, ConfirmedHistory, ConfirmedHistorySample,
    InterpolationWindow, Keyframes, Tick,
};
use std::collections::HashMap;

#[derive(Clone, Debug, PartialEq)]
struct TestComp(f32);

fn lerp(start: TestComp, end: TestComp, t: f32) -> TestComp {
    TestComp(start.0 + (end.0 - start.0) * t)
}

/// Interpolates linearly, by the clamped fraction of the window.
fn registry(overstep: f32) -> impl FnOnce(TestComp, TestComp, InterpolationWindow) -> TestComp {
    move |start, end, window| {
        let fraction =
            ((window.elapsed as f32 + overstep) / window.span as f32).clamp(0.0, 1.0);
        lerp(start, end, fraction)
    }
}

type Blend = fn(TestComp, TestComp, InterpolationWindow) -> TestComp;

/// The history with the given values, pushed in the given order; the value is the tick itself.
fn pushed(ticks: &[u32]) -> ConfirmedHistory<TestComp> {
    let mut history = ConfirmedHistory::<TestComp>::default();
    for tick in ticks {
        history.push(Tick(*tick), TestComp(*tick as f32));
    }
    history
}

/// The entries, each as the history has it at the tick of the entry.
fn entries(history: &ConfirmedHistory<TestComp>) -> Vec<(u32, Option<f32>)> {
    (0..history.len())
        .map(|n| {
            let tick = history.get_nth_tick(n).unwrap();
            match history.sample(tick, None::<Blend>) {
                ConfirmedHistorySample::Present(value) => (tick.0, Some(value.0)),
                ConfirmedHistorySample::Removed => (tick.0, None),
                ConfirmedHistorySample::Pending => panic!("no entry at {tick:?}"),
            }
        })
        .collect()
}

/// A burst of late packets can deliver confirmed updates out of tick order. The value is the tick
/// for motion at constant velocity: the update for tick 1165 arrives, then late packets for 1159
/// and 1152.
#[test]
fn out_of_order_pushes_keep_history_sorted_and_sample_correct() {
    let mut history = ConfirmedHistory::<TestComp>::default();
    history.push(Tick(1146), TestComp(1146.0));
    history.push(Tick(1165), TestComp(1165.0));
    history.push(Tick(1159), TestComp(1159.0));
    history.push(Tick(1152), TestComp(1152.0));

    let nth = |h: &ConfirmedHistory<TestComp>, n| h.get_nth(n).map(|(t, _)| t.0 as i64);
    assert_eq!(nth(&history, 0), Some(1146));
    assert_eq!(nth(&history, 1), Some(1152));
    assert_eq!(nth(&history, 2), Some(1159));
    assert_eq!(nth(&history, 3), Some(1165));
    assert_eq!(nth(&history, 4), None);

    // A duplicate tick from a late update replaces in place: the newest value wins.
    history.push(Tick(1159), TestComp(1159.5));
    assert_eq!(
        history.get_nth(2).map(|(t, v)| (t.0 as i64, v.0)),
        Some((1159, 1159.5))
    );
    let len = (0..).take_while(|n| history.get_nth(*n).is_some()).count();
    assert_eq!(len, 4, "duplicate tick must dedup, not grow the buffer");

    // Sampling at tick 1165 returns the value for that tick, not the stale one for 1152.
    match history.sample(Tick(1165), Some(registry(0.0))) {
        ConfirmedHistorySample::Present(v) => assert_eq!(v, TestComp(1165.0)),
        other => panic!("expected Present(1165.0), got {other:?}"),
    }
}

#[test]
fn interpolate_clamps_to_newest_value_when_tick_is_past_end() {
    let mut history = ConfirmedHistory::<TestComp>::default();
    history.push(Tick(10), TestComp(0.0));
    history.push(Tick(20), TestComp(10.0));

    assert_eq!(
        history.interpolate(Tick(30), registry(0.0)),
        Some(TestComp(10.0))
    );
    assert_eq!(
        history.interpolate(Tick(20), registry(0.5)),
        Some(TestComp(10.0))
    );
}

#[test]
fn interpolate_returns_none_with_single_keyframe() {
    let mut history = ConfirmedHistory::<TestComp>::default();
    history.push(Tick(10), TestComp(42.0));

    assert_eq!(history.interpolate(Tick(10), registry(0.0)), None);
    assert_eq!(history.interpolate(Tick(50), registry(0.5)), None);
}

#[test]
fn inserts_history_when_interpolated_added_after_component_is_already_replicated() {
    let mut checkpoints = HashMap::<u32, Tick>::new();
    let replicon_tick = 11;
    checkpoints.insert(replicon_tick, Tick(42));

    let live = TestComp(2.0);
    let tick = checkpoints.get(&replicon_tick).copied();
    let history = match insert_confirmed_history_on_interpolated(Some(&live), tick) {
        Backfill::Replace(history) => history,
        other => panic!("live interpolated component should be removed until the interpolation timeline reaches the history start tick, got {other:?}"),
    };

    assert_eq!(
        history.start().map(|(tick, value)| (tick, value.clone())),
        Some((Tick(42), TestComp(2.0)))
    );
    assert_eq!(history.len(), 1);
}

#[test]
fn backfill_leaves_other_entities_alone() {
    assert!(matches!(
        insert_confirmed_history_on_interpolated::<TestComp>(None, Some(Tick(1))),
        Backfill::Skip
    ));
    assert!(matches!(
        insert_confirmed_history_on_interpolated::<TestComp>(None, None),
        Backfill::Skip
    ));
    assert!(matches!(
        insert_confirmed_history_on_interpolated(Some(&TestComp(2.0)), None),
        Backfill::MissingCheckpoint
    ));
}

#[test]
fn empty_history_has_nothing() {
    let mut history = ConfirmedHistory::<TestComp>::default();
    assert_eq!(history.len(), 0);
    assert_eq!(history.get_nth_tick(0), None);
    assert_eq!(history.get_nth(0), None);
    assert_eq!(history.start(), None);
    assert_eq!(history.end(), None);
    assert_eq!(history.newest(), None);
    assert_eq!(history.pop(), None);
    assert_eq!(history.push_unchanged(Tick(5)), None);
    assert_eq!(history.len(), 0);
    assert_eq!(
        history.sample(Tick(u32::MAX), None::<Blend>),
        ConfirmedHistorySample::Pending
    );
    assert_eq!(history.interpolate(Tick(0), registry(0.0)), None);
}

#[test]
fn accessors_read_the_ends_of_the_history() {
    let history = pushed(&[3, 8, 12]);
    assert_eq!(history.len(), 3);
    assert_eq!(history.start(), Some((Tick(3), &TestComp(3.0))));
    assert_eq!(history.end(), Some((Tick(8), &TestComp(8.0))));
    assert_eq!(history.newest(), Some((Tick(12), &TestComp(12.0))));
    assert_eq!(history.get_nth_tick(2), Some(Tick(12)));
    assert_eq!(history.get_nth_tick(3), None);
}

#[test]
fn removals_count_but_have_no_value() {
    let mut history = pushed(&[3]);
    history.push_remove(Tick(7));
    assert_eq!(entries(&history), vec![(3, Some(3.0)), (7, None)]);
    assert_eq!(history.newest(), None);
    assert_eq!(history.end(), None);
    assert_eq!(history.get_nth_tick(1), Some(Tick(7)));
    assert_eq!(history.push_unchanged(Tick(9)), None);
    assert_eq!(history.get_nth_tick(2), None);
    assert_eq!(history.interpolate(Tick(4), registry(0.0)), None);

    // A removal that arrives late goes where its tick belongs, or replaces what was there.
    history.push_remove(Tick(5));
    history.push_remove(Tick(3));
    assert_eq!(entries(&history), vec![(3, None), (5, None), (7, None)]);
    assert_eq!(history.interpolate(Tick(4), registry(0.0)), None);
}

#[test]
fn values_are_counted_skipping_removals() {
    let mut history = ConfirmedHistory::<TestComp>::default();
    history.push_remove(Tick(5));
    history.push(Tick(10), TestComp(1.0));
    history.push_remove(Tick(20));
    history.push(Tick(30), TestComp(3.0));
    assert_eq!(history.get_nth(0), Some((Tick(10), &TestComp(1.0))));
    assert_eq!(history.get_nth(1), Some((Tick(30), &TestComp(3.0))));
    assert_eq!(history.get_nth(2), None);
    assert_eq!(history.start(), Some((Tick(10), &TestComp(1.0))));
    assert_eq!(history.end(), Some((Tick(30), &TestComp(3.0))));
    assert_eq!(history.get_nth_tick(1), Some(Tick(10)));
    assert_eq!(history.get_nth_tick(2), Some(Tick(20)));
    assert_eq!(history.len(), 4);
    assert_eq!(history.interpolate(Tick(9), registry(0.0)), None);
    assert_eq!(history.interpolate(Tick(15), registry(0.0)), Some(TestComp(1.5)));
}

#[test]
fn pushes_in_any_order_give_the_same_history() {
    let ordered = entries(&pushed(&[0, 4, 9, u32::MAX]));
    assert_eq!(
        ordered,
        vec![
            (0, Some(0.0)),
            (4, Some(4.0)),
            (9, Some(9.0)),
            (u32::MAX, Some(u32::MAX as f32))
        ]
    );
    assert_eq!(entries(&pushed(&[u32::MAX, 9, 4, 0])), ordered);
    assert_eq!(entries(&pushed(&[4, u32::MAX, 0, 9])), ordered);
    assert_eq!(entries(&pushed(&[9, 0, 9, u32::MAX, 4, 4])), ordered);
}

#[test]
fn last_push_for_a_tick_wins() {
    let mut history = pushed(&[1, 2, 3]);
    history.push_remove(Tick(2));
    assert_eq!(entries(&history), vec![(1, Some(1.0)), (2, None), (3, Some(3.0))]);
    history.push(Tick(2), TestComp(2.5));
    assert_eq!(entries(&history), vec![(1, Some(1.0)), (2, Some(2.5)), (3, Some(3.0))]);
    history.push(Tick(3), TestComp(3.5));
    assert_eq!(history.newest(), Some((Tick(3), &TestComp(3.5))));
    assert_eq!(history.len(), 3);
}

#[test]
fn pops_come_oldest_first() {
    let mut history = pushed(&[9, 2, 5]);
    history.push_remove(Tick(5));
    assert_eq!(history.pop(), Some((Tick(2), TestComp(2.0))));
    assert_eq!(history.pop(), None);
    assert_eq!(history.len(), 1);
    assert_eq!(history.pop(), Some((Tick(9), TestComp(9.0))));
    assert_eq!(history.pop(), None);
    assert_eq!(history.len(), 0);
}

#[test]
fn pop_keeps_later_samples() {
    let mut history = pushed(&[10, 20, 30]);
    let before = history.sample(Tick(25), Some(registry(0.0)));
    assert_eq!(before, ConfirmedHistorySample::Present(TestComp(25.0)));
    history.pop();
    assert_eq!(history.sample(Tick(25), Some(registry(0.0))), before);
    history.pop();
    assert_eq!(
        history.sample(Tick(25), Some(registry(0.0))),
        ConfirmedHistorySample::Pending
    );
}

#[test]
fn unchanged_ticks_share_one_anchor() {
    let mut history = pushed(&[10]);
    assert_eq!(history.push_unchanged(Tick(10)), None);
    assert_eq!(history.push_unchanged(Tick(9)), None);
    assert_eq!(history.push_unchanged(Tick(12)), Some(Tick(10)));
    assert_eq!(entries(&history), vec![(10, Some(10.0)), (12, Some(10.0))]);
    assert_eq!(history.push_unchanged(Tick(15)), Some(Tick(12)));
    assert_eq!(entries(&history), vec![(10, Some(10.0)), (15, Some(10.0))]);
    assert_eq!(history.push_unchanged(Tick(15)), None);
    assert_eq!(entries(&history), vec![(10, Some(10.0)), (15, Some(10.0))]);

    // An update ends the run: the next unchanged tick gets an anchor of its own.
    history.push(Tick(20), TestComp(20.0));
    assert_eq!(history.push_unchanged(Tick(22)), Some(Tick(20)));
    assert_eq!(
        entries(&history),
        vec![
            (10, Some(10.0)),
            (15, Some(10.0)),
            (20, Some(20.0)),
            (22, Some(20.0))
        ]
    );

    // A late one does not: the anchor is still the newest entry, and slides on.
    history.push(Tick(17), TestComp(17.0));
    history.push_remove(Tick(18));
    assert_eq!(history.push_unchanged(Tick(30)), Some(Tick(22)));
    assert_eq!(
        entries(&history),
        vec![
            (10, Some(10.0)),
            (15, Some(10.0)),
            (17, Some(17.0)),
            (18, None),
            (20, Some(20.0)),
            (30, Some(20.0))
        ]
    );

    // An update at the tick of the anchor takes its place, and ends the run too.
    history.push(Tick(30), TestComp(33.0));
    assert_eq!(history.push_unchanged(Tick(31)), Some(Tick(30)));
    assert_eq!(history.len(), 7);
    history.push_remove(Tick(31));
    assert_eq!(history.push_unchanged(Tick(32)), None);
}

#[test]
fn unchanged_anchor_slides_over_a_late_push() {
    let mut history = ConfirmedHistory::<TestComp>::default();
    history.push(Tick(10), TestComp(1.0));
    history.push_unchanged(Tick(20));
    history.push(Tick(15), TestComp(5.0));
    assert_eq!(history.push_unchanged(Tick(30)), Some(Tick(20)));
    assert_eq!(
        entries(&history),
        vec![(10, Some(1.0)), (15, Some(5.0)), (30, Some(1.0))]
    );
    assert_eq!(history.newest(), Some((Tick(30), &TestComp(1.0))));
}

#[test]
fn run_of_unchanged_ticks_leaves_what_its_last_tick_leaves() {
    let mut run = pushed(&[3, 10]);
    for tick in [11, 14, 20] {
        run.push_unchanged(Tick(tick));
    }
    let mut alone = pushed(&[3, 10]);
    alone.push_unchanged(Tick(20));
    assert!(run == alone);
    assert_eq!(entries(&run), entries(&alone));
    assert_eq!(run.len(), 3);
}

#[test]
fn unchanged_ticks_keep_samples() {
    let mut history = pushed(&[10, 20]);
    let sampled = |history: &ConfirmedHistory<TestComp>| -> Vec<_> {
        (5..40)
            .map(|tick| history.sample(Tick(tick), Some(registry(0.25))))
            .collect()
    };
    let before = sampled(&history);
    history.push_unchanged(Tick(25));
    assert_eq!(sampled(&history), before);
    history.push_unchanged(Tick(35));
    assert_eq!(sampled(&history), before);

    // A late update that brings the value the anchor repeats makes no difference.
    history.push(Tick(30), TestComp(20.0));
    assert_eq!(sampled(&history), before);
    history.push_unchanged(Tick(38));
    assert_eq!(history.len(), 4);
    assert_eq!(sampled(&history), before);

    // One that brings another value does, from its tick to the anchor, and further as that slides.
    history.push(Tick(32), TestComp(0.0));
    let parted = sampled(&history);
    history.push_unchanged(Tick(39));
    let slid = sampled(&history);
    assert_eq!(slid[..27], parted[..27]);
    assert!(slid[27] != parted[27]);
    assert_eq!(slid[34], parted[34]);
}

#[test]
fn only_anchor_takes_the_start_of_the_history_along() {
    let mut history = pushed(&[10]);
    history.push_unchanged(Tick(20));
    history.pop();
    let at = |history: &ConfirmedHistory<TestComp>, tick| history.sample(Tick(tick), None::<Blend>);
    assert_eq!(at(&history, 19), ConfirmedHistorySample::Pending);
    assert_eq!(at(&history, 25), ConfirmedHistorySample::Present(TestComp(10.0)));
    history.push_unchanged(Tick(30));
    assert_eq!(at(&history, 19), ConfirmedHistorySample::Pending);
    assert_eq!(at(&history, 25), ConfirmedHistorySample::Pending);
    assert_eq!(at(&history, 30), ConfirmedHistorySample::Present(TestComp(10.0)));
}

#[test]
fn unchanged_tick_after_a_late_push_repeats_the_most_recent_value() {
    let mut history = pushed(&[10, 20]);
    history.push(Tick(15), TestComp(15.0));
    assert_eq!(history.push_unchanged(Tick(25)), Some(Tick(20)));
    assert_eq!(history.newest(), Some((Tick(25), &TestComp(20.0))));
    for at in [25, 26, u32::MAX] {
        assert_eq!(
            history.sample(Tick(at), Some(registry(0.0))),
            ConfirmedHistorySample::Present(TestComp(20.0))
        );
    }
    assert_eq!(
        history.sample(Tick(22), Some(registry(0.5))),
        ConfirmedHistorySample::Present(TestComp(20.0))
    );
}

#[test]
fn unchanged_anchor_survives_pops_until_the_history_is_empty() {
    let mut history = pushed(&[10]);
    history.push_unchanged(Tick(12));
    assert_eq!(history.pop(), Some((Tick(10), TestComp(10.0))));
    assert_eq!(history.push_unchanged(Tick(14)), Some(Tick(12)));
    assert_eq!(entries(&history), vec![(14, Some(10.0))]);
    assert_eq!(history.pop(), Some((Tick(14), TestComp(10.0))));

    history.push(Tick(20), TestComp(20.0));
    assert_eq!(history.push_unchanged(Tick(21)), Some(Tick(20)));
    assert_eq!(history.len(), 2);
}

#[test]
fn sample_follows_the_states_of_the_history() {
    let mut history = pushed(&[10, 20]);
    history.push_remove(Tick(30));
    history.push(Tick(40), TestComp(40.0));
    let at = |tick| history.sample(Tick(tick), Some(registry(0.0)));
    assert_eq!(at(9), ConfirmedHistorySample::Pending);
    assert_eq!(at(10), ConfirmedHistorySample::Present(TestComp(10.0)));
    assert_eq!(at(15), ConfirmedHistorySample::Present(TestComp(15.0)));
    assert_eq!(at(20), ConfirmedHistorySample::Present(TestComp(20.0)));
    assert_eq!(at(29), ConfirmedHistorySample::Present(TestComp(20.0)));
    assert_eq!(at(30), ConfirmedHistorySample::Removed);
    assert_eq!(at(39), ConfirmedHistorySample::Removed);
    assert_eq!(at(40), ConfirmedHistorySample::Present(TestComp(40.0)));
    assert_eq!(at(u32::MAX), ConfirmedHistorySample::Present(TestComp(40.0)));
    assert_eq!(
        history.sample(Tick(12), Some(registry(0.5))),
        ConfirmedHistorySample::Present(TestComp(12.5))
    );
}

#[test]
fn sample_holds_the_start_without_an_interpolation_function() {
    let history = pushed(&[10, 20]);
    assert_eq!(
        history.sample(Tick(15), None::<Blend>),
        ConfirmedHistorySample::Present(TestComp(10.0))
    );
    assert_eq!(history.keyframes(Tick(15), false), Keyframes::Hold(&TestComp(10.0)));
}

#[test]
fn keyframes_give_the_window() {
    let history = pushed(&[10, 20]);
    assert_eq!(
        history.keyframes(Tick(13), true),
        Keyframes::Blend {
            start: &TestComp(10.0),
            end: &TestComp(20.0),
            window: InterpolationWindow {
                start_tick: Tick(10),
                end_tick: Tick(20),
                elapsed: 3,
                span: 10,
            },
        }
    );
    assert_eq!(history.keyframes(Tick(9), true), Keyframes::Pending);
    assert_eq!(history.keyframes(Tick(20), true), Keyframes::Hold(&TestComp(20.0)));
}

#[test]
fn late_push_before_the_start_keyframe_leaves_a_sample_alone() {
    let mut history = pushed(&[10, 20, 30]);
    let before = history.sample(Tick(25), Some(registry(0.25)));
    assert_eq!(before, ConfirmedHistorySample::Present(TestComp(25.25)));
    history.push(Tick(15), TestComp(-1.0));
    history.push(Tick(35), TestComp(-1.0));
    assert_eq!(history.sample(Tick(25), Some(registry(0.25))), before);
    history.push(Tick(25), TestComp(0.5));
    assert_eq!(
        history.sample(Tick(25), Some(registry(0.0))),
        ConfirmedHistorySample::Present(TestComp(0.5))
    );
}

#[test]
fn interpolate_uses_the_two_oldest_keyframes() {
    let history = pushed(&[10, 20, 30]);
    assert_eq!(history.interpolate(Tick(9), registry(0.9)), None);
    assert_eq!(history.interpolate(Tick(10), registry(0.0)), Some(TestComp(10.0)));
    assert_eq!(history.interpolate(Tick(14), registry(0.5)), Some(TestComp(14.5)));
    assert_eq!(history.interpolate(Tick(25), registry(0.0)), Some(TestComp(20.0)));
    assert_eq!(
        history.sample(Tick(14), Some(registry(0.5))),
        ConfirmedHistorySample::Present(TestComp(14.5))
    );
}

#[test]
fn push_behind_the_second_value_leaves_interpolation_alone() {
    let mut history = pushed(&[10, 20]);
    let before = history.interpolate(Tick(14), registry(0.5));
    assert_eq!(before, Some(TestComp(14.5)));
    history.push(Tick(21), TestComp(-1.0));
    history.push_remove(Tick(22));
    assert_eq!(history.interpolate(Tick(14), registry(0.5)), before);
    history.push(Tick(20), TestComp(30.0));
    assert_eq!(history.interpolate(Tick(15), registry(0.0)), Some(TestComp(20.0)));
}

#[test]
fn equality_compares_ticks_and_the_unchanged_mark() {
    let history = pushed(&[1, 2]);
    let mut other = ConfirmedHistory::<TestComp>::default();
    other.push(Tick(1), TestComp(5.0));
    assert!(history != other);
    other.push_remove(Tick(2));
    assert!(history == other);

    let mut unchanged = pushed(&[1]);
    unchanged.push_unchanged(Tick(2));
    assert!(history != unchanged);
    assert!(history != pushed(&[1, 3]));
    assert!(unchanged == unchanged);
}
