//! What holds of histories as a whole: how updates, confirmations, pops and samples relate.

use crate::history_buffer::HistoryState;
use crate::interpolation_history::{
    self as history, ConfirmedHistory, ConfirmedHistorySample, InterpolationWindow, Keyframes,
};
use crate::tick::Tick;
use crate::timeline::{self, Entries};
use vstd::prelude::*;

pub mod entrywise;

verus! {

/// `entries` after a series of updates and removals arrived, in the order given.
pub open spec fn replay<C>(entries: Entries<C>, arrivals: Entries<C>) -> Entries<C>
    decreases arrivals.len(),
{
    if arrivals.len() == 0 {
        entries
    } else {
        timeline::with_entry(
            replay(entries, arrivals.drop_last()),
            arrivals.last().0,
            arrivals.last().1,
        )
    }
}

/// No two of the arrivals are for the same tick.
pub open spec fn distinct_ticks<C>(arrivals: Entries<C>) -> bool {
    forall|i: int, j: int|
        #![trigger arrivals[i], arrivals[j]]
        0 <= i < j < arrivals.len() ==> arrivals[i].0 != arrivals[j].0
}

/// An ordered history is determined by which entries it holds.
proof fn lemma_ordered_unique<C>(left: Entries<C>, right: Entries<C>)
    requires
        timeline::ordered(left),
        timeline::ordered(right),
        forall|entry: (Tick, HistoryState<C>)| #[trigger]
            left.contains(entry) <==> right.contains(entry),
    ensures
        left == right,
    decreases left.len() + right.len(),
{
    if left.len() == 0 {
        if right.len() > 0 {
            assert(right.contains(right[0]));
            assert(left.contains(right[0]));
        }
        assert(left =~= right);
    } else if right.len() == 0 {
        assert(left.contains(left[0]));
        assert(right.contains(left[0]));
    } else {
        let l = left.len() - 1;
        let r = right.len() - 1;
        assert(left.contains(left[l]));
        assert(right.contains(right[r]));
        assert(left.contains(right[r]));
        let in_right = choose|i: int| 0 <= i < right.len() && right[i] == left[l];
        let in_left = choose|i: int| 0 <= i < left.len() && left[i] == right[r];
        assert(right[in_right] == left[l]);
        assert(left[in_left] == right[r]);
        assert(left[l] == right[r]);
        let left_rest = left.drop_last();
        let right_rest = right.drop_last();
        assert forall|entry: (Tick, HistoryState<C>)| #[trigger]
            left_rest.contains(entry) <==> right_rest.contains(entry) by {
            if left_rest.contains(entry) {
                let i = choose|i: int| 0 <= i < left_rest.len() && left_rest[i] == entry;
                assert(left[i] == entry);
                assert(left.contains(entry));
                assert(right.contains(entry));
                let j = choose|j: int| 0 <= j < right.len() && right[j] == entry;
                assert(left[i].0.0 < left[l].0.0);
                assert(right_rest[j] == entry);
            }
            if right_rest.contains(entry) {
                let i = choose|i: int| 0 <= i < right_rest.len() && right_rest[i] == entry;
                assert(right[i] == entry);
                assert(right.contains(entry));
                assert(left.contains(entry));
                let j = choose|j: int| 0 <= j < left.len() && left[j] == entry;
                assert(right[i].0.0 < right[r].0.0);
                assert(left_rest[j] == entry);
            }
        }
        lemma_ordered_unique(left_rest, right_rest);
        assert(left =~= left_rest.push(left[l]));
        assert(right =~= right_rest.push(right[r]));
    }
}

/// The state that arrived last for `tick`.
pub open spec fn last_arrival<C>(arrivals: Entries<C>, tick: Tick) -> Option<HistoryState<C>>
    decreases arrivals.len(),
{
    if arrivals.len() == 0 {
        None
    } else if arrivals.last().0 == tick {
        Some(arrivals.last().1)
    } else {
        last_arrival(arrivals.drop_last(), tick)
    }
}

/// What a history holds after a series of arrivals.
proof fn lemma_replay<C>(entries: Entries<C>, arrivals: Entries<C>)
    requires
        timeline::ordered(entries),
    ensures
        timeline::ordered(replay(entries, arrivals)),
        forall|entry: (Tick, HistoryState<C>)| #[trigger]
            replay(entries, arrivals).contains(entry) <==> match last_arrival(arrivals, entry.0) {
                Some(state) => state == entry.1,
                None => entries.contains(entry),
            },
    decreases arrivals.len(),
{
    if arrivals.len() > 0 {
        let earlier = arrivals.drop_last();
        lemma_replay(entries, earlier);
        timeline::lemma_with_entry(
            replay(entries, earlier),
            arrivals.last().0,
            arrivals.last().1,
        );
    }
}

/// When arrivals are for distinct ticks, each of them is the last for its tick.
proof fn lemma_last_arrival_distinct<C>(arrivals: Entries<C>, tick: Tick)
    requires
        distinct_ticks(arrivals),
    ensures
        forall|state: HistoryState<C>| #[trigger]
            arrivals.contains((tick, state)) <==> last_arrival(arrivals, tick) == Some(state),
    decreases arrivals.len(),
{
    if arrivals.len() > 0 {
        let earlier = arrivals.drop_last();
        let n = arrivals.len() - 1;
        lemma_last_arrival_distinct(earlier, tick);
        assert forall|state: HistoryState<C>| #[trigger]
            arrivals.contains((tick, state)) <==> last_arrival(arrivals, tick) == Some(state) by {
            assert(earlier.contains((tick, state)) <==> last_arrival(earlier, tick) == Some(state));
            if arrivals.contains((tick, state)) {
                let i = choose|i: int| 0 <= i < arrivals.len() && arrivals[i] == (tick, state);
                if i < n {
                    assert(arrivals[i].0 != arrivals[n].0);
                    assert(earlier[i] == (tick, state));
                }
            }
            if earlier.contains((tick, state)) {
                let i = choose|i: int| 0 <= i < earlier.len() && earlier[i] == (tick, state);
                assert(arrivals[i] == (tick, state));
            }
            if arrivals[n].0 == tick && last_arrival(arrivals, tick) == Some(state) {
                assert(arrivals[n] == (tick, state));
            }
        }
    }
}

/// A history depends on what arrived last for each tick, and on nothing else about the order of
/// arrivals.
pub proof fn law_last_arrivals_decide<C>(
    entries: Entries<C>,
    arrivals: Entries<C>,
    others: Entries<C>,
)
    requires
        timeline::ordered(entries),
        forall|tick: Tick| #[trigger] last_arrival(arrivals, tick) == last_arrival(others, tick),
    ensures
        replay(entries, arrivals) == replay(entries, others),
        timeline::ordered(replay(entries, arrivals)),
{
    lemma_replay(entries, arrivals);
    lemma_replay(entries, others);
    assert forall|entry: (Tick, HistoryState<C>)| #[trigger]
        replay(entries, arrivals).contains(entry) <==> replay(entries, others).contains(entry) by {
        assert(last_arrival(arrivals, entry.0) == last_arrival(others, entry.0));
    }
    lemma_ordered_unique(replay(entries, arrivals), replay(entries, others));
}

/// Whatever the order in which updates and removals for different ticks arrive, the same history
/// comes of them.
pub proof fn law_arrival_order_is_irrelevant<C>(
    entries: Entries<C>,
    arrivals: Entries<C>,
    reordered: Entries<C>,
)
    requires
        timeline::ordered(entries),
        distinct_ticks(arrivals),
        arrivals.to_multiset() == reordered.to_multiset(),
    ensures
        replay(entries, arrivals) == replay(entries, reordered),
{
    arrivals.to_multiset_ensures();
    reordered.to_multiset_ensures();
    assert forall|entry: (Tick, HistoryState<C>)| #[trigger]
        arrivals.contains(entry) <==> reordered.contains(entry) by {
        assert(arrivals.to_multiset().count(entry) > 0 <==> arrivals.contains(entry));
        assert(reordered.to_multiset().count(entry) > 0 <==> reordered.contains(entry));
    }
    arrivals.lemma_multiset_has_no_duplicates();
    reordered.lemma_multiset_has_no_duplicates_conv();
    assert forall|i: int, j: int|
        #![trigger reordered[i], reordered[j]]
        0 <= i < j < reordered.len() implies reordered[i].0 != reordered[j].0 by {
        assert(arrivals.contains(reordered[i]) && arrivals.contains(reordered[j]));
        let a = choose|a: int| 0 <= a < arrivals.len() && arrivals[a] == reordered[i];
        let b = choose|b: int| 0 <= b < arrivals.len() && arrivals[b] == reordered[j];
        assert(arrivals[a] != arrivals[b]);
    }
    assert forall|tick: Tick| #[trigger]
        last_arrival(arrivals, tick) == last_arrival(reordered, tick) by {
        lemma_last_arrival_distinct(arrivals, tick);
        lemma_last_arrival_distinct(reordered, tick);
        if let Some(state) = last_arrival(arrivals, tick) {
            assert(arrivals.contains((tick, state)));
            assert(reordered.contains((tick, state)));
        }
        if let Some(state) = last_arrival(reordered, tick) {
            assert(reordered.contains((tick, state)));
            assert(arrivals.contains((tick, state)));
        }
    }
    law_last_arrivals_decide(entries, arrivals, reordered);
}

/// Of two updates for the same tick the one that arrives last counts, and the first leaves no
/// trace.
pub proof fn law_last_arrival_wins<C>(
    entries: Entries<C>,
    tick: Tick,
    first: HistoryState<C>,
    last: HistoryState<C>,
)
    requires
        timeline::ordered(entries),
    ensures
        timeline::with_entry(timeline::with_entry(entries, tick, first), tick, last)
            == timeline::with_entry(entries, tick, last),
{
    timeline::lemma_with_entry(entries, tick, first);
    timeline::lemma_with_entry(timeline::with_entry(entries, tick, first), tick, last);
    timeline::lemma_with_entry(entries, tick, last);
    lemma_ordered_unique(
        timeline::with_entry(timeline::with_entry(entries, tick, first), tick, last),
        timeline::with_entry(entries, tick, last),
    );
}

/// Recording a state adds one entry for a tick that had none, and no entry for any other.
pub proof fn law_push_deduplicates<C>(entries: Entries<C>, tick: Tick, state: HistoryState<C>)
    requires
        timeline::ordered(entries),
    ensures
        timeline::ordered(timeline::with_entry(entries, tick, state)),
        timeline::with_entry(entries, tick, state).len() == if timeline::has_tick(entries, tick) {
            entries.len()
        } else {
            entries.len() + 1
        },
        forall|entry: (Tick, HistoryState<C>)| #[trigger]
            timeline::with_entry(entries, tick, state).contains(entry) <==> {
                ||| entry == (tick, state)
                ||| entry.0 != tick && entries.contains(entry)
            },
{
    timeline::lemma_with_entry(entries, tick, state);
}

/// A sample at the tick of a push starts from what was pushed, even if the push came late.
pub proof fn law_sample_starts_from_push<C>(
    entries: Entries<C>,
    tick: Tick,
    state: HistoryState<C>,
    can_blend: bool,
)
    requires
        timeline::ordered(entries),
    ensures
        ({
            let pushed = timeline::with_entry(entries, tick, state);
            let previous = timeline::last_at_or_before(pushed, tick);
            &&& 0 <= previous < pushed.len()
            &&& pushed[previous] == (tick, state)
            &&& match (state, history::keyframes_at(pushed, tick, can_blend)) {
                (HistoryState::Removed, keyframes) => keyframes is Removed,
                (HistoryState::Updated(value), Keyframes::Hold(held)) => held == value,
                (HistoryState::Updated(value), Keyframes::Blend { start, window, .. }) => start
                    == value && window.elapsed == 0,
                _ => false,
            }
        }),
{
    let pushed = timeline::with_entry(entries, tick, state);
    let position = timeline::count_below(entries, tick.0 as int);
    timeline::lemma_count_below_range(entries, tick.0 as int);
    timeline::lemma_with_entry(entries, tick, state);
    assert(position + 1 < pushed.len() ==> pushed[position].0.0 < pushed[position + 1].0.0);
    timeline::lemma_count_below_unique(pushed, tick.0 + 1, position + 1);
}

/// A push changes a sample only if it lands on or between the keyframes of that sample.
///
/// A late packet for a tick before the start keyframe, in particular, leaves the sample as it was.
pub proof fn law_push_is_local<C>(
    entries: Entries<C>,
    pushed_tick: Tick,
    state: HistoryState<C>,
    tick: Tick,
    can_blend: bool,
)
    requires
        timeline::ordered(entries),
        ({
            let previous = timeline::last_at_or_before(entries, tick);
            ||| previous >= 0 && pushed_tick.0 < entries[previous].0.0
            ||| previous < 0 && pushed_tick.0 > tick.0
            ||| previous + 1 < entries.len() && pushed_tick.0 > entries[previous + 1].0.0
        }),
    ensures
        history::keyframes_at(
            timeline::with_entry(entries, pushed_tick, state),
            tick,
            can_blend,
        ) == history::keyframes_at(entries, tick, can_blend),
{
    let pushed = timeline::with_entry(entries, pushed_tick, state);
    let previous = timeline::last_at_or_before(entries, tick);
    timeline::lemma_count_below_splits(entries, tick.0 + 1);
    timeline::lemma_count_below_splits(entries, pushed_tick.0 as int);
    timeline::lemma_with_entry(entries, pushed_tick, state);
    let inserts = pushed.len() > entries.len();
    let moved = if previous >= 0 && pushed_tick.0 < entries[previous].0.0 && inserts {
        previous + 1
    } else {
        previous
    };
    timeline::lemma_count_below_unique(pushed, tick.0 + 1, moved + 1);
}

/// The history does not reach back to a tick before its first entry, and to no tick when empty.
pub proof fn law_pending_before_start<C>(entries: Entries<C>, tick: Tick, can_blend: bool)
    requires
        timeline::ordered(entries),
    ensures
        history::keyframes_at(entries, tick, can_blend) is Pending <==> entries.len() == 0
            || tick.0 < entries[0].0.0,
{
    timeline::lemma_count_below_splits(entries, tick.0 + 1);
}

/// The entry that a pop takes out is older than everything it leaves, and the newest entry is the
/// most recent of all.
pub proof fn law_oldest_and_newest<C>(entries: Entries<C>, i: int)
    requires
        timeline::ordered(entries),
        0 <= i < entries.len(),
    ensures
        entries[0].0.0 <= entries[i].0.0 <= entries.last().0.0,
        i > 0 ==> entries[0].0.0 < entries[i].0.0,
        i < entries.len() - 1 ==> entries[i].0.0 < entries.last().0.0,
        timeline::ordered(entries.drop_first()),
{
}

/// A pop leaves a sample as it was, unless it takes out the start keyframe of that sample.
pub proof fn law_pop_is_local<C>(entries: Entries<C>, tick: Tick, can_blend: bool)
    requires
        timeline::ordered(entries),
        entries.len() > 0,
        timeline::last_at_or_before(entries, tick) != 0,
    ensures
        history::keyframes_at(entries.drop_first(), tick, can_blend) == history::keyframes_at(
            entries,
            tick,
            can_blend,
        ),
{
    let rest = entries.drop_first();
    let previous = timeline::last_at_or_before(entries, tick);
    timeline::lemma_count_below_splits(entries, tick.0 + 1);
    if previous >= 1 {
        assert(rest[previous - 1] == entries[previous]);
        assert(previous < rest.len() ==> rest[previous] == entries[previous + 1]);
        timeline::lemma_count_below_unique(rest, tick.0 + 1, previous);
    } else {
        assert(rest.len() > 0 ==> rest[0] == entries[1]);
        timeline::lemma_count_below_unique(rest, tick.0 + 1, 0);
    }
}

/// Moving or repeating the newest entry at a later tick keeps the order, and every entry before it.
proof fn lemma_extended_is_ordered<C: Clone>(
    before: Entries<C>,
    unchanged: bool,
    tick: Tick,
    after: Entries<C>,
)
    requires
        timeline::ordered(before),
        history::extended_to(before, unchanged, tick, after),
        before.last().0.0 < tick.0,
    ensures
        timeline::ordered(after),
        forall|i: int| 0 <= i < after.len() - 1 ==> #[trigger] after[i] == before[i],
{
    assert forall|i: int| 0 <= i < after.len() - 1 implies #[trigger] after[i] == before[i] by {
        if !unchanged {
            assert(after.drop_last()[i] == after[i]);
        }
    }
    assert forall|i: int, j: int|
        #![trigger after[i], after[j]]
        0 <= i < j < after.len() implies after[i].0.0 < after[j].0.0 by {
        let newest = before[before.len() - 1];
        assert(after[i] == before[i]);
        assert(i < before.len() - 1 ==> before[i].0.0 < newest.0.0);
    }
}

/// Confirming that nothing changed keeps the newest value, only makes it known for a later tick,
/// and touches no older entry.
pub proof fn law_unchanged_keeps_newest_value<C: Clone>(
    before: Entries<C>,
    unchanged: bool,
    tick: Tick,
    after: Entries<C>,
)
    requires
        history::extended_to(before, unchanged, tick, after),
    ensures
        history::newest_present(after) matches Some((newest_tick, newest)) && newest_tick == tick
            && cloned((history::newest_present(before)->0).1, newest),
        forall|i: int| 0 <= i < before.len() - 1 ==> #[trigger] after[i] == before[i],
{
    if !unchanged {
        assert forall|i: int| 0 <= i < before.len() - 1 implies #[trigger] after[i]
            == before[i] by {
            assert(after.drop_last()[i] == after[i]);
        }
    }
}

/// The successive histories of a run of empty mutate ticks: each of `ticks` confirms the newest
/// value of one history and gives the next. From the second tick on there is an unchanged anchor.
pub open spec fn unchanged_run<C: Clone>(
    unchanged: bool,
    ticks: Seq<Tick>,
    histories: Seq<Entries<C>>,
) -> bool {
    &&& histories.len() == ticks.len() + 1
    &&& forall|i: int|
        0 <= i < ticks.len() ==> history::extended_to(
            histories[i],
            unchanged || i > 0,
            #[trigger] ticks[i],
            histories[i + 1],
        )
}

/// An anchor put in place or moved, then moved on, is where it would be had it come there at once.
proof fn lemma_anchor_slides<C: Clone>(
    before: Entries<C>,
    unchanged: bool,
    first: Tick,
    between: Entries<C>,
    second: Tick,
    after: Entries<C>,
)
    requires
        history::extended_to(before, unchanged, first, between),
        history::extended_to(between, true, second, after),
    ensures
        history::extended_to(before, unchanged, second, after),
{
    if unchanged {
        assert(after =~= before.update(before.len() - 1, (second, before.last().1)));
    } else {
        assert(after.drop_last() =~= between.drop_last());
    }
}

/// However many empty mutate ticks follow each other, one anchor stands for all of them: the run
/// ends with a history that its last tick alone could have given, and with at most one entry more
/// than it started from.
pub proof fn law_unchanged_run_is_one_anchor<C: Clone>(
    unchanged: bool,
    ticks: Seq<Tick>,
    histories: Seq<Entries<C>>,
)
    requires
        ticks.len() > 0,
        unchanged_run(unchanged, ticks, histories),
    ensures
        history::extended_to(histories[0], unchanged, ticks.last(), histories.last()),
        histories[0].len() <= histories.last().len() <= histories[0].len() + 1,
    decreases ticks.len(),
{
    let n = ticks.len() - 1;
    assert(history::extended_to(histories[n], unchanged || n > 0, ticks[n], histories[n + 1]));
    if n > 0 {
        let earlier = ticks.drop_last();
        let shorter = histories.drop_last();
        assert forall|i: int| 0 <= i < earlier.len() implies history::extended_to(
            shorter[i],
            unchanged || i > 0,
            #[trigger] earlier[i],
            shorter[i + 1],
        ) by {
            assert(earlier[i] == ticks[i]);
        }
        law_unchanged_run_is_one_anchor(unchanged, earlier, shorter);
        lemma_anchor_slides(
            histories[0],
            unchanged,
            earlier.last(),
            histories[n],
            ticks[n],
            histories[n + 1],
        );
    }
}

/// A run of empty mutate ticks and its last tick alone leave the same history, with clones counted
/// as the same; with equality for `same`, that is where a clone equals its value, equal histories.
pub proof fn law_unchanged_run_equals_last_tick<C: Clone>(
    unchanged: bool,
    ticks: Seq<Tick>,
    histories: Seq<Entries<C>>,
    alone: Entries<C>,
    same: spec_fn(C, C) -> bool,
)
    requires
        ticks.len() > 0,
        unchanged_run(unchanged, ticks, histories),
        history::extended_to(histories[0], unchanged, ticks.last(), alone),
        respects_clones(same),
    ensures
        alone.len() == histories.last().len(),
        alone.drop_last() == histories.last().drop_last(),
        alone.last().0 == histories.last().last().0,
        match (alone.last().1, histories.last().last().1) {
            (HistoryState::Updated(a), HistoryState::Updated(b)) => same(a, b),
            _ => false,
        },
{
    law_unchanged_run_is_one_anchor(unchanged, ticks, histories);
    let value = (history::newest_present(histories[0])->0).1;
    if unchanged {
        assert(same(value, value));
    } else {
        let a = (history::newest_present(alone)->0).1;
        let b = (history::newest_present(histories.last())->0).1;
        assert(same(value, a) && same(value, b));
        assert(same(a, value));
    }
}

/// A late update followed by an empty mutate tick does not bring a stale value back: the anchor
/// holds the value of the most recent tick, not the one that arrived last, whether it slides or is
/// put in place, and samples at the confirmed tick and at every later one hold it.
pub proof fn law_unchanged_ignores_late_push<C: Clone>(
    entries: Entries<C>,
    unchanged: bool,
    late: Tick,
    state: HistoryState<C>,
    tick: Tick,
    after: Entries<C>,
    at: Tick,
    can_blend: bool,
)
    requires
        timeline::ordered(entries),
        entries.len() > 0,
        late.0 < entries.last().0.0 < tick.0,
        tick.0 <= at.0,
        history::extended_to(timeline::with_entry(entries, late, state), unchanged, tick, after),
    ensures
        timeline::ordered(after),
        history::newest_present(entries) matches Some((_, value)) && history::keyframes_at(
            after,
            at,
            can_blend,
        ) matches Keyframes::Hold(held) && cloned(value, held),
{
    let pushed = timeline::with_entry(entries, late, state);
    timeline::lemma_with_entry(entries, late, state);
    timeline::lemma_late_entry(entries, late, state);
    lemma_extended_is_ordered(pushed, unchanged, tick, after);
    timeline::lemma_count_below_unique(after, at.0 + 1, after.len() as int);
}

/// An unchanged anchor that has an entry before it holds the same value as that entry.
pub open spec fn anchor_repeats_value<C>(
    entries: Entries<C>,
    unchanged: bool,
    same: spec_fn(C, C) -> bool,
) -> bool {
    unchanged && entries.len() >= 2 ==> {
        &&& timeline::present(entries, entries.len() - 2) matches Some((_, value))
        &&& timeline::present(entries, entries.len() - 1) matches Some((_, repeated))
        &&& same(value, repeated)
    }
}

/// Interpolation towards an unchanged anchor is interpolation between a value and itself: with
/// clones counted as the same, that holds of the anchor when it is put in place, while it slides,
/// and while older entries are popped.
///
/// It is not kept by a late push of another value, or a late removal, that lands on the entry
/// before the anchor or between the two: the anchor stays an unchanged one, but what comes before
/// it is then something else.
pub proof fn law_unchanged_anchor_repeats_value<C: Clone>(
    before: Entries<C>,
    unchanged: bool,
    same: spec_fn(C, C) -> bool,
    tick: Tick,
    after: Entries<C>,
)
    requires
        forall|a: C, b: C| #[trigger] vstd::pervasive::strictly_cloned(a, b) ==> same(a, b),
        anchor_repeats_value(before, unchanged, same),
    ensures
        history::extended_to(before, unchanged, tick, after) ==> anchor_repeats_value(
            after,
            true,
            same,
        ),
        before.len() > 0 ==> anchor_repeats_value(
            before.drop_first(),
            history::unchanged_after_pop(before, unchanged),
            same,
        ),
{
    if history::extended_to(before, unchanged, tick, after) && after.len() >= 2 {
        if !unchanged {
            assert(after.drop_last()[after.len() - 2] == after[after.len() - 2]);
        }
    }
    if unchanged && before.len() > 2 {
        let rest = before.drop_first();
        assert(rest[rest.len() - 2] == before[before.len() - 2]);
        assert(rest[rest.len() - 1] == before[before.len() - 1]);
    }
}

/// A push or removal leaves an unchanged anchor with the same value before it, unless it lands on
/// the entry before the anchor or between the two and brings something else than that value.
pub proof fn law_push_keeps_anchor<C>(
    entries: Entries<C>,
    unchanged: bool,
    same: spec_fn(C, C) -> bool,
    tick: Tick,
    state: HistoryState<C>,
)
    requires
        timeline::ordered(entries),
        anchor_repeats_value(entries, unchanged, same),
        entries.len() >= 2,
        ({
            ||| tick.0 < entries[entries.len() - 2].0.0
            ||| tick.0 >= entries.last().0.0
            ||| state matches HistoryState::Updated(value) && history::newest_present(
                entries,
            ) matches Some((_, anchor)) && same(value, anchor)
        }),
    ensures
        anchor_repeats_value(
            timeline::with_entry(entries, tick, state),
            unchanged && tick.0 < entries.last().0.0,
            same,
        ),
{
    if unchanged && tick.0 < entries.last().0.0 {
        let n = entries.len() - 1;
        let pushed = timeline::with_entry(entries, tick, state);
        timeline::lemma_late_entry(entries, tick, state);
        if tick.0 >= entries[n - 1].0.0 {
            let position = if tick.0 == entries[n - 1].0.0 {
                n - 1
            } else {
                n
            };
            assert(n >= 2 ==> entries[n - 2].0.0 < entries[n - 1].0.0);
            timeline::lemma_count_below_unique(entries, tick.0 as int, position);
            assert(pushed[pushed.len() - 2] == (tick, state));
        }
    }
}

/// `same` is an equivalence under which a value and its clone are the same.
pub open spec fn respects_clones<C: Clone>(same: spec_fn(C, C) -> bool) -> bool {
    &&& forall|a: C| #[trigger] same(a, a)
    &&& forall|a: C, b: C| #[trigger] same(a, b) ==> same(b, a)
    &&& forall|a: C, b: C, c: C| #[trigger] same(a, b) && #[trigger] same(b, c) ==> same(a, c)
    &&& forall|a: C, b: C| #[trigger] vstd::pervasive::strictly_cloned(a, b) ==> same(a, b)
}

/// `blend` gives the same result for the same values in the same window.
pub open spec fn blends_alike<C, F: FnOnce(C, C, InterpolationWindow) -> C>(
    blend: F,
    same: spec_fn(C, C) -> bool,
) -> bool {
    forall|a: C, b: C, c: C, d: C, window: InterpolationWindow, r: C, q: C|
        #![trigger blend.ensures((a, b, window), r), blend.ensures((c, d, window), q)]
        same(a, c) && same(b, d) && blend.ensures((a, b, window), r) && blend.ensures(
            (c, d, window),
            q,
        ) ==> same(r, q)
}

/// Between two values that are the same, `blend` gives that value, whatever the window.
pub open spec fn blends_nothing_between_same<C, F: FnOnce(C, C, InterpolationWindow) -> C>(
    blend: F,
    same: spec_fn(C, C) -> bool,
) -> bool {
    forall|a: C, b: C, window: InterpolationWindow, r: C|
        #![trigger blend.ensures((a, b, window), r)]
        same(a, b) && blend.ensures((a, b, window), r) ==> same(a, r)
}

/// Two samples agree.
pub open spec fn same_sample<C>(
    same: spec_fn(C, C) -> bool,
    a: ConfirmedHistorySample<C>,
    b: ConfirmedHistorySample<C>,
) -> bool {
    match (a, b) {
        (ConfirmedHistorySample::Pending, ConfirmedHistorySample::Pending) => true,
        (ConfirmedHistorySample::Removed, ConfirmedHistorySample::Removed) => true,
        (ConfirmedHistorySample::Present(a), ConfirmedHistorySample::Present(b)) => same(a, b),
        _ => false,
    }
}

/// Histories with the same keyframes for a tick give the same samples there: with an interpolation
/// function that treats the same values alike, any two samples agree.
pub proof fn law_keyframes_determine_sample<C: Clone, F: FnOnce(C, C, InterpolationWindow) -> C>(
    left: Entries<C>,
    right: Entries<C>,
    tick: Tick,
    interpolation_fn: Option<F>,
    same: spec_fn(C, C) -> bool,
    a: ConfirmedHistorySample<C>,
    b: ConfirmedHistorySample<C>,
)
    requires
        history::keyframes_at(left, tick, interpolation_fn is Some) == history::keyframes_at(
            right,
            tick,
            interpolation_fn is Some,
        ),
        respects_clones(same),
        interpolation_fn matches Some(blend) ==> blends_alike(blend, same),
        history::may_sample(left, tick, interpolation_fn, a),
        history::may_sample(right, tick, interpolation_fn, b),
    ensures
        same_sample(same, a, b),
{
    match history::keyframes_at(left, tick, interpolation_fn is Some) {
        Keyframes::Hold(value) => {
            assert(same(value, a->Present_0) && same(value, b->Present_0));
            assert(same(a->Present_0, value));
        },
        Keyframes::Blend { start, end, window } => {
            lemma_blended_alike(
                interpolation_fn->0,
                same,
                start,
                end,
                window,
                a->Present_0,
                b->Present_0,
            );
        },
        _ => {},
    }
}

/// Two blends of the same keyframes agree.
proof fn lemma_blended_alike<C: Clone, F: FnOnce(C, C, InterpolationWindow) -> C>(
    blend: F,
    same: spec_fn(C, C) -> bool,
    start: C,
    end: C,
    window: InterpolationWindow,
    r: C,
    q: C,
)
    requires
        respects_clones(same),
        blends_alike(blend, same),
        history::blended(blend, start, end, window, r),
        history::blended(blend, start, end, window, q),
    ensures
        same(r, q),
{
    let (a, b) = choose|a: C, b: C|
        vstd::pervasive::strictly_cloned(start, a) && vstd::pervasive::strictly_cloned(end, b)
            && #[trigger] blend.ensures((a, b, window), r);
    let (c, d) = choose|c: C, d: C|
        vstd::pervasive::strictly_cloned(start, c) && vstd::pervasive::strictly_cloned(end, d)
            && #[trigger] blend.ensures((c, d, window), q);
    assert(same(start, a) && same(start, c) && same(end, b) && same(end, d));
    assert(same(a, start) && same(b, end));
    assert(same(a, c) && same(b, d));
}

/// A blend of a value and its clone is that value.
proof fn lemma_blended_with_clone<C: Clone, F: FnOnce(C, C, InterpolationWindow) -> C>(
    blend: F,
    same: spec_fn(C, C) -> bool,
    start: C,
    end: C,
    window: InterpolationWindow,
    r: C,
)
    requires
        respects_clones(same),
        blends_nothing_between_same(blend, same),
        same(start, end),
        history::blended(blend, start, end, window, r),
    ensures
        same(start, r),
{
    let (a, b) = choose|a: C, b: C|
        vstd::pervasive::strictly_cloned(start, a) && vstd::pervasive::strictly_cloned(end, b)
            && #[trigger] blend.ensures((a, b, window), r);
    assert(same(start, a) && same(end, b));
    assert(same(a, start));
    assert(same(a, end));
    assert(same(a, b));
    assert(same(a, r));
}

/// A sample between a value and its clone, or on either of them, is that value.
proof fn lemma_sample_of_clone<C: Clone, F: FnOnce(C, C, InterpolationWindow) -> C>(
    entries: Entries<C>,
    tick: Tick,
    interpolation_fn: Option<F>,
    same: spec_fn(C, C) -> bool,
    value: C,
    sample: ConfirmedHistorySample<C>,
)
    requires
        respects_clones(same),
        interpolation_fn matches Some(blend) ==> blends_nothing_between_same(blend, same),
        history::may_sample(entries, tick, interpolation_fn, sample),
        match history::keyframes_at(entries, tick, interpolation_fn is Some) {
            Keyframes::Hold(held) => same(value, held),
            Keyframes::Blend { start, end, .. } => same(value, start) && same(value, end),
            _ => false,
        },
    ensures
        sample matches ConfirmedHistorySample::Present(result) && same(value, result),
{
    match history::keyframes_at(entries, tick, interpolation_fn is Some) {
        Keyframes::Hold(held) => {
            assert(same(held, sample->Present_0));
        },
        Keyframes::Blend { start, end, window } => {
            assert(same(start, value));
            assert(same(start, end));
            lemma_blended_with_clone(
                interpolation_fn->0,
                same,
                start,
                end,
                window,
                sample->Present_0,
            );
            assert(same(start, sample->Present_0));
        },
        _ => {},
    }
}

/// Confirming that the newest value did not change leaves what is sampled as it was.
///
/// This takes an interpolation function that treats the same values alike and finds nothing
/// between a value and itself. It holds at every tick, with two exceptions. An unchanged anchor
/// that is the only entry takes the start of the history along when it slides, so that the ticks it
/// leaves behind become pending. And where a late push has put something else before an unchanged
/// anchor, that reaches further once the anchor slides: the ticks from there up to the confirmed
/// one are left out, but for those before the anchor when there is nothing to blend towards it.
pub proof fn law_unchanged_keeps_samples<C: Clone, F: FnOnce(C, C, InterpolationWindow) -> C>(
    before: Entries<C>,
    unchanged: bool,
    confirmed: Tick,
    after: Entries<C>,
    tick: Tick,
    interpolation_fn: Option<F>,
    same: spec_fn(C, C) -> bool,
    a: ConfirmedHistorySample<C>,
    b: ConfirmedHistorySample<C>,
)
    requires
        timeline::ordered(before),
        before.last().0.0 < confirmed.0,
        history::extended_to(before, unchanged, confirmed, after),
        unchanged ==> {
            ||| before.len() >= 2 && anchor_repeats_value(before, unchanged, same)
            ||| confirmed.0 <= tick.0
            ||| tick.0 < before.last().0.0 && {
                ||| before.len() == 1
                ||| tick.0 < before[before.len() - 2].0.0
                ||| before[before.len() - 2].1 is Removed
                ||| interpolation_fn is None
            }
        },
        respects_clones(same),
        interpolation_fn matches Some(blend) ==> blends_alike(blend, same)
            && blends_nothing_between_same(blend, same),
        history::may_sample(before, tick, interpolation_fn, a),
        history::may_sample(after, tick, interpolation_fn, b),
    ensures
        same_sample(same, a, b),
{
    let previous = timeline::last_at_or_before(before, tick);
    // The entry before the anchor, if there is one.
    let repeated = after.len() - 2;
    lemma_extended_is_ordered(before, unchanged, confirmed, after);
    timeline::lemma_count_below_splits(before, tick.0 + 1);
    timeline::lemma_count_below_splits(after, tick.0 + 1);
    assert(before[before.len() - 1] == before.last());
    assert(repeated >= 0 ==> after[repeated] == before[repeated]);
    if previous < repeated {
        if previous >= 0 {
            assert(after[previous] == before[previous]);
        }
        assert(after[previous + 1] == before[previous + 1]);
        timeline::lemma_count_below_unique(after, tick.0 + 1, previous + 1);
        law_keyframes_determine_sample(before, after, tick, interpolation_fn, same, a, b);
    } else if unchanged && !(before.len() >= 2 && anchor_repeats_value(before, unchanged, same)) {
        let now = if confirmed.0 <= tick.0 {
            repeated + 1
        } else {
            repeated
        };
        assert(after[repeated + 1].0 == confirmed);
        timeline::lemma_count_below_unique(after, tick.0 + 1, now + 1);
        law_keyframes_determine_sample(before, after, tick, interpolation_fn, same, a, b);
    } else {
        let value = (timeline::present(before, repeated)->0).1;
        let anchor = (timeline::present(after, after.len() - 1)->0).1;
        assert(same(value, anchor));
        assert(same(value, value));
        assert(before[repeated].0.0 <= tick.0);
        assert(timeline::last_at_or_before(after, tick) >= repeated);
        lemma_sample_of_clone(before, tick, interpolation_fn, same, value, a);
        lemma_sample_of_clone(after, tick, interpolation_fn, same, value, b);
        assert(same(a->Present_0, value));
    }
}

/// A push or removal outside the keyframes of a sample leaves what is sampled as it was, so that a
/// late packet elsewhere cannot make an entity snap.
pub proof fn law_push_elsewhere_keeps_samples<
    C: Clone,
    F: FnOnce(C, C, InterpolationWindow) -> C,
>(
    entries: Entries<C>,
    pushed_tick: Tick,
    state: HistoryState<C>,
    tick: Tick,
    interpolation_fn: Option<F>,
    sample: ConfirmedHistorySample<C>,
)
    requires
        timeline::ordered(entries),
        ({
            let previous = timeline::last_at_or_before(entries, tick);
            ||| previous >= 0 && pushed_tick.0 < entries[previous].0.0
            ||| previous < 0 && pushed_tick.0 > tick.0
            ||| previous + 1 < entries.len() && pushed_tick.0 > entries[previous + 1].0.0
        }),
    ensures
        history::may_sample(
            timeline::with_entry(entries, pushed_tick, state),
            tick,
            interpolation_fn,
            sample,
        ) <==> history::may_sample(entries, tick, interpolation_fn, sample),
{
    law_push_is_local(entries, pushed_tick, state, tick, interpolation_fn is Some);
}

/// Draining entries older than the start keyframe leaves what is sampled as it was, and what is
/// pending stays so.
pub proof fn law_pop_keeps_samples<C: Clone, F: FnOnce(C, C, InterpolationWindow) -> C>(
    entries: Entries<C>,
    tick: Tick,
    interpolation_fn: Option<F>,
    sample: ConfirmedHistorySample<C>,
)
    requires
        timeline::ordered(entries),
        entries.len() > 0,
        tick.0 < entries[0].0.0 || entries.len() >= 2 && entries[1].0.0 <= tick.0,
    ensures
        history::may_sample(entries.drop_first(), tick, interpolation_fn, sample)
            <==> history::may_sample(entries, tick, interpolation_fn, sample),
{
    timeline::lemma_count_below_splits(entries, tick.0 + 1);
    law_pop_is_local(entries, tick, interpolation_fn is Some);
}

/// Between keyframes in order of ticks, the span is never empty, time elapsed is never negative,
/// and once the interpolation tick reaches the end keyframe the elapsed time fills the span: with
/// an overstep of `numerator / denominator` ticks the fraction is at least one, so that it clamps
/// to the end keyframe rather than extrapolate beyond it.
pub proof fn law_window_bounds(
    start: Tick,
    end: Tick,
    tick: Tick,
    numerator: int,
    denominator: int,
)
    requires
        start.0 < end.0,
        start.0 <= tick.0,
        0 <= numerator,
        0 < denominator,
    ensures
        ({
            let window = history::window_between(start, end, tick);
            &&& 0 < window.span
            &&& 0 <= window.elapsed
            &&& tick.0 <= end.0 ==> window.elapsed <= window.span
            &&& 0 <= window.elapsed * denominator + numerator
            &&& end.0 <= tick.0 ==> window.elapsed * denominator + numerator >= window.span
                * denominator
        }),
{
    let window = history::window_between(start, end, tick);
    assert(0 <= window.elapsed * denominator) by (nonlinear_arith)
        requires
            0 <= window.elapsed,
            0 < denominator,
    ;
    if end.0 <= tick.0 {
        assert(window.elapsed * denominator >= window.span * denominator) by (nonlinear_arith)
            requires
                window.elapsed >= window.span,
                0 < denominator,
        ;
    }
}

/// The entries before the `n`-th are removals.
pub open spec fn starts_with_removals<C>(entries: Entries<C>, n: int) -> bool {
    forall|i: int| 0 <= i < n ==> (#[trigger] entries[i]).1 is Removed
}

/// Removals give no values.
proof fn lemma_values_of_removals<C>(entries: Entries<C>, n: int)
    requires
        0 <= n <= entries.len(),
        starts_with_removals(entries, n),
    ensures
        timeline::values(entries.take(n)).len() == 0,
    decreases n,
{
    if n > 0 {
        lemma_values_of_removals(entries, n - 1);
        timeline::lemma_values_step(entries, n - 1);
        assert(entries[n - 1].1 is Removed);
    }
}

/// Between the two oldest values, when no removal parts them, `sample` and `interpolate` go by the
/// same two keyframes and the same window, and so give the same.
pub proof fn law_sample_agrees_with_interpolate<
    C: Clone,
    F: FnOnce(C, C, InterpolationWindow) -> C,
>(entries: Entries<C>, n: int, tick: Tick, interpolation_fn: F, result: C)
    requires
        timeline::ordered(entries),
        0 <= n < entries.len() - 1,
        starts_with_removals(entries, n),
        entries[n].1 is Updated,
        entries[n + 1].1 is Updated,
        entries[n].0.0 <= tick.0 < entries[n + 1].0.0,
    ensures
        history::oldest_keyframes(entries, tick) matches Some((start, end, window))
            && history::keyframes_at(entries, tick, true) == (Keyframes::Blend {
            start,
            end,
            window,
        }),
        history::may_interpolate(entries, tick, interpolation_fn, Some(result))
            <==> history::may_sample(
            entries,
            tick,
            Some(interpolation_fn),
            ConfirmedHistorySample::Present(result),
        ),
{
    lemma_values_of_removals(entries, n);
    timeline::lemma_values_step(entries, n);
    timeline::lemma_values_step(entries, n + 1);
    timeline::lemma_values_prefix(entries, n + 2);
    let first = timeline::values(entries.take(n + 2));
    assert(timeline::values(entries)[0] == first[0]);
    assert(timeline::values(entries)[1] == first[1]);
    timeline::lemma_count_below_unique(entries, tick.0 + 1, n + 1);
}

/// Entries after the second oldest value have no influence on `interpolate`: a push or removal
/// behind it leaves its result as it was.
pub proof fn law_push_behind_keeps_interpolation<
    C: Clone,
    F: FnOnce(C, C, InterpolationWindow) -> C,
>(
    entries: Entries<C>,
    pushed_tick: Tick,
    state: HistoryState<C>,
    tick: Tick,
    interpolation_fn: F,
    interpolated: Option<C>,
)
    requires
        timeline::ordered(entries),
        timeline::values(entries).len() >= 2,
        timeline::values(entries)[1].0.0 < pushed_tick.0,
    ensures
        history::oldest_keyframes(timeline::with_entry(entries, pushed_tick, state), tick)
            == history::oldest_keyframes(entries, tick),
        history::may_interpolate(
            timeline::with_entry(entries, pushed_tick, state),
            tick,
            interpolation_fn,
            interpolated,
        ) <==> history::may_interpolate(entries, tick, interpolation_fn, interpolated),
{
    let pushed = timeline::with_entry(entries, pushed_tick, state);
    let position = timeline::count_below(entries, pushed_tick.0 as int);
    timeline::lemma_count_below_range(entries, pushed_tick.0 as int);
    timeline::lemma_values_ordered(entries, pushed_tick.0 as int);
    assert(pushed.take(position) =~= entries.take(position));
    let kept = timeline::values(entries.take(position));
    assert(timeline::values(entries)[1].0.0 < pushed_tick.0);
    timeline::lemma_values_prefix(entries, position);
    timeline::lemma_values_prefix(pushed, position);
    assert(timeline::values(entries)[0] == kept[0]);
    assert(timeline::values(entries)[1] == kept[1]);
    assert(timeline::values(pushed)[0] == kept[0]);
    assert(timeline::values(pushed)[1] == kept[1]);
}

/// With an interpolation function that treats the same values alike, any two results for the same
/// two oldest values agree.
pub proof fn law_oldest_values_determine_interpolation<
    C: Clone,
    F: FnOnce(C, C, InterpolationWindow) -> C,
>(
    left: Entries<C>,
    right: Entries<C>,
    tick: Tick,
    interpolation_fn: F,
    same: spec_fn(C, C) -> bool,
    a: Option<C>,
    b: Option<C>,
)
    requires
        history::oldest_keyframes(left, tick) == history::oldest_keyframes(right, tick),
        respects_clones(same),
        blends_alike(interpolation_fn, same),
        history::may_interpolate(left, tick, interpolation_fn, a),
        history::may_interpolate(right, tick, interpolation_fn, b),
    ensures
        match (a, b) {
            (Some(a), Some(b)) => same(a, b),
            (None, None) => true,
            _ => false,
        },
{
    if let Some((start, end, window)) = history::oldest_keyframes(left, tick) {
        lemma_blended_alike(interpolation_fn, same, start, end, window, a->0, b->0);
    }
}

/// Counting values runs through all updates and no removal, in order of their ticks.
pub proof fn law_values_are_the_updates<C>(entries: Entries<C>, tick: Tick, value: C)
    requires
        timeline::ordered(entries),
    ensures
        timeline::values(entries).contains((tick, value)) <==> entries.contains(
            (tick, HistoryState::Updated(value)),
        ),
        forall|i: int, j: int|
            #![trigger timeline::values(entries)[i], timeline::values(entries)[j]]
            0 <= i < j < timeline::values(entries).len() ==> timeline::values(entries)[i].0.0
                < timeline::values(entries)[j].0.0,
    decreases entries.len(),
{
    timeline::lemma_values_ordered(entries, 0);
    if entries.len() > 0 {
        let older = entries.drop_last();
        let update = (tick, HistoryState::Updated(value));
        assert(timeline::ordered(older));
        law_values_are_the_updates(older, tick, value);
        assert(entries =~= older.push(entries.last()));
        if entries.contains(update) && entries.last() != update {
            let i = choose|i: int| 0 <= i < entries.len() && entries[i] == update;
            assert(older[i] == update);
        }
        if older.contains(update) {
            let i = choose|i: int| 0 <= i < older.len() && older[i] == update;
            assert(entries[i] == update);
        }
        if entries.last() == update {
            assert(entries[entries.len() - 1] == update);
        }
        let all = timeline::values(entries);
        let before = timeline::values(older);
        if before.contains((tick, value)) {
            let i = choose|i: int| 0 <= i < before.len() && before[i] == (tick, value);
            assert(all[i] == (tick, value));
        }
        if all.contains((tick, value)) {
            let i = choose|i: int| 0 <= i < all.len() && all[i] == (tick, value);
            if i < before.len() {
                assert(before[i] == (tick, value));
            }
        }
        if entries.last() == update {
            assert(all[all.len() - 1] == (tick, value));
        }
    }
}

/// A single keyframe gives nothing to interpolate, but its value holds from its tick on.
pub proof fn law_single_keyframe<C>(anchor: Tick, value: C, tick: Tick, can_blend: bool)
    ensures
        ({
            let entries: Entries<C> = seq![(anchor, HistoryState::Updated(value))];
            &&& history::oldest_keyframes(entries, tick) is None
            &&& history::keyframes_at(entries, tick, can_blend) == if anchor.0 <= tick.0 {
                Keyframes::Hold(value)
            } else {
                Keyframes::Pending
            }
        }),
{
    let entries: Entries<C> = seq![(anchor, HistoryState::Updated(value))];
    assert(timeline::ordered(entries));
    timeline::lemma_values_len(entries);
    timeline::lemma_count_below_unique(
        entries,
        tick.0 + 1,
        if anchor.0 <= tick.0 {
            1
        } else {
            0
        },
    );
}

/// Equality of histories is an equivalence, and does not look at values.
pub proof fn law_equality<C>(
    a: ConfirmedHistory<C>,
    b: ConfirmedHistory<C>,
    c: ConfirmedHistory<C>,
)
    ensures
        vstd::std_specs::cmp::PartialEqSpec::eq_spec(&a, &a),
        vstd::std_specs::cmp::PartialEqSpec::eq_spec(&a, &b)
            == vstd::std_specs::cmp::PartialEqSpec::eq_spec(&b, &a),
        vstd::std_specs::cmp::PartialEqSpec::eq_spec(&a, &b)
            && vstd::std_specs::cmp::PartialEqSpec::eq_spec(&b, &c)
            ==> vstd::std_specs::cmp::PartialEqSpec::eq_spec(&a, &c),
        timeline::ticks(a@) == timeline::ticks(b@) && a.newest_is_unchanged()
            == b.newest_is_unchanged() ==> vstd::std_specs::cmp::PartialEqSpec::eq_spec(&a, &b),
{
}

} // verus!
