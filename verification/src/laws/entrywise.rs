//! What each operation gives, said of the single entries of a history and of nothing else: which
//! entry a result comes from, and with which tick and value.

use crate::history_buffer::{HistoryBuffer, HistoryState};
use crate::interpolation_history::{
    self as history, ConfirmedHistory, ConfirmedHistorySample, InterpolationWindow, Keyframes,
};
use crate::laws;
use crate::tick::{self, Tick};
use crate::timeline;
use vstd::prelude::*;
use vstd::std_specs::cmp::PartialEqSpec;
use vstd::std_specs::ops::SubSpec;

verus! {

/// The difference of two ticks is the difference of their numbers where `i32` can hold it, and the
/// nearest `i32` where it cannot. Any two ticks have one.
pub proof fn law_tick_difference(later: Tick, earlier: Tick)
    ensures
        <Tick as SubSpec>::obeys_sub_spec(),
        later.sub_req(earlier),
        later.sub_spec(earlier) == tick::saturating_difference(later, earlier),
        i32::MIN <= later.0 - earlier.0 <= i32::MAX ==> tick::saturating_difference(
            later,
            earlier,
        ) == later.0 - earlier.0,
        later.0 - earlier.0 > i32::MAX ==> tick::saturating_difference(later, earlier)
            == i32::MAX,
        later.0 - earlier.0 < i32::MIN ==> tick::saturating_difference(later, earlier)
            == i32::MIN,
{
}

/// Between keyframes at `start` and `end`, the window says how many ticks have gone by since
/// `start`, and how many there are from `start` to `end`.
pub proof fn law_window_counts_ticks(start: Tick, end: Tick, tick: Tick)
    requires
        start.0 < end.0,
        start.0 <= tick.0,
    ensures
        ({
            let window = history::window_between(start, end, tick);
            &&& window.start_tick == start
            &&& window.end_tick == end
            &&& tick.0 - start.0 <= i32::MAX ==> window.elapsed == tick.0 - start.0
            &&& tick.0 - start.0 > i32::MAX ==> window.elapsed == i32::MAX
            &&& end.0 - start.0 <= i32::MAX ==> window.span == end.0 - start.0
            &&& end.0 - start.0 > i32::MAX ==> window.span == i32::MAX
        }),
{
}

/// With every tick the elapsed time grows by one, and the span stays as it is: the fraction moves
/// from the start keyframe to the end keyframe in equal steps.
pub proof fn law_window_advances_evenly(start: Tick, end: Tick, tick: Tick, next: Tick)
    requires
        start.0 < end.0,
        start.0 <= tick.0,
        next.0 == tick.0 + 1,
        next.0 - start.0 <= i32::MAX,
    ensures
        history::window_between(start, end, next).elapsed == history::window_between(
            start,
            end,
            tick,
        ).elapsed + 1,
        history::window_between(start, end, next).span == history::window_between(
            start,
            end,
            tick,
        ).span,
        history::window_between(start, end, start).elapsed == 0,
        history::window_between(start, end, end).elapsed == history::window_between(
            start,
            end,
            tick,
        ).span,
{
}

/// Order of ticks from each entry to the next is order of ticks throughout.
pub proof fn law_order_is_order_of_neighbours<C>(entries: Seq<(Tick, HistoryState<C>)>)
    ensures
        timeline::ordered(entries) <==> (forall|i: int, j: int|
            #![trigger entries[i], entries[j]]
            0 <= i && j == i + 1 && j < entries.len() ==> entries[i].0.0 < entries[j].0.0),
    decreases entries.len(),
{
    if entries.len() > 1 && (forall|i: int, j: int|
        #![trigger entries[i], entries[j]]
        0 <= i && j == i + 1 && j < entries.len() ==> entries[i].0.0 < entries[j].0.0) {
        let older = entries.drop_last();
        let n = entries.len() - 1;
        assert forall|i: int, j: int|
            #![trigger older[i], older[j]]
            0 <= i && j == i + 1 && j < older.len() implies older[i].0.0 < older[j].0.0 by {
            assert(entries[i].0.0 < entries[j].0.0);
        }
        law_order_is_order_of_neighbours(older);
        assert forall|i: int, j: int|
            #![trigger entries[i], entries[j]]
            0 <= i < j < entries.len() implies entries[i].0.0 < entries[j].0.0 by {
            assert(entries[n - 1].0.0 < entries[n].0.0);
            assert(older[i] == entries[i]);
            assert(older[n - 1] == entries[n - 1]);
            if j < n {
                assert(older[j] == entries[j]);
            }
        }
    }
}

/// A history is in a valid state exactly when its ticks strictly increase, and its newest entry is
/// a value where it is marked as an unchanged anchor.
pub proof fn law_valid_state<C>(history: ConfirmedHistory<C>)
    ensures
        history.wf() <==> {
            &&& forall|i: int, j: int|
                #![trigger history@[i], history@[j]]
                0 <= i < j < history@.len() ==> history@[i].0.0 < history@[j].0.0
            &&& history.newest_is_unchanged() ==> history@.len() > 0 && history@[history@.len()
                - 1].1 is Updated
        },
{
}

/// The last entry at or before a tick has no entry behind it that is dated at or before the tick.
pub proof fn law_last_at_or_before<C>(
    entries: Seq<(Tick, HistoryState<C>)>,
    tick: Tick,
    i: int,
)
    requires
        forall|a: int, b: int|
            #![trigger entries[a], entries[b]]
            0 <= a < b < entries.len() ==> entries[a].0.0 < entries[b].0.0,
    ensures
        -1 <= timeline::last_at_or_before(entries, tick) < entries.len(),
        0 <= i <= timeline::last_at_or_before(entries, tick) ==> entries[i].0.0 <= tick.0,
        timeline::last_at_or_before(entries, tick) < i < entries.len() ==> tick.0
            < entries[i].0.0,
{
    timeline::lemma_count_below_splits(entries, tick.0 + 1);
}

/// Before the first entry, and in an empty history, nothing is known yet.
pub proof fn law_sample_before_the_history<C: Clone, F: FnOnce(C, C, InterpolationWindow) -> C>(
    entries: Seq<(Tick, HistoryState<C>)>,
    tick: Tick,
    can_blend: bool,
    interpolation_fn: Option<F>,
    sample: ConfirmedHistorySample<C>,
)
    requires
        forall|i: int| 0 <= i < entries.len() ==> tick.0 < (#[trigger] entries[i]).0.0,
    ensures
        history::keyframes_at(entries, tick, can_blend) is Pending,
        history::may_sample(entries, tick, interpolation_fn, sample) ==> sample is Pending,
{
    lemma_none_below(entries, tick.0 + 1);
}

/// No entry is counted where none is dated below the bound.
proof fn lemma_none_below<C>(entries: Seq<(Tick, HistoryState<C>)>, bound: int)
    requires
        forall|i: int| 0 <= i < entries.len() ==> bound <= (#[trigger] entries[i]).0.0,
    ensures
        timeline::count_below(entries, bound) == 0,
    decreases entries.len(),
{
    if entries.len() > 0 {
        let older = entries.drop_last();
        assert(entries[entries.len() - 1].0.0 >= bound);
        assert forall|i: int| 0 <= i < older.len() implies bound <= (#[trigger] older[i]).0.0 by {
            assert(older[i] == entries[i]);
        }
        lemma_none_below(older, bound);
    }
}

/// From a removal on, up to the next entry, the component is removed, whether values can be blended
/// or not.
pub proof fn law_sample_after_removal<C: Clone, F: FnOnce(C, C, InterpolationWindow) -> C>(
    entries: Seq<(Tick, HistoryState<C>)>,
    i: int,
    tick: Tick,
    can_blend: bool,
    interpolation_fn: Option<F>,
    sample: ConfirmedHistorySample<C>,
)
    requires
        forall|a: int, b: int|
            #![trigger entries[a], entries[b]]
            0 <= a < b < entries.len() ==> entries[a].0.0 < entries[b].0.0,
        0 <= i < entries.len(),
        entries[i].0.0 <= tick.0,
        i + 1 < entries.len() ==> tick.0 < entries[i + 1].0.0,
        entries[i].1 is Removed,
    ensures
        history::keyframes_at(entries, tick, can_blend) is Removed,
        history::may_sample(entries, tick, interpolation_fn, sample) ==> sample is Removed,
{
    timeline::lemma_count_below_unique(entries, tick.0 + 1, i + 1);
}

/// From a value on, up to the next entry, that value holds where no value follows it, or where
/// values cannot be blended: a sample is then a clone of it.
pub proof fn law_sample_holds_value<C: Clone, F: FnOnce(C, C, InterpolationWindow) -> C>(
    entries: Seq<(Tick, HistoryState<C>)>,
    i: int,
    value: C,
    tick: Tick,
    can_blend: bool,
    interpolation_fn: Option<F>,
    sample: ConfirmedHistorySample<C>,
)
    requires
        forall|a: int, b: int|
            #![trigger entries[a], entries[b]]
            0 <= a < b < entries.len() ==> entries[a].0.0 < entries[b].0.0,
        0 <= i < entries.len(),
        entries[i].0.0 <= tick.0,
        i + 1 < entries.len() ==> tick.0 < entries[i + 1].0.0,
        entries[i].1 == HistoryState::Updated(value),
    ensures
        i + 1 == entries.len() || entries[i + 1].1 is Removed || !can_blend
            ==> history::keyframes_at(entries, tick, can_blend) == Keyframes::Hold(value),
        (i + 1 == entries.len() || entries[i + 1].1 is Removed || interpolation_fn is None)
            && history::may_sample(entries, tick, interpolation_fn, sample) ==> (sample matches
            ConfirmedHistorySample::Present(held) && vstd::pervasive::strictly_cloned(
            value,
            held,
        )),
{
    timeline::lemma_count_below_unique(entries, tick.0 + 1, i + 1);
}

/// From a value on, up to a value that follows it, the two are blended: a sample is what the
/// interpolation function gives for a clone of the earlier value, a clone of the later value, and
/// the ticks that have gone by and that lie between them.
pub proof fn law_sample_blends_values<C: Clone, F: FnOnce(C, C, InterpolationWindow) -> C>(
    entries: Seq<(Tick, HistoryState<C>)>,
    i: int,
    start: C,
    end: C,
    tick: Tick,
    interpolation_fn: F,
    sample: ConfirmedHistorySample<C>,
)
    requires
        forall|a: int, b: int|
            #![trigger entries[a], entries[b]]
            0 <= a < b < entries.len() ==> entries[a].0.0 < entries[b].0.0,
        0 <= i < entries.len() - 1,
        entries[i].0.0 <= tick.0 < entries[i + 1].0.0,
        entries[i].1 == HistoryState::Updated(start),
        entries[i + 1].1 == HistoryState::Updated(end),
    ensures
        history::keyframes_at(entries, tick, true) matches Keyframes::Blend {
            start: from,
            end: to,
            window,
        } && {
            &&& from == start
            &&& to == end
            &&& window.start_tick == entries[i].0
            &&& window.end_tick == entries[i + 1].0
            &&& tick.0 - entries[i].0.0 <= i32::MAX ==> window.elapsed == tick.0 - entries[i].0.0
            &&& tick.0 - entries[i].0.0 > i32::MAX ==> window.elapsed == i32::MAX
            &&& entries[i + 1].0.0 - entries[i].0.0 <= i32::MAX ==> window.span == entries[i
                + 1].0.0 - entries[i].0.0
            &&& entries[i + 1].0.0 - entries[i].0.0 > i32::MAX ==> window.span == i32::MAX
        },
        history::may_sample(entries, tick, Some(interpolation_fn), sample) ==> (sample matches
            ConfirmedHistorySample::Present(result) && exists|
            from: C,
            to: C,
            window: InterpolationWindow,
        |
            {
                &&& vstd::pervasive::strictly_cloned(start, from)
                &&& vstd::pervasive::strictly_cloned(end, to)
                &&& window.start_tick == entries[i].0
                &&& window.end_tick == entries[i + 1].0
                &&& tick.0 - entries[i].0.0 <= i32::MAX ==> window.elapsed == tick.0
                    - entries[i].0.0
                &&& tick.0 - entries[i].0.0 > i32::MAX ==> window.elapsed == i32::MAX
                &&& entries[i + 1].0.0 - entries[i].0.0 <= i32::MAX ==> window.span == entries[i
                    + 1].0.0 - entries[i].0.0
                &&& entries[i + 1].0.0 - entries[i].0.0 > i32::MAX ==> window.span == i32::MAX
                &&& #[trigger] interpolation_fn.ensures((from, to, window), result)
            }),
{
    timeline::lemma_count_below_unique(entries, tick.0 + 1, i + 1);
}

/// A value that is held is one of the history, and dated at or before the sampled tick; nothing
/// else of the history is dated between the two.
pub proof fn law_held_value_is_not_from_the_future<C>(
    entries: Seq<(Tick, HistoryState<C>)>,
    tick: Tick,
    can_blend: bool,
)
    requires
        forall|a: int, b: int|
            #![trigger entries[a], entries[b]]
            0 <= a < b < entries.len() ==> entries[a].0.0 < entries[b].0.0,
    ensures
        history::keyframes_at(entries, tick, can_blend) matches Keyframes::Hold(value)
            ==> exists|i: int|
            {
                &&& 0 <= i < entries.len()
                &&& (#[trigger] entries[i]).1 == HistoryState::Updated(value)
                &&& entries[i].0.0 <= tick.0
                &&& forall|j: int| i < j < entries.len() ==> tick.0 < (#[trigger] entries[j]).0.0
            },
{
    timeline::lemma_count_below_splits(entries, tick.0 + 1);
    if let Keyframes::Hold(value) = history::keyframes_at(entries, tick, can_blend) {
        let i = timeline::last_at_or_before(entries, tick);
        assert(entries[i].1 == HistoryState::Updated(value));
    }
}

/// References to keyframes stand for keyframes of the same kind, with the values referred to.
pub proof fn law_keyframe_references<C>(keyframes: Keyframes<&C>)
    ensures
        keyframes is Pending <==> keyframes.values() is Pending,
        keyframes is Removed <==> keyframes.values() is Removed,
        keyframes is Hold <==> keyframes.values() is Hold,
        keyframes is Blend <==> keyframes.values() is Blend,
        keyframes matches Keyframes::Hold(value) ==> keyframes.values() == Keyframes::Hold(*value),
        keyframes matches Keyframes::Blend { start, end, window } ==> keyframes.values() == (
        Keyframes::Blend { start: *start, end: *end, window }),
{
}

/// A reference that was found stands for the tick it came with and the value referred to, and
/// nothing found for nothing.
pub proof fn law_found_reference<C>(found: Option<(Tick, &C)>)
    ensures
        found is None <==> history::dated_value(found) is None,
        found matches Some((tick, value)) ==> history::dated_value(found) == Some((tick, *value)),
{
}

/// With two values or more, and from the tick of the oldest on, there is something to interpolate,
/// however far the tick lies behind the second: the two oldest values go to the interpolation
/// function, as clones, with the ticks that have gone by since the oldest and that lie between the
/// two. Before the oldest value there is nothing.
///
/// Entries `i` and `j` are the two oldest values: all other entries before `j` are removals.
pub proof fn law_interpolate_between_two_oldest_values<
    C: Clone,
    F: FnOnce(C, C, InterpolationWindow) -> C,
>(
    entries: Seq<(Tick, HistoryState<C>)>,
    i: int,
    start: C,
    j: int,
    end: C,
    tick: Tick,
    interpolation_fn: F,
    interpolated: Option<C>,
)
    requires
        0 <= i < j < entries.len(),
        entries[i].1 == HistoryState::Updated(start),
        entries[j].1 == HistoryState::Updated(end),
        forall|k: int| 0 <= k < j && k != i ==> (#[trigger] entries[k]).1 is Removed,
        entries[i].0.0 < entries[j].0.0,
        history::may_interpolate(entries, tick, interpolation_fn, interpolated),
    ensures
        tick.0 < entries[i].0.0 ==> interpolated is None,
        entries[i].0.0 <= tick.0 ==> (interpolated matches Some(result) && exists|
            from: C,
            to: C,
            window: InterpolationWindow,
        |
            {
                &&& vstd::pervasive::strictly_cloned(start, from)
                &&& vstd::pervasive::strictly_cloned(end, to)
                &&& window.start_tick == entries[i].0
                &&& window.end_tick == entries[j].0
                &&& tick.0 - entries[i].0.0 <= i32::MAX ==> window.elapsed == tick.0
                    - entries[i].0.0
                &&& tick.0 - entries[i].0.0 > i32::MAX ==> window.elapsed == i32::MAX
                &&& entries[j].0.0 - entries[i].0.0 <= i32::MAX ==> window.span == entries[j].0.0
                    - entries[i].0.0
                &&& entries[j].0.0 - entries[i].0.0 > i32::MAX ==> window.span == i32::MAX
                &&& #[trigger] interpolation_fn.ensures((from, to, window), result)
            }),
{
    lemma_two_oldest_values(entries, i, start, j, end);
}

/// The two oldest values, read off the entries.
proof fn lemma_two_oldest_values<C>(
    entries: Seq<(Tick, HistoryState<C>)>,
    i: int,
    start: C,
    j: int,
    end: C,
)
    requires
        0 <= i < j < entries.len(),
        entries[i].1 == HistoryState::Updated(start),
        entries[j].1 == HistoryState::Updated(end),
        forall|k: int| 0 <= k < j && k != i ==> (#[trigger] entries[k]).1 is Removed,
    ensures
        timeline::values(entries).len() >= 2,
        timeline::values(entries)[0] == (entries[i].0, start),
        timeline::values(entries)[1] == (entries[j].0, end),
{
    timeline::lemma_values_skip_removals(entries, 0, i);
    timeline::lemma_values_step(entries, i);
    timeline::lemma_values_skip_removals(entries, i + 1, j);
    timeline::lemma_values_step(entries, j);
    timeline::lemma_values_prefix(entries, j + 1);
    let first = timeline::values(entries.take(j + 1));
    assert(timeline::values(entries)[0] == first[0]);
    assert(timeline::values(entries)[1] == first[1]);
}

/// With fewer than two values there is nothing to interpolate.
pub proof fn law_interpolate_needs_two_values<
    C: Clone,
    F: FnOnce(C, C, InterpolationWindow) -> C,
>(
    entries: Seq<(Tick, HistoryState<C>)>,
    tick: Tick,
    interpolation_fn: F,
    interpolated: Option<C>,
)
    requires
        forall|i: int, j: int|
            #![trigger entries[i], entries[j]]
            0 <= i < j < entries.len() ==> entries[i].0.0 < entries[j].0.0,
        forall|i: int, j: int|
            #![trigger entries[i], entries[j]]
            0 <= i < j < entries.len() ==> entries[i].1 is Removed || entries[j].1 is Removed,
        history::may_interpolate(entries, tick, interpolation_fn, interpolated),
    ensures
        interpolated is None,
{
    let values = timeline::values(entries);
    if values.len() >= 2 {
        laws::law_values_are_the_updates(entries, values[0].0, values[0].1);
        laws::law_values_are_the_updates(entries, values[1].0, values[1].1);
        assert(values.contains(values[0]) && values.contains(values[1]));
        let a = choose|a: int|
            0 <= a < entries.len() && entries[a] == (
                values[0].0,
                HistoryState::Updated(values[0].1),
            );
        let b = choose|b: int|
            0 <= b < entries.len() && entries[b] == (
                values[1].0,
                HistoryState::Updated(values[1].1),
            );
        assert(entries[a].0.0 < entries[b].0.0);
        assert(a < b || b < a);
    }
}

/// Any interpolation function that accepts all values, and all windows that have a positive span
/// and no negative elapsed time, will do to sample and to interpolate.
pub proof fn law_any_total_function_will_do<C, F: FnOnce(C, C, InterpolationWindow) -> C>(
    interpolation_fn: F,
)
    requires
        forall|from: C, to: C, window: InterpolationWindow|
            0 <= window.elapsed && 0 < window.span ==> #[trigger] interpolation_fn.requires(
                (from, to, window),
            ),
    ensures
        history::accepts_windows::<C, F>(interpolation_fn),
        history::accepts_bracketing_windows::<C, F>(interpolation_fn),
{
}

/// To sample, an interpolation function need not accept more elapsed time than the span.
pub proof fn law_bracketing_function_will_do<C, F: FnOnce(C, C, InterpolationWindow) -> C>(
    interpolation_fn: F,
)
    requires
        forall|from: C, to: C, window: InterpolationWindow|
            0 <= window.elapsed <= window.span && 0 < window.span
                ==> #[trigger] interpolation_fn.requires((from, to, window)),
    ensures
        history::accepts_bracketing_windows::<C, F>(interpolation_fn),
{
}

/// The entry at an index gives its tick and value when it is an update, whatever the other entries
/// are. A removal gives nothing, and neither does an index at which there is no entry.
///
/// Index zero is what a pop gives, the last index what the newest value is.
pub proof fn law_present_is_the_update<C>(entries: Seq<(Tick, HistoryState<C>)>, n: int)
    ensures
        0 <= n < entries.len() ==> match entries[n] {
            (tick, HistoryState::Updated(value)) => timeline::present(entries, n) == Some(
                (tick, value),
            ),
            (_, HistoryState::Removed) => timeline::present(entries, n) is None,
        },
        n < 0 || entries.len() <= n ==> timeline::present(entries, n) is None,
{
}

/// What a pop gives and what it leaves make up what was there: nothing is lost but a removal.
pub proof fn law_pop_loses_no_value<C>(entries: Seq<(Tick, HistoryState<C>)>)
    requires
        entries.len() > 0,
    ensures
        timeline::present(entries, 0) matches Some((tick, value)) ==> entries == seq![
            (tick, HistoryState::Updated(value)),
        ] + entries.drop_first(),
        timeline::present(entries, 0) is None ==> entries[0].1 is Removed,
        timeline::values(entries) == match timeline::present(entries, 0) {
            Some(popped) => seq![popped] + timeline::values(entries.drop_first()),
            None => timeline::values(entries.drop_first()),
        },
    decreases entries.len(),
{
    assert(entries =~= seq![entries[0]] + entries.drop_first());
    let older = entries.drop_last();
    reveal_with_fuel(timeline::values, 2);
    if older.len() > 0 {
        law_pop_loses_no_value(older);
        assert(older.drop_first() =~= entries.drop_first().drop_last());
        assert(entries.drop_first().last() == entries.last());
        assert(older[0] == entries[0]);
    } else {
        assert(entries.drop_first().len() == 0);
    }
    assert(timeline::values(entries) =~= match timeline::present(entries, 0) {
        Some(popped) => seq![popped] + timeline::values(entries.drop_first()),
        None => timeline::values(entries.drop_first()),
    });
}

/// After a pop the newest entry is an unchanged anchor if it was one and is still there.
pub proof fn law_pop_keeps_mark_of_what_is_left<C>(
    entries: Seq<(Tick, HistoryState<C>)>,
    unchanged: bool,
)
    ensures
        entries.len() >= 2 ==> history::unchanged_after_pop(entries, unchanged) == unchanged,
        entries.len() < 2 ==> !history::unchanged_after_pop(entries, unchanged),
{
}

/// The newest value is that of the last entry, if that one is an update, and there is none if the
/// last entry is a removal or the history is empty.
pub proof fn law_newest_is_the_last_entry<C>(entries: Seq<(Tick, HistoryState<C>)>)
    ensures
        entries.len() == 0 ==> history::newest_present(entries) is None,
        entries.len() > 0 ==> match entries[entries.len() - 1] {
            (tick, HistoryState::Updated(value)) => history::newest_present(entries) == Some(
                (tick, value),
            ),
            (_, HistoryState::Removed) => history::newest_present(entries) is None,
        },
{
}

/// The values of a history are its updates, in their order, each with its tick. The `n`-th oldest
/// value is the `n`-th update, and there is one exactly when there are more than `n` updates.
///
/// `is_update` is any predicate that tells updates from removals.
pub proof fn law_nth_value_is_the_nth_update<C>(
    entries: Seq<(Tick, HistoryState<C>)>,
    is_update: spec_fn((Tick, HistoryState<C>)) -> bool,
    n: int,
)
    requires
        forall|entry: (Tick, HistoryState<C>)| #[trigger]
            is_update(entry) <==> entry.1 is Updated,
    ensures
        timeline::values(entries).len() == entries.filter(is_update).len(),
        forall|k: int|
            0 <= k < timeline::values(entries).len() ==> entries.filter(is_update)[k] == (
                (#[trigger] timeline::values(entries)[k]).0,
                HistoryState::Updated(timeline::values(entries)[k].1),
            ),
        timeline::nth_value(entries, n) is Some <==> 0 <= n < entries.filter(is_update).len(),
        timeline::nth_value(entries, n) matches Some((tick, value)) ==> entries.filter(
            is_update,
        )[n] == (tick, HistoryState::Updated(value)) && timeline::values(entries)[n] == (
            tick,
            value,
        ),
    decreases entries.len(),
{
    reveal(Seq::filter);
    if entries.len() > 0 {
        law_nth_value_is_the_nth_update(entries.drop_last(), is_update, n);
        let older = timeline::values(entries.drop_last());
        let all = timeline::values(entries);
        assert forall|k: int| 0 <= k < all.len() implies entries.filter(is_update)[k] == (
            (#[trigger] all[k]).0,
            HistoryState::Updated(all[k].1),
        ) by {
            if k < older.len() {
                assert(all[k] == older[k]);
            }
        }
    }
}

/// With two values or more, the start is the oldest of them and the end the second oldest: the
/// values with the smallest and the second smallest tick.
pub proof fn law_start_and_end_are_the_two_oldest<C>(
    entries: Seq<(Tick, HistoryState<C>)>,
    i: int,
    start: C,
    j: int,
    end: C,
)
    requires
        0 <= i < j < entries.len(),
        entries[i].1 == HistoryState::Updated(start),
        entries[j].1 == HistoryState::Updated(end),
        forall|k: int| 0 <= k < j && k != i ==> (#[trigger] entries[k]).1 is Removed,
    ensures
        timeline::nth_value(entries, 0) == Some((entries[i].0, start)),
        timeline::nth_value(entries, 1) == Some((entries[j].0, end)),
{
    lemma_two_oldest_values(entries, i, start, j, end);
}

/// Reading a value by its number is the same for every number: the start is number zero and the
/// end is number one.
pub proof fn law_start_and_end_are_numbered<C>(entries: Seq<(Tick, HistoryState<C>)>, n: int)
    ensures
        timeline::nth_value(entries, n) == if 0 <= n < timeline::values(entries).len() {
            Some(timeline::values(entries)[n])
        } else {
            None
        },
        timeline::values(entries).len() >= 2 ==> timeline::nth_value(entries, 0) == Some(
            timeline::values(entries)[0],
        ) && timeline::nth_value(entries, 1) == Some(timeline::values(entries)[1]),
        timeline::values(entries).len() <= 1 ==> timeline::nth_value(entries, 1) is None,
{
}

/// After a push or removal the history holds what came for its tick, and of every other tick just
/// what it held before, in order of ticks.
pub proof fn law_push_records_at_its_tick<C>(
    entries: Seq<(Tick, HistoryState<C>)>,
    tick: Tick,
    state: HistoryState<C>,
    other: (Tick, HistoryState<C>),
)
    requires
        forall|i: int, j: int|
            #![trigger entries[i], entries[j]]
            0 <= i < j < entries.len() ==> entries[i].0.0 < entries[j].0.0,
    ensures
        ({
            let pushed = timeline::with_entry(entries, tick, state);
            &&& pushed.contains((tick, state))
            &&& other.0 != tick ==> (pushed.contains(other) <==> entries.contains(other))
            &&& other.0 == tick && pushed.contains(other) ==> other.1 == state
            &&& entries.len() <= pushed.len() <= entries.len() + 1
            &&& pushed.len() == entries.len() <==> exists|i: int|
                0 <= i < entries.len() && (#[trigger] entries[i]).0 == tick
            &&& forall|i: int, j: int|
                #![trigger pushed[i], pushed[j]]
                0 <= i < j < pushed.len() ==> pushed[i].0.0 < pushed[j].0.0
        }),
{
    timeline::lemma_with_entry(entries, tick, state);
    timeline::lemma_count_below_range(entries, tick.0 as int);
    let pushed = timeline::with_entry(entries, tick, state);
    assert(pushed.contains((tick, state)));
    assert(pushed.contains(other) <==> {
        ||| other == (tick, state)
        ||| other.0 != tick && entries.contains(other)
    });
}

/// Confirming the newest value at a tick keeps every entry before it. An unchanged anchor is moved
/// to the tick with the value it has. Any other newest value stays, and a clone of it is put at the
/// tick.
pub proof fn law_unchanged_extends_newest_value<C: Clone>(
    before: Seq<(Tick, HistoryState<C>)>,
    unchanged: bool,
    tick: Tick,
    after: Seq<(Tick, HistoryState<C>)>,
)
    requires
        history::extended_to(before, unchanged, tick, after),
    ensures
        before.len() > 0,
        after.len() == before.len() + if unchanged {
            0int
        } else {
            1
        },
        forall|i: int| 0 <= i < after.len() - 1 ==> #[trigger] after[i] == before[i],
        after[after.len() - 1].0 == tick,
        match (before[before.len() - 1].1, after[after.len() - 1].1) {
            (HistoryState::Updated(value), HistoryState::Updated(anchor)) => if unchanged {
                anchor == value
            } else {
                vstd::pervasive::strictly_cloned(value, anchor)
            },
            _ => false,
        },
{
    assert forall|i: int| 0 <= i < after.len() - 1 implies #[trigger] after[i] == before[i] by {
        if !unchanged {
            assert(after.drop_last()[i] == after[i]);
        }
    }
}

/// Two buffers are equal exactly when they have as many entries, with the same ticks in the same
/// places.
pub proof fn law_buffers_are_equal_by_ticks<R>(a: HistoryBuffer<R>, b: HistoryBuffer<R>)
    ensures
        <HistoryBuffer<R> as PartialEqSpec>::obeys_eq_spec(),
        a.eq_spec(&b) <==> {
            &&& a@.len() == b@.len()
            &&& forall|i: int| 0 <= i < a@.len() ==> (#[trigger] a@[i]).0 == b@[i].0
        },
{
    lemma_equal_ticks(a@, b@);
}

/// Two histories are equal exactly when they have as many entries, with the same ticks in the same
/// places, and the newest entry is an unchanged anchor in both or in neither.
pub proof fn law_histories_are_equal_by_ticks<C>(a: ConfirmedHistory<C>, b: ConfirmedHistory<C>)
    ensures
        <ConfirmedHistory<C> as PartialEqSpec>::obeys_eq_spec(),
        a.eq_spec(&b) <==> {
            &&& a@.len() == b@.len()
            &&& forall|i: int| 0 <= i < a@.len() ==> (#[trigger] a@[i]).0 == b@[i].0
            &&& a.newest_is_unchanged() == b.newest_is_unchanged()
        },
{
    lemma_equal_ticks(a@, b@);
}

/// Equal sequences of ticks are equal tick by tick.
proof fn lemma_equal_ticks<C>(
    a: Seq<(Tick, HistoryState<C>)>,
    b: Seq<(Tick, HistoryState<C>)>,
)
    ensures
        timeline::ticks(a) == timeline::ticks(b) <==> {
            &&& a.len() == b.len()
            &&& forall|i: int| 0 <= i < a.len() ==> (#[trigger] a[i]).0 == b[i].0
        },
{
    if timeline::ticks(a) == timeline::ticks(b) {
        assert(timeline::ticks(a).len() == timeline::ticks(b).len());
        assert forall|i: int| 0 <= i < a.len() implies (#[trigger] a[i]).0 == b[i].0 by {
            assert(timeline::ticks(a)[i] == timeline::ticks(b)[i]);
        }
    }
    if a.len() == b.len() && (forall|i: int|
        0 <= i < a.len() ==> (#[trigger] a[i]).0 == b[i].0) {
        assert(timeline::ticks(a) =~= timeline::ticks(b));
    }
}

} // verus!
