//! The confirmed values of one component, as received from the remote, and how they are sampled.

use crate::history_buffer::{HistoryBuffer, HistoryState};
use crate::tick::{self, Tick};
use crate::timeline::{self, Entries};
use vstd::prelude::*;

verus! {

/// Stores a buffer of past component values received from the remote.
///
/// The entries are kept in order of their ticks, whatever the order they arrive in, and no tick
/// occurs twice.
#[derive(Debug)]
pub struct ConfirmedHistory<C> {
    history: HistoryBuffer<C>,
    /// True when the newest anchor was synthesized from an empty mutate tick.
    ///
    /// Empty mutate ticks confirm that a component did not change. While this stays true, newer
    /// empty mutate ticks can slide the same anchor forward instead of cloning the value again.
    newest_is_unchanged: bool,
}

/// What a history holds for some tick.
#[derive(Debug, PartialEq)]
pub enum ConfirmedHistorySample<C> {
    /// The history does not reach back to the tick.
    Pending,
    /// The component is removed at the tick.
    Removed,
    /// The component has this value at the tick.
    Present(C),
}

/// How far the interpolation tick lies between two keyframes, in whole ticks.
///
/// The fraction to interpolate with is `elapsed`, plus the overstep of the clock into the current
/// tick, over `span`, held between zero and one.
#[derive(Clone, Copy, Debug, PartialEq, Eq, Structural)]
pub struct InterpolationWindow {
    /// The tick of the start keyframe.
    pub start_tick: Tick,
    /// The tick of the end keyframe.
    pub end_tick: Tick,
    /// Ticks from the start keyframe to the interpolation tick.
    pub elapsed: i32,
    /// Ticks from the start keyframe to the end keyframe.
    pub span: i32,
}

/// The keyframes that determine the value at some tick.
#[derive(Debug, PartialEq)]
pub enum Keyframes<V> {
    /// The history does not reach back to the tick.
    Pending,
    /// The component is removed at the tick.
    Removed,
    /// This value holds at the tick.
    Hold(V),
    /// The value at the tick lies between two values.
    Blend { start: V, end: V, window: InterpolationWindow },
}

/// The window of `tick` between keyframes at `start` and `end`.
pub open spec fn window_between(start: Tick, end: Tick, tick: Tick) -> InterpolationWindow {
    InterpolationWindow {
        start_tick: start,
        end_tick: end,
        elapsed: tick::saturating_difference(tick, start),
        span: tick::saturating_difference(end, start),
    }
}

/// The keyframes for `tick`: the last entry at or before it, and the value that follows it, if a
/// value does and values can be blended.
pub open spec fn keyframes_at<C>(entries: Entries<C>, tick: Tick, can_blend: bool) -> Keyframes<C> {
    let previous = timeline::last_at_or_before(entries, tick);
    if previous < 0 {
        Keyframes::Pending
    } else {
        match (entries[previous].1, timeline::present(entries, previous + 1)) {
            (HistoryState::Removed, _) => Keyframes::Removed,
            (HistoryState::Updated(start), Some((end_tick, end))) if can_blend => Keyframes::Blend {
                start,
                end,
                window: window_between(entries[previous].0, end_tick, tick),
            },
            (HistoryState::Updated(start), _) => Keyframes::Hold(start),
        }
    }
}

/// The keyframes for `tick` between the two oldest values, unless one of them is missing or `tick`
/// lies before both.
pub open spec fn oldest_keyframes<C>(entries: Entries<C>, tick: Tick) -> Option<
    (C, C, InterpolationWindow),
> {
    match (timeline::nth_value(entries, 0), timeline::nth_value(entries, 1)) {
        (Some((start_tick, start)), Some((end_tick, end))) if start_tick.0 <= tick.0 => Some(
            (start, end, window_between(start_tick, end_tick, tick)),
        ),
        _ => None,
    }
}

/// `result` is what `blend` may give for clones of two keyframes.
pub open spec fn blended<C: Clone, F: FnOnce(C, C, InterpolationWindow) -> C>(
    blend: F,
    start: C,
    end: C,
    window: InterpolationWindow,
    result: C,
) -> bool {
    exists|from: C, to: C|
        vstd::pervasive::strictly_cloned(start, from) && vstd::pervasive::strictly_cloned(end, to) && #[trigger] blend.ensures(
            (from, to, window),
            result,
        )
}

/// `blend` accepts any two values and any window that starts at or before the interpolation tick.
pub open spec fn accepts_windows<C, F: FnOnce(C, C, InterpolationWindow) -> C>(blend: F) -> bool {
    forall|from: C, to: C, window: InterpolationWindow|
        0 <= window.elapsed && 0 < window.span ==> #[trigger] blend.requires((from, to, window))
}

/// `blend` accepts any two values and any window around the interpolation tick.
pub open spec fn accepts_bracketing_windows<C, F: FnOnce(C, C, InterpolationWindow) -> C>(
    blend: F,
) -> bool {
    forall|from: C, to: C, window: InterpolationWindow|
        0 <= window.elapsed <= window.span && 0 < window.span ==> #[trigger] blend.requires(
            (from, to, window),
        )
}

/// `sample` is what sampling `entries` at `tick` may give.
pub open spec fn may_sample<C: Clone, F: FnOnce(C, C, InterpolationWindow) -> C>(
    entries: Entries<C>,
    tick: Tick,
    interpolation_fn: Option<F>,
    sample: ConfirmedHistorySample<C>,
) -> bool {
    match keyframes_at(entries, tick, interpolation_fn is Some) {
        Keyframes::Pending => sample is Pending,
        Keyframes::Removed => sample is Removed,
        Keyframes::Hold(value) => sample matches ConfirmedHistorySample::Present(held)
            && vstd::pervasive::strictly_cloned(value, held),
        Keyframes::Blend { start, end, window } => sample matches ConfirmedHistorySample::Present(
            result,
        ) && blended(interpolation_fn->0, start, end, window, result),
    }
}

/// `interpolated` is what interpolating `entries` at `tick` may give.
pub open spec fn may_interpolate<C: Clone, F: FnOnce(C, C, InterpolationWindow) -> C>(
    entries: Entries<C>,
    tick: Tick,
    interpolation_fn: F,
    interpolated: Option<C>,
) -> bool {
    match oldest_keyframes(entries, tick) {
        Some((start, end, window)) => interpolated matches Some(result) && blended(
            interpolation_fn,
            start,
            end,
            window,
            result,
        ),
        None => interpolated is None,
    }
}

impl<C> Keyframes<&C> {
    /// The keyframes behind the references.
    pub open spec fn values(self) -> Keyframes<C> {
        match self {
            Keyframes::Pending => Keyframes::Pending,
            Keyframes::Removed => Keyframes::Removed,
            Keyframes::Hold(value) => Keyframes::Hold(*value),
            Keyframes::Blend { start, end, window } => Keyframes::Blend {
                start: *start,
                end: *end,
                window,
            },
        }
    }
}

/// What an `Option` of a dated reference refers to.
pub open spec fn dated_value<C>(found: Option<(Tick, &C)>) -> Option<(Tick, C)> {
    match found {
        Some((tick, value)) => Some((tick, *value)),
        None => None,
    }
}

/// The newest value, and its tick, unless the newest entry is a removal.
pub open spec fn newest_present<C>(entries: Entries<C>) -> Option<(Tick, C)> {
    timeline::present(entries, entries.len() - 1)
}

/// What is left of the mark on an unchanged anchor once the oldest of `entries` is taken out.
pub open spec fn unchanged_after_pop<C>(entries: Entries<C>, unchanged: bool) -> bool {
    unchanged && entries.len() > 1
}

/// `after` is `before` with its newest value confirmed to hold still at `tick`: an anchor that was
/// put there for the same reason moves to `tick`, any other newest value is repeated at `tick`.
pub open spec fn extended_to<C: Clone>(
    before: Entries<C>,
    unchanged: bool,
    tick: Tick,
    after: Entries<C>,
) -> bool {
    &&& newest_present(before) matches Some((_, value))
    &&& if unchanged {
        after == before.update(before.len() - 1, (tick, before.last().1))
    } else {
        &&& after.len() == before.len() + 1
        &&& after.drop_last() == before
        &&& newest_present(after) matches Some((newest_tick, repeated))
        &&& newest_tick == tick
        &&& vstd::pervasive::strictly_cloned(value, repeated)
    }
}

impl<C> View for ConfirmedHistory<C> {
    type V = Entries<C>;

    closed spec fn view(&self) -> Entries<C> {
        self.history@
    }
}

impl<C> Default for ConfirmedHistory<C> {
    fn default() -> (empty: Self)
        ensures
            empty.wf(),
            empty@ == Entries::<C>::empty(),
            !empty.newest_is_unchanged(),
    {
        ConfirmedHistory { history: HistoryBuffer::default(), newest_is_unchanged: false }
    }
}

impl<C> vstd::std_specs::cmp::PartialEqSpecImpl for ConfirmedHistory<C> {
    open spec fn obeys_eq_spec() -> bool {
        true
    }

    open spec fn eq_spec(&self, other: &Self) -> bool {
        &&& timeline::ticks(self@) == timeline::ticks(other@)
        &&& self.newest_is_unchanged() == other.newest_is_unchanged()
    }
}

/// Two histories are equal when they hold the same ticks and agree on whether the newest anchor is
/// an unchanged one. Values are not compared.
impl<C> PartialEq for ConfirmedHistory<C> {
    fn eq(&self, other: &Self) -> (equal: bool) {
        self.history == other.history && self.newest_is_unchanged == other.newest_is_unchanged
    }
}

impl<C> ConfirmedHistory<C> {
    /// Whether the newest anchor was synthesized from an empty mutate tick.
    pub closed spec fn newest_is_unchanged(&self) -> bool {
        self.newest_is_unchanged
    }

    /// The entries are in strict order of their ticks, and an unchanged anchor holds a value.
    pub open spec fn wf(&self) -> bool {
        &&& timeline::ordered(self@)
        &&& self.newest_is_unchanged() ==> newest_present(self@) is Some
    }

    /// The number of entries, removals included.
    pub fn len(&self) -> (len: usize)
        ensures
            len == self@.len(),
    {
        self.history.len()
    }

    /// Get the n-th oldest tick in the buffer (starts from n = 0)
    pub fn get_nth_tick(&self, n: usize) -> (found: Option<Tick>)
        ensures
            found == if n < self@.len() {
                Some(self@[n as int].0)
            } else {
                None
            },
    {
        match self.history.get_nth(n) {
            Some((tick, _)) => Some(*tick),
            None => None,
        }
    }

    /// Get the n-th oldest entry in the buffer (starts from n = 0), removals included.
    fn get_nth_state(&self, n: usize) -> (found: Option<(Tick, &HistoryState<C>)>)
        ensures
            match found {
                Some((tick, state)) => n < self@.len() && (tick, *state) == self@[n as int],
                None => self@.len() <= n,
            },
    {
        match self.history.get_nth(n) {
            Some((tick, state)) => Some((*tick, state)),
            None => None,
        }
    }

    /// The oldest value in the history, which is used as the start value for the interpolation
    pub fn start(&self) -> (found: Option<(Tick, &C)>)
        ensures
            dated_value(found) == timeline::nth_value(self@, 0),
    {
        self.get_nth(0)
    }

    /// The second oldest value in the history, which is used as the end value for the interpolation
    pub fn end(&self) -> (found: Option<(Tick, &C)>)
        ensures
            dated_value(found) == timeline::nth_value(self@, 1),
    {
        self.get_nth(1)
    }

    /// The most recent value in the history, unless the most recent entry is a removal.
    pub fn newest(&self) -> (found: Option<(Tick, &C)>)
        ensures
            dated_value(found) == newest_present(self@),
    {
        match self.history.most_recent() {
            None | Some((_, HistoryState::Removed)) => None,
            Some((tick, HistoryState::Updated(value))) => Some((*tick, value)),
        }
    }

    /// Get the n-th oldest `(tick, value)` in the buffer (starts from n = 0), skipping removals.
    pub fn get_nth(&self, n: usize) -> (found: Option<(Tick, &C)>)
        ensures
            dated_value(found) == if n < timeline::values(self@).len() {
                Some(timeline::values(self@)[n as int])
            } else {
                None
            },
    {
        let len: usize = self.len();
        let mut i: usize = 0;
        let mut skipped: usize = 0;
        while i < len
            invariant
                i <= len,
                len == self@.len(),
                skipped <= n,
                skipped == timeline::values(self@.take(i as int)).len(),
            decreases len - i,
        {
            proof {
                timeline::lemma_values_step(self@, i as int);
                timeline::lemma_values_prefix(self@, i + 1);
            }
            if let Some((tick, HistoryState::Updated(value))) = self.history.get_nth(i) {
                if skipped == n {
                    assert(timeline::values(self@)[n as int] == timeline::values(
                        self@.take(i + 1),
                    )[n as int]);
                    return Some((*tick, value));
                }
                skipped += 1;
            }
            i += 1;
        }
        assert(self@.take(i as int) =~= self@);
        None
    }

    /// Whether the newest anchor is an unchanged one and stays the newest when something arrives
    /// for `tick`.
    fn keeps_unchanged_anchor(&self, tick: Tick) -> (keeps: bool)
        requires
            self.wf(),
        ensures
            keeps == (self.newest_is_unchanged() && tick.0 < self@.last().0.0),
    {
        match self.history.most_recent() {
            Some((newest_tick, _)) => self.newest_is_unchanged && tick.0 < newest_tick.0,
            None => false,
        }
    }

    /// Push a new value in the history.
    ///
    /// Updates normally arrive in order of their ticks, but a burst of late packets can bring them
    /// out of order. The value goes where its tick belongs, and replaces whatever was known of that
    /// tick, so that sampling never picks a stale keyframe. An unchanged anchor that stays the
    /// newest entry stays an unchanged anchor.
    pub fn push(&mut self, tick: Tick, value: C)
        requires
            old(self).wf(),
        ensures
            final(self).wf(),
            final(self)@ == timeline::with_entry(old(self)@, tick, HistoryState::Updated(value)),
            final(self).newest_is_unchanged() == (old(self).newest_is_unchanged() && tick.0 < old(
                self,
            )@.last().0.0),
    {
        let keeps_anchor: bool = self.keeps_unchanged_anchor(tick);
        proof {
            if keeps_anchor {
                timeline::lemma_late_entry(self@, tick, HistoryState::Updated(value));
            }
        }
        self.history.add_update_sorted(tick, value);
        self.newest_is_unchanged = keeps_anchor;
    }

    /// Push a removal in the history. It goes where its tick belongs, as in [`Self::push`].
    pub fn push_remove(&mut self, tick: Tick)
        requires
            old(self).wf(),
        ensures
            final(self).wf(),
            final(self)@ == timeline::with_entry(old(self)@, tick, HistoryState::Removed),
            final(self).newest_is_unchanged() == (old(self).newest_is_unchanged() && tick.0 < old(
                self,
            )@.last().0.0),
    {
        let keeps_anchor: bool = self.keeps_unchanged_anchor(tick);
        proof {
            if keeps_anchor {
                timeline::lemma_late_entry(self@, tick, HistoryState::<C>::Removed);
            }
        }
        self.history.add_remove_sorted(tick);
        self.newest_is_unchanged = keeps_anchor;
    }

    /// Pop the oldest entry in the history. A removal is taken out too, but gives no value.
    pub fn pop(&mut self) -> (popped: Option<(Tick, C)>)
        requires
            old(self).wf(),
        ensures
            final(self).wf(),
            popped == timeline::present(old(self)@, 0),
            final(self)@ == if old(self)@.len() > 0 {
                old(self)@.drop_first()
            } else {
                old(self)@
            },
            final(self).newest_is_unchanged() == unchanged_after_pop(
                old(self)@,
                old(self).newest_is_unchanged(),
            ),
    {
        let popped = match self.history.pop() {
            None | Some((_, HistoryState::Removed)) => None,
            Some((tick, HistoryState::Updated(value))) => Some((tick, value)),
        };
        if self.history.len() == 0 {
            self.newest_is_unchanged = false;
        }
        popped
    }
}

impl<C: Clone> ConfirmedHistory<C> {
    /// Mark the newest value as unchanged at `tick`, and return the tick it was known for before.
    ///
    /// If the newest anchor was already synthesized from an empty mutate tick, only its tick is
    /// advanced. Otherwise a single unchanged anchor is appended by cloning the newest value.
    /// Nothing happens when there is no newest value, or when it is known for `tick` already.
    pub fn push_unchanged(&mut self, tick: Tick) -> (known_until: Option<Tick>)
        requires
            old(self).wf(),
        ensures
            final(self).wf(),
            match newest_present(old(self)@) {
                Some((newest_tick, _)) if newest_tick.0 < tick.0 => {
                    &&& known_until == Some(newest_tick)
                    &&& extended_to(
                        old(self)@,
                        old(self).newest_is_unchanged(),
                        tick,
                        final(self)@,
                    )
                    &&& final(self).newest_is_unchanged()
                },
                _ => known_until is None && *final(self) == *old(self),
            },
    {
        let (newest_tick, newest_value) = match self.newest() {
            Some(newest) => newest,
            None => return None,
        };
        if tick.0 <= newest_tick.0 {
            return None;
        }
        if self.newest_is_unchanged {
            self.history.set_most_recent_tick(tick);
        } else {
            let repeated = newest_value.clone();
            self.history.add_update(tick, repeated);
            self.newest_is_unchanged = true;
            assert(self@.drop_last() =~= old(self)@);
        }
        Some(newest_tick)
    }

    /// The keyframes that determine the value at `interpolation_tick`.
    ///
    /// Values can be blended when `has_interpolation_fn` says that there is a function for it.
    pub fn keyframes(&self, interpolation_tick: Tick, has_interpolation_fn: bool) -> (keyframes:
        Keyframes<&C>)
        requires
            self.wf(),
        ensures
            keyframes.values() == keyframes_at(self@, interpolation_tick, has_interpolation_fn),
            keyframes matches Keyframes::Blend { window, .. } ==> 0 <= window.elapsed <= window.span
                && 0 < window.span,
    {
        let len: usize = self.len();
        let mut reached: usize = 0;
        while reached < len
            invariant_except_break
                reached <= len,
                len == self@.len(),
                reached > 0 ==> self@[reached - 1].0.0 <= interpolation_tick.0,
            ensures
                reached <= len,
                reached > 0 ==> self@[reached - 1].0.0 <= interpolation_tick.0,
                reached < len ==> self@[reached as int].0.0 > interpolation_tick.0,
            decreases len - reached,
        {
            match self.get_nth_tick(reached) {
                Some(tick) if tick.0 <= interpolation_tick.0 => reached += 1,
                _ => break,
            }
        }
        proof {
            timeline::lemma_count_below_unique(self@, interpolation_tick.0 + 1, reached as int);
        }
        if reached == 0 {
            return Keyframes::Pending;
        }
        let (start_tick, start) = match self.get_nth_state(reached - 1) {
            None => return Keyframes::Pending,
            Some((_, HistoryState::Removed)) => return Keyframes::Removed,
            Some((start_tick, HistoryState::Updated(start))) => (start_tick, start),
        };
        let (end_tick, end) = match self.get_nth_state(reached) {
            Some((end_tick, HistoryState::Updated(end))) => (end_tick, end),
            _ => return Keyframes::Hold(start),
        };
        if !has_interpolation_fn {
            return Keyframes::Hold(start);
        }
        let window = InterpolationWindow {
            start_tick,
            end_tick,
            elapsed: interpolation_tick - start_tick,
            span: end_tick - start_tick,
        };
        Keyframes::Blend { start, end, window }
    }

    /// What the history holds for `interpolation_tick`.
    ///
    /// `interpolation_fn` turns two values and the window between them into one, where there is
    /// such a function. It is told the whole ticks; the overstep of the clock is its own matter.
    pub fn sample<F: FnOnce(C, C, InterpolationWindow) -> C>(
        &self,
        interpolation_tick: Tick,
        interpolation_fn: Option<F>,
    ) -> (sample: ConfirmedHistorySample<C>)
        requires
            self.wf(),
            interpolation_fn matches Some(blend) ==> accepts_bracketing_windows::<C, F>(blend),
        ensures
            may_sample(self@, interpolation_tick, interpolation_fn, sample),
    {
        match self.keyframes(interpolation_tick, interpolation_fn.is_some()) {
            Keyframes::Pending => ConfirmedHistorySample::Pending,
            Keyframes::Removed => ConfirmedHistorySample::Removed,
            Keyframes::Hold(value) => ConfirmedHistorySample::Present(value.clone()),
            Keyframes::Blend { start, end, window } => match interpolation_fn {
                Some(blend) => ConfirmedHistorySample::Present(
                    blend(start.clone(), end.clone(), window),
                ),
                None => ConfirmedHistorySample::Present(start.clone()),
            },
        }
    }

    /// The value at `interpolation_tick` between the two oldest values.
    ///
    /// There is none while one of the two is missing, nor when the interpolation tick lags behind
    /// both, for example because two fresh updates arrived after a long gap. `interpolation_fn` is told the whole ticks, as in [`Self::sample`].
    pub fn interpolate<F: FnOnce(C, C, InterpolationWindow) -> C>(
        &self,
        interpolation_tick: Tick,
        interpolation_fn: F,
    ) -> (interpolated: Option<C>)
        requires
            self.wf(),
            accepts_windows::<C, F>(interpolation_fn),
        ensures
            may_interpolate(self@, interpolation_tick, interpolation_fn, interpolated),
    {
        let (start_tick, start) = match self.start() {
            Some(start) => start,
            None => return None,
        };
        if interpolation_tick.0 < start_tick.0 {
            return None;
        }
        let (end_tick, end) = match self.end() {
            Some(end) => end,
            None => return None,
        };
        proof {
            timeline::lemma_values_ordered(self@, 0);
        }
        let window = InterpolationWindow {
            start_tick,
            end_tick,
            elapsed: interpolation_tick - start_tick,
            span: end_tick - start_tick,
        };
        Some(interpolation_fn(start.clone(), end.clone(), window))
    }
}

/// What to do for an entity that becomes interpolated.
#[derive(Debug)]
pub enum Backfill<C> {
    /// The entity has no replicated component, or a history already. Leave it alone.
    Skip,
    /// The authoritative tick of the latest confirmed update is unknown. This should not happen;
    /// the entity is left alone.
    MissingCheckpoint,
    /// Put this history in the place of the live component, which is taken away until the
    /// interpolation timeline reaches the start of the history.
    Replace(ConfirmedHistory<C>),
}

/// When an entity becomes interpolated after its component was already replicated onto it, seed
/// the history from the current value, so that interpolation has an anchor immediately.
///
/// `component` is the current value, where the entity has one and no history yet. `tick` is the
/// authoritative tick of the latest update that was confirmed for the entity, where it is known.
pub fn insert_confirmed_history_on_interpolated<C: Clone>(
    component: Option<&C>,
    tick: Option<Tick>,
) -> (backfill: Backfill<C>)
    ensures
        match (component, tick) {
            (None, _) => backfill is Skip,
            (Some(_), None) => backfill is MissingCheckpoint,
            (Some(value), Some(tick)) => {
                &&& backfill matches Backfill::Replace(history)
                &&& history.wf()
                &&& !history.newest_is_unchanged()
                &&& history@.len() == 1
                &&& timeline::present(history@, 0) matches Some((anchor, seed))
                &&& anchor == tick
                &&& vstd::pervasive::strictly_cloned(*value, seed)
            },
        },
{
    let value = match component {
        Some(value) => value,
        None => return Backfill::Skip,
    };
    let tick = match tick {
        Some(tick) => tick,
        None => return Backfill::MissingCheckpoint,
    };
    let mut history = ConfirmedHistory::<C>::default();
    history.push(tick, value.clone());
    Backfill::Replace(history)
}

} // verus!
