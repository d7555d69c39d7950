//! A queue of dated states, oldest first.
//!
//! It holds what this crate needs of the history buffer of `lightyear_core`, which is a member of
//! the same workspace and not linked. Two of its conventions are taken as given:
//!
//! - two buffers are equal when their ticks are, whatever their values;
//! - an appended update whose tick is that of the most recent entry replaces that entry.

use crate::tick::Tick;
use crate::timeline;
use std::collections::VecDeque;
use vstd::prelude::*;

verus! {

/// What is known of a value at some tick.
#[derive(Debug, PartialEq)]
pub enum HistoryState<R> {
    /// The value was removed.
    Removed,
    /// The value was set.
    Updated(R),
}

/// Past states of one value, from the oldest at the front to the most recent at the back.
#[derive(Debug)]
pub struct HistoryBuffer<R> {
    buffer: VecDeque<(Tick, HistoryState<R>)>,
}

impl<R> View for HistoryBuffer<R> {
    type V = Seq<(Tick, HistoryState<R>)>;

    closed spec fn view(&self) -> Seq<(Tick, HistoryState<R>)> {
        self.buffer@
    }
}

impl<R> Default for HistoryBuffer<R> {
    fn default() -> (empty: Self)
        ensures
            empty@ == Seq::<(Tick, HistoryState<R>)>::empty(),
    {
        HistoryBuffer { buffer: VecDeque::new() }
    }
}

impl<R> vstd::std_specs::cmp::PartialEqSpecImpl for HistoryBuffer<R> {
    open spec fn obeys_eq_spec() -> bool {
        true
    }

    open spec fn eq_spec(&self, other: &Self) -> bool {
        timeline::ticks(self@) == timeline::ticks(other@)
    }
}

/// Two buffers are equal when they hold the same ticks in the same order. Values are not compared.
impl<R> PartialEq for HistoryBuffer<R> {
    fn eq(&self, other: &Self) -> (equal: bool) {
        let len: usize = self.len();
        if len != other.len() {
            assert(timeline::ticks(self@).len() != timeline::ticks(other@).len());
            return false;
        }
        let mut i: usize = 0;
        while i < len
            invariant
                i <= len,
                len == self@.len(),
                len == other@.len(),
                forall|j: int| 0 <= j < i ==> (#[trigger] self@[j]).0 == other@[j].0,
            decreases len - i,
        {
            if self.buffer[i].0.0 != other.buffer[i].0.0 {
                assert(timeline::ticks(self@)[i as int] != timeline::ticks(other@)[i as int]);
                return false;
            }
            i += 1;
        }
        assert(timeline::ticks(self@) =~= timeline::ticks(other@));
        true
    }
}

impl<R> HistoryBuffer<R> {
    /// The number of entries.
    pub fn len(&self) -> (len: usize)
        ensures
            len == self@.len(),
    {
        self.buffer.len()
    }

    /// The most recent entry.
    pub fn most_recent(&self) -> (entry: Option<&(Tick, HistoryState<R>)>)
        ensures
            match entry {
                Some(entry) => self@.len() > 0 && *entry == self@.last(),
                None => self@.len() == 0,
            },
    {
        let len: usize = self.buffer.len();
        if len == 0 {
            None
        } else {
            Some(&self.buffer[len - 1])
        }
    }

    /// The `n`-th oldest entry, counted from zero.
    pub fn get_nth(&self, n: usize) -> (entry: Option<&(Tick, HistoryState<R>)>)
        ensures
            match entry {
                Some(entry) => n < self@.len() && *entry == self@[n as int],
                None => self@.len() <= n,
            },
    {
        if n < self.buffer.len() {
            Some(&self.buffer[n])
        } else {
            None
        }
    }

    /// Appends a value. It replaces the most recent entry when that one has the same tick.
    ///
    /// The caller keeps the order: no entry may be more recent than `tick`.
    pub fn add_update(&mut self, tick: Tick, value: R)
        ensures
            final(self)@ == (if old(self)@.len() > 0 && old(self)@.last().0 == tick {
                old(self)@.drop_last()
            } else {
                old(self)@
            }).push((tick, HistoryState::Updated(value))),
    {
        let len: usize = self.buffer.len();
        if len > 0 && self.buffer[len - 1].0.0 == tick.0 {
            let _ = self.buffer.pop_back();
        }
        self.buffer.push_back((tick, HistoryState::Updated(value)));
    }

    /// Moves the most recent entry to `tick`. Nothing happens to an empty buffer.
    ///
    /// The caller keeps the order: no entry may be more recent than `tick`.
    pub fn set_most_recent_tick(&mut self, tick: Tick)
        ensures
            final(self)@ == if old(self)@.len() > 0 {
                old(self)@.update(old(self)@.len() - 1, (tick, old(self)@.last().1))
            } else {
                old(self)@
            },
    {
        if let Some((_, state)) = self.buffer.pop_back() {
            self.buffer.push_back((tick, state));
        }
        assert(self@ =~= if old(self)@.len() > 0 {
            old(self)@.update(old(self)@.len() - 1, (tick, old(self)@.last().1))
        } else {
            old(self)@
        });
    }

    /// Takes the oldest entry out.
    pub fn pop(&mut self) -> (entry: Option<(Tick, HistoryState<R>)>)
        ensures
            match entry {
                Some(entry) => {
                    &&& old(self)@.len() > 0
                    &&& entry == old(self)@[0]
                    &&& final(self)@ == old(self)@.drop_first()
                },
                None => old(self)@.len() == 0 && final(self)@ == old(self)@,
            },
    {
        self.buffer.pop_front()
    }

    /// The number of entries that are older than `tick`.
    fn position(&self, tick: Tick) -> (position: usize)
        requires
            timeline::ordered(self@),
        ensures
            position == timeline::count_below(self@, tick.0 as int),
    {
        let mut low: usize = 0;
        let mut high: usize = self.buffer.len();
        while low < high
            invariant
                low <= high <= self@.len(),
                timeline::ordered(self@),
                low > 0 ==> self@[low - 1].0.0 < tick.0,
                high < self@.len() ==> self@[high as int].0.0 >= tick.0,
            decreases high - low,
        {
            let middle: usize = low + (high - low) / 2;
            if self.buffer[middle].0.0 < tick.0 {
                low = middle + 1;
            } else {
                high = middle;
            }
        }
        proof {
            timeline::lemma_count_below_unique(self@, tick.0 as int, low as int);
        }
        low
    }

    /// Records a state at `tick` wherever that tick belongs. A state already recorded at that tick
    /// is replaced in place.
    fn add_state_sorted(&mut self, tick: Tick, state: HistoryState<R>)
        requires
            timeline::ordered(old(self)@),
        ensures
            final(self)@ == timeline::with_entry(old(self)@, tick, state),
    {
        let position: usize = self.position(tick);
        proof {
            timeline::lemma_count_below_range(self@, tick.0 as int);
        }
        if position < self.buffer.len() && self.buffer[position].0.0 == tick.0 {
            let _ = self.buffer.remove(position);
            self.buffer.insert(position, (tick, state));
            assert(self@ =~= timeline::with_entry(old(self)@, tick, state));
        } else {
            self.buffer.insert(position, (tick, state));
        }
    }

    /// Records a value at `tick`, in order of ticks. A state already recorded at that tick is
    /// replaced in place.
    pub fn add_update_sorted(&mut self, tick: Tick, value: R)
        requires
            timeline::ordered(old(self)@),
        ensures
            final(self)@ == timeline::with_entry(old(self)@, tick, HistoryState::Updated(value)),
            timeline::ordered(final(self)@),
    {
        proof {
            timeline::lemma_with_entry(self@, tick, HistoryState::Updated(value));
        }
        self.add_state_sorted(tick, HistoryState::Updated(value));
    }

    /// Records a removal at `tick`, in order of ticks. A state already recorded at that tick is
    /// replaced in place.
    pub fn add_remove_sorted(&mut self, tick: Tick)
        requires
            timeline::ordered(old(self)@),
        ensures
            final(self)@ == timeline::with_entry(old(self)@, tick, HistoryState::Removed),
            timeline::ordered(final(self)@),
    {
        proof {
            timeline::lemma_with_entry(self@, tick, HistoryState::<R>::Removed);
        }
        self.add_state_sorted(tick, HistoryState::Removed);
    }
}

} // verus!
