//! The mathematical model of a history: a sequence of dated states, oldest first.

use crate::history_buffer::HistoryState;
use crate::tick::Tick;
use vstd::prelude::*;

verus! {

/// The states of one value, each with the tick from which it holds, oldest first.
pub type Entries<C> = Seq<(Tick, HistoryState<C>)>;

/// Every entry is strictly older than each entry behind it. No tick occurs twice.
pub open spec fn ordered<C>(entries: Entries<C>) -> bool {
    forall|i: int, j: int|
        #![trigger entries[i], entries[j]]
        0 <= i < j < entries.len() ==> entries[i].0.0 < entries[j].0.0
}

/// The length of the shortest prefix that holds every entry dated below `bound`.
///
/// In an ordered history that is the number of entries dated below `bound`.
pub open spec fn count_below<C>(entries: Entries<C>, bound: int) -> int
    decreases entries.len(),
{
    if entries.len() == 0 {
        0
    } else if entries.last().0.0 < bound {
        entries.len() as int
    } else {
        count_below(entries.drop_last(), bound)
    }
}

/// The index of the last entry dated at or before `tick`, or `-1` when there is none.
pub open spec fn last_at_or_before<C>(entries: Entries<C>, tick: Tick) -> int {
    count_below(entries, tick.0 + 1) - 1
}

/// `entries` with `state` recorded at `tick`: an entry of that very tick is replaced in place,
/// otherwise the new one goes in front of the first entry that is more recent.
pub open spec fn with_entry<C>(
    entries: Entries<C>,
    tick: Tick,
    state: HistoryState<C>,
) -> Entries<C> {
    let position = count_below(entries, tick.0 as int);
    if position < entries.len() && entries[position].0 == tick {
        entries.update(position, (tick, state))
    } else {
        entries.insert(position, (tick, state))
    }
}

/// Some state is recorded at exactly `tick`.
pub open spec fn has_tick<C>(entries: Entries<C>, tick: Tick) -> bool {
    exists|i: int| 0 <= i < entries.len() && (#[trigger] entries[i]).0 == tick
}

/// The ticks of the entries, in order.
pub open spec fn ticks<C>(entries: Entries<C>) -> Seq<Tick> {
    Seq::new(entries.len(), |i: int| entries[i].0)
}

/// The `n`-th oldest entry, unless there is none or it is a removal.
pub open spec fn present<C>(entries: Entries<C>, n: int) -> Option<(Tick, C)> {
    if 0 <= n < entries.len() {
        match entries[n].1 {
            HistoryState::Removed => None,
            HistoryState::Updated(value) => Some((entries[n].0, value)),
        }
    } else {
        None
    }
}

/// The values with their ticks, oldest first; removals are skipped.
pub open spec fn values<C>(entries: Entries<C>) -> Seq<(Tick, C)>
    decreases entries.len(),
{
    if entries.len() == 0 {
        Seq::empty()
    } else {
        let older = values(entries.drop_last());
        match entries.last().1 {
            HistoryState::Removed => older,
            HistoryState::Updated(value) => older.push((entries.last().0, value)),
        }
    }
}

/// The `n`-th oldest value, removals not counted.
pub open spec fn nth_value<C>(entries: Entries<C>, n: int) -> Option<(Tick, C)> {
    if 0 <= n < values(entries).len() {
        Some(values(entries)[n])
    } else {
        None
    }
}

/// The bounds of `count_below`.
pub proof fn lemma_count_below_range<C>(entries: Entries<C>, bound: int)
    ensures
        0 <= count_below(entries, bound) <= entries.len(),
    decreases entries.len(),
{
    if entries.len() > 0 && !(entries.last().0.0 < bound) {
        lemma_count_below_range(entries.drop_last(), bound);
    }
}

/// In an ordered history `count_below` parts the entries dated below `bound` from the others.
pub proof fn lemma_count_below_splits<C>(entries: Entries<C>, bound: int)
    requires
        ordered(entries),
    ensures
        0 <= count_below(entries, bound) <= entries.len(),
        forall|i: int|
            0 <= i < entries.len() ==> ((#[trigger] entries[i]).0.0 < bound <==> i < count_below(
                entries,
                bound,
            )),
    decreases entries.len(),
{
    if entries.len() > 0 {
        let rest = entries.drop_last();
        if entries.last().0.0 < bound {
            assert forall|i: int| 0 <= i < entries.len() implies (#[trigger] entries[i]).0.0
                < bound by {
                let newest = entries[entries.len() - 1];
                assert(i < entries.len() - 1 ==> entries[i].0.0 < newest.0.0);
            }
        } else {
            assert(ordered(rest));
            lemma_count_below_splits(rest, bound);
            assert forall|i: int| 0 <= i < entries.len() implies ((#[trigger] entries[i]).0.0
                < bound <==> i < count_below(entries, bound)) by {
                assert(i < rest.len() ==> rest[i] == entries[i]);
            }
        }
    }
}

/// A place that parts an ordered history at `bound` is where `count_below` points.
pub proof fn lemma_count_below_unique<C>(entries: Entries<C>, bound: int, n: int)
    requires
        ordered(entries),
        0 <= n <= entries.len(),
        n > 0 ==> entries[n - 1].0.0 < bound,
        n < entries.len() ==> entries[n].0.0 >= bound,
    ensures
        count_below(entries, bound) == n,
{
    lemma_count_below_splits(entries, bound);
    let counted = count_below(entries, bound);
    if counted < n {
        assert(entries[n - 1].0.0 < bound);
    }
    if counted > n {
        assert(entries[n].0.0 < bound);
    }
}

/// Recording a state keeps the order, and touches no entry of another tick.
pub proof fn lemma_with_entry<C>(entries: Entries<C>, tick: Tick, state: HistoryState<C>)
    requires
        ordered(entries),
    ensures
        ordered(with_entry(entries, tick, state)),
        with_entry(entries, tick, state).len() == entries.len() + if has_tick(entries, tick) {
            0int
        } else {
            1
        },
        with_entry(entries, tick, state)[count_below(entries, tick.0 as int)] == (tick, state),
        forall|entry: (Tick, HistoryState<C>)| #[trigger]
            with_entry(entries, tick, state).contains(entry) <==> {
                ||| entry == (tick, state)
                ||| entry.0 != tick && entries.contains(entry)
            },
{
    let position = count_below(entries, tick.0 as int);
    let result = with_entry(entries, tick, state);
    lemma_count_below_splits(entries, tick.0 as int);
    let replaces = position < entries.len() && entries[position].0 == tick;
    if replaces {
        assert(has_tick(entries, tick));
    } else {
        assert forall|i: int| 0 <= i < entries.len() implies (#[trigger] entries[i]).0
            != tick by {
            if i > position {
                assert(entries[position].0.0 < entries[i].0.0);
            }
        }
    }
    assert forall|i: int, j: int|
        #![trigger result[i], result[j]]
        0 <= i < j < result.len() implies result[i].0.0 < result[j].0.0 by {
        if replaces {
            assert(entries[i].0.0 < entries[j].0.0);
        } else {
            let before_i = if i < position { i } else { i - 1 };
            let before_j = if j < position { j } else { j - 1 };
            if i != position {
                assert(result[i] == entries[before_i]);
            }
            if j != position {
                assert(result[j] == entries[before_j]);
            }
        }
    }
    assert(result[position] == (tick, state));
    assert forall|entry: (Tick, HistoryState<C>)| #[trigger] result.contains(entry) <==> {
        ||| entry == (tick, state)
        ||| entry.0 != tick && entries.contains(entry)
    } by {
        if result.contains(entry) {
            let i = choose|i: int| 0 <= i < result.len() && result[i] == entry;
            if i != position {
                let before = if replaces || i < position { i } else { i - 1 };
                assert(entries[before] == entry);
                if replaces && i != position {
                    assert(entries[i].0 != entries[position].0);
                }
            }
        }
        if entry.0 != tick && entries.contains(entry) {
            let i = choose|i: int| 0 <= i < entries.len() && entries[i] == entry;
            let after = if replaces || i < position { i } else { i + 1 };
            assert(result[after] == entry);
        }
    }
}

/// A state recorded before the newest entry leaves that entry the newest, and one recorded before
/// the second newest leaves that one in its place, too.
pub proof fn lemma_late_entry<C>(entries: Entries<C>, tick: Tick, state: HistoryState<C>)
    requires
        ordered(entries),
        entries.len() > 0,
        tick.0 < entries.last().0.0,
    ensures
        with_entry(entries, tick, state).len() >= entries.len(),
        with_entry(entries, tick, state).last() == entries.last(),
        entries.len() >= 2 && tick.0 < entries[entries.len() - 2].0.0 ==> with_entry(
            entries,
            tick,
            state,
        )[with_entry(entries, tick, state).len() - 2] == entries[entries.len() - 2],
{
    lemma_count_below_splits(entries, tick.0 as int);
    assert(entries[entries.len() - 1] == entries.last());
}

/// A history has at most as many values as entries.
pub proof fn lemma_values_len<C>(entries: Entries<C>)
    ensures
        values(entries).len() <= entries.len(),
    decreases entries.len(),
{
    if entries.len() > 0 {
        lemma_values_len(entries.drop_last());
    }
}

/// The values of the first `n + 1` entries are those of the first `n`, and the next one.
pub proof fn lemma_values_step<C>(entries: Entries<C>, n: int)
    requires
        0 <= n < entries.len(),
    ensures
        values(entries.take(n + 1)) == match entries[n].1 {
            HistoryState::Removed => values(entries.take(n)),
            HistoryState::Updated(value) => values(entries.take(n)).push((entries[n].0, value)),
        },
{
    assert(entries.take(n + 1).drop_last() =~= entries.take(n));
    assert(entries.take(n + 1).last() == entries[n]);
}

/// Removals add nothing to the values.
pub proof fn lemma_values_skip_removals<C>(entries: Entries<C>, from: int, to: int)
    requires
        0 <= from <= to <= entries.len(),
        forall|i: int| from <= i < to ==> (#[trigger] entries[i]).1 is Removed,
    ensures
        values(entries.take(to)) == values(entries.take(from)),
    decreases to - from,
{
    if from < to {
        lemma_values_skip_removals(entries, from, to - 1);
        lemma_values_step(entries, to - 1);
        assert(entries[to - 1].1 is Removed);
    }
}

/// The values of the first `n` entries come first among the values of all entries.
pub proof fn lemma_values_prefix<C>(entries: Entries<C>, n: int)
    requires
        0 <= n <= entries.len(),
    ensures
        values(entries.take(n)).len() <= values(entries).len(),
        forall|i: int|
            0 <= i < values(entries.take(n)).len() ==> #[trigger] values(entries)[i] == values(
                entries.take(n),
            )[i],
    decreases entries.len() - n,
{
    if n < entries.len() {
        lemma_values_prefix(entries, n + 1);
        lemma_values_step(entries, n);
        assert forall|i: int| 0 <= i < values(entries.take(n)).len() implies #[trigger] values(
            entries,
        )[i] == values(entries.take(n))[i] by {
            assert(values(entries.take(n + 1))[i] == values(entries.take(n))[i]);
        }
    } else {
        assert(entries.take(n) =~= entries);
    }
}

/// The values of an ordered history are in order, and those of the entries dated below `bound` are
/// the values dated below `bound`.
pub proof fn lemma_values_ordered<C>(entries: Entries<C>, bound: int)
    requires
        ordered(entries),
    ensures
        forall|i: int, j: int|
            #![trigger values(entries)[i], values(entries)[j]]
            0 <= i < j < values(entries).len() ==> values(entries)[i].0.0 < values(
                entries,
            )[j].0.0,
        forall|i: int|
            0 <= i < values(entries).len() ==> ((#[trigger] values(entries)[i]).0.0 < bound <==> i
                < values(entries.take(count_below(entries, bound))).len()),
        forall|i: int|
            0 <= i < values(entries).len() ==> (#[trigger] values(entries)[i]).0.0
                <= entries.last().0.0,
    decreases entries.len(),
{
    if entries.len() > 0 {
        let older = entries.drop_last();
        let n = count_below(entries, bound);
        let all = values(entries);
        let before = values(older);
        assert(ordered(older));
        lemma_values_ordered(older, bound);
        lemma_values_len(older);
        lemma_count_below_splits(entries, bound);
        assert forall|i: int| 0 <= i < before.len() implies #[trigger] all[i] == before[i]
            && before[i].0.0 < entries.last().0.0 by {
            let second = entries[entries.len() - 2];
            assert(older.last() == second);
            assert(second.0.0 < entries[entries.len() - 1].0.0);
        }
        assert forall|i: int, j: int|
            #![trigger all[i], all[j]]
            0 <= i < j < all.len() implies all[i].0.0 < all[j].0.0 by {
            assert(all[i] == before[i]);
            assert(j < before.len() ==> all[j] == before[j]);
        }
        if n == entries.len() {
            assert(entries.take(n) =~= entries);
            assert(entries[n - 1].0.0 < bound);
        } else {
            assert(entries.take(n) =~= older.take(n));
            assert(entries[entries.len() - 1].0.0 >= bound);
            lemma_count_below_splits(older, bound);
            lemma_values_prefix(older, n);
            assert forall|i: int| 0 <= i < all.len() implies ((#[trigger] all[i]).0.0 < bound
                <==> i < values(entries.take(n)).len()) by {
                assert(i < before.len() ==> all[i] == before[i]);
            }
        }
    }
}

} // verus!
