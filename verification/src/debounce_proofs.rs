//! What the debounce engine guarantees for one cell over a whole series of
//! samples.
use vstd::prelude::*;
use crate::debounce::{cell_observe, CellModel, DebounceAlgorithm};

verus! {

/// One raw level read from a cell, and when it was read.
pub struct Sample {
    pub level: bool,
    pub at: u64,
}

/// The cell after a series of samples, and the key states it changed to on
/// the way, in order.
pub open spec fn cell_run(algorithm: DebounceAlgorithm, cell: CellModel, trace: Seq<Sample>) -> (
    CellModel,
    Seq<bool>,
)
    decreases trace.len(),
{
    if trace.len() == 0 {
        (cell, Seq::empty())
    } else {
        let (before, changes) = cell_run(algorithm, cell, trace.drop_last());
        let (after, change) = cell_observe(algorithm, before, trace.last().level, trace.last().at);
        (
            after,
            match change {
                Some(pressed) => changes.push(pressed),
                None => changes,
            },
        )
    }
}

/// A released cell, or a pressed one, with no change pending.
pub open spec fn settled(pressed: bool) -> CellModel {
    CellModel { pressed, pending: None }
}

/// The samples were taken one after the other.
pub open spec fn chronological(trace: Seq<Sample>) -> bool {
    forall|i: int, j: int| 0 <= i <= j < trace.len() ==> trace[i].at <= trace[j].at
}

/// The samples are in an order the algorithm can measure: for the default
/// algorithm, which measures time, no sample is older than the one before.
pub open spec fn timely(algorithm: DebounceAlgorithm, trace: Seq<Sample>) -> bool {
    algorithm is Default ==> chronological(trace)
}

/// Index of the first sample of the unbroken run of samples that ends at
/// sample `i` and differs from `rest` throughout.
pub open spec fn run_start(trace: Seq<Sample>, i: int, rest: bool) -> int
    decreases i,
{
    if i <= 0 {
        0
    } else if trace[i - 1].level == rest {
        i
    } else {
        run_start(trace, i - 1, rest)
    }
}

/// The confidence an algorithm asks for before it confirms a change.
pub open spec fn threshold(algorithm: DebounceAlgorithm) -> int {
    match algorithm {
        DebounceAlgorithm::Fast { samples } => samples as int,
        DebounceAlgorithm::Default { window_ms } => window_ms as int,
    }
}

/// How long the level has differed from `rest` at sample `i`, in the
/// algorithm's own measure: samples in a row for the fast algorithm,
/// milliseconds since the first of them for the default one.
pub open spec fn stability(
    algorithm: DebounceAlgorithm,
    trace: Seq<Sample>,
    i: int,
    rest: bool,
) -> int {
    let start = run_start(trace, i, rest);
    match algorithm {
        DebounceAlgorithm::Fast { .. } => i - start + 1,
        DebounceAlgorithm::Default { .. } => trace[i].at - trace[start].at,
    }
}

/// The mark the engine holds while the change seen at sample `i` is pending.
pub open spec fn mark_at(algorithm: DebounceAlgorithm, trace: Seq<Sample>, i: int, rest: bool) -> int {
    let start = run_start(trace, i, rest);
    match algorithm {
        DebounceAlgorithm::Fast { .. } => i - start + 1,
        DebounceAlgorithm::Default { .. } => trace[start].at as int,
    }
}

/// A run starts no later than the sample it is asked for.
pub proof fn lemma_run_start_bounds(trace: Seq<Sample>, i: int, rest: bool)
    requires
        0 <= i,
    ensures
        0 <= run_start(trace, i, rest) <= i,
    decreases i,
{
    if i > 0 && trace[i - 1].level != rest {
        lemma_run_start_bounds(trace, i - 1, rest);
    }
}

/// Where every sample differs from `rest`, the run starts at the first one.
pub proof fn lemma_run_start_of_steady_trace(trace: Seq<Sample>, i: int, rest: bool)
    requires
        0 <= i < trace.len(),
        forall|j: int| 0 <= j < trace.len() ==> trace[j].level != rest,
    ensures
        run_start(trace, i, rest) == 0,
    decreases i,
{
    if i > 0 {
        lemma_run_start_of_steady_trace(trace, i - 1, rest);
    }
}

/// The cell after the first `k` samples of a trace none of whose runs
/// reaches the threshold: still at rest, with the mark of the run in
/// progress.
proof fn lemma_unconfirmed_prefix(
    algorithm: DebounceAlgorithm,
    rest: bool,
    trace: Seq<Sample>,
    k: int,
)
    requires
        0 <= k <= trace.len(),
        timely(algorithm, trace),
        forall|i: int|
            0 <= i < k && trace[i].level != rest ==> #[trigger] stability(algorithm, trace, i, rest)
                < threshold(algorithm),
    ensures
        cell_run(algorithm, settled(rest), trace.take(k)).1 == Seq::<bool>::empty(),
        cell_run(algorithm, settled(rest), trace.take(k)).0.pressed == rest,
        k == 0 || trace[k - 1].level == rest ==> cell_run(
            algorithm,
            settled(rest),
            trace.take(k),
        ).0.pending is None,
        k > 0 && trace[k - 1].level != rest ==> cell_run(
            algorithm,
            settled(rest),
            trace.take(k),
        ).0.pending == Some(mark_at(algorithm, trace, k - 1, rest) as u64) && 0 <= mark_at(
            algorithm,
            trace,
            k - 1,
            rest,
        ) <= u64::MAX,
    decreases k,
{
    if k > 0 {
        let i = k - 1;
        lemma_unconfirmed_prefix(algorithm, rest, trace, i);
        assert(trace.take(k).drop_last() =~= trace.take(i));
        assert(trace.take(k).last() == trace[i]);
        lemma_run_start_bounds(trace, i, rest);
        if trace[i].level != rest {
            assert(stability(algorithm, trace, i, rest) < threshold(algorithm));
            if i > 0 && trace[i - 1].level != rest {
                assert(stability(algorithm, trace, i - 1, rest) < threshold(algorithm));
                lemma_run_start_bounds(trace, i - 1, rest);
            }
        }
    }
}

/// Bounce is rejected: while no run of samples that differ from the stored
/// state lasts as long as the threshold, the key never changes.
pub proof fn lemma_bounce_is_rejected(algorithm: DebounceAlgorithm, rest: bool, trace: Seq<Sample>)
    requires
        timely(algorithm, trace),
        forall|i: int|
            0 <= i < trace.len() && trace[i].level != rest ==> #[trigger] stability(
                algorithm,
                trace,
                i,
                rest,
            ) < threshold(algorithm),
    ensures
        cell_run(algorithm, settled(rest), trace).1 == Seq::<bool>::empty(),
        cell_run(algorithm, settled(rest), trace).0.pressed == rest,
{
    lemma_unconfirmed_prefix(algorithm, rest, trace, trace.len() as int);
    assert(trace.take(trace.len() as int) =~= trace);
}

/// The cell after the first `k` samples of a trace that differs from `rest`
/// throughout: at rest until the threshold is reached, changed exactly once
/// from then on.
proof fn lemma_steady_prefix(algorithm: DebounceAlgorithm, rest: bool, trace: Seq<Sample>, k: int)
    requires
        0 <= k <= trace.len(),
        timely(algorithm, trace),
        forall|j: int| 0 <= j < trace.len() ==> trace[j].level != rest,
    ensures
        k == 0 || stability(algorithm, trace, k - 1, rest) < threshold(algorithm) ==> {
            &&& cell_run(algorithm, settled(rest), trace.take(k)).1 == Seq::<bool>::empty()
            &&& cell_run(algorithm, settled(rest), trace.take(k)).0.pressed == rest
            &&& k == 0 ==> cell_run(algorithm, settled(rest), trace.take(k)).0.pending is None
            &&& k > 0 ==> cell_run(algorithm, settled(rest), trace.take(k)).0.pending == Some(
                mark_at(algorithm, trace, k - 1, rest) as u64,
            ) && 0 <= mark_at(algorithm, trace, k - 1, rest) <= u64::MAX
        },
        k > 0 && stability(algorithm, trace, k - 1, rest) >= threshold(algorithm) ==> {
            &&& cell_run(algorithm, settled(rest), trace.take(k)).1 == seq![!rest]
            &&& cell_run(algorithm, settled(rest), trace.take(k)).0.pressed == !rest
        },
    decreases k,
{
    if k > 0 {
        let i = k - 1;
        lemma_steady_prefix(algorithm, rest, trace, i);
        assert(trace.take(k).drop_last() =~= trace.take(i));
        assert(trace.take(k).last() == trace[i]);
        lemma_run_start_of_steady_trace(trace, i, rest);
        if i > 0 {
            lemma_run_start_of_steady_trace(trace, i - 1, rest);
        }
        let earlier = cell_run(algorithm, settled(rest), trace.take(i));
        let now = cell_run(algorithm, settled(rest), trace.take(k));
        if i == 0 || stability(algorithm, trace, i - 1, rest) < threshold(algorithm) {
            if stability(algorithm, trace, i, rest) >= threshold(algorithm) {
                assert(now.1 =~= seq![!rest]);
            }
        } else {
            assert(now.1 =~= seq![!rest]);
        }
    }
}

/// A stable change is confirmed exactly once: when the level differs from
/// the stored state throughout and has done so for at least the threshold,
/// the key changes once, to the new level.
pub proof fn lemma_stable_change_is_confirmed_once(
    algorithm: DebounceAlgorithm,
    rest: bool,
    trace: Seq<Sample>,
)
    requires
        trace.len() > 0,
        timely(algorithm, trace),
        forall|j: int| 0 <= j < trace.len() ==> trace[j].level != rest,
        stability(algorithm, trace, trace.len() - 1, rest) >= threshold(algorithm),
    ensures
        cell_run(algorithm, settled(rest), trace).1 == seq![!rest],
        cell_run(algorithm, settled(rest), trace).0.pressed == !rest,
{
    lemma_steady_prefix(algorithm, rest, trace, trace.len() as int);
    assert(trace.take(trace.len() as int) =~= trace);
}

/// The changes go back and forth, starting away from `pressed`.
pub open spec fn alternates_from(changes: Seq<bool>, pressed: bool) -> bool {
    forall|j: int|
        0 <= j < changes.len() ==> #[trigger] changes[j] == (if j % 2 == 0 {
            !pressed
        } else {
            pressed
        })
}

/// No duplicates: whatever the samples, the changes of a key alternate
/// between pressed and released, and the key ends in the state of the last
/// change.
pub proof fn lemma_changes_alternate(algorithm: DebounceAlgorithm, cell: CellModel, trace: Seq<Sample>)
    ensures
        alternates_from(cell_run(algorithm, cell, trace).1, cell.pressed),
        cell_run(algorithm, cell, trace).0.pressed == (if cell_run(algorithm, cell, trace).1.len()
            % 2 == 0 {
            cell.pressed
        } else {
            !cell.pressed
        }),
    decreases trace.len(),
{
    if trace.len() > 0 {
        lemma_changes_alternate(algorithm, cell, trace.drop_last());
    }
}

/// Number of samples whose level differs from the one before; the first
/// sample is held against `before`.
pub open spec fn level_changes(trace: Seq<Sample>, before: bool) -> nat
    decreases trace.len(),
{
    if trace.len() == 0 {
        0
    } else {
        let earlier = trace.drop_last();
        let previous = if earlier.len() == 0 {
            before
        } else {
            earlier.last().level
        };
        level_changes(earlier, before) + if trace.last().level != previous {
            1nat
        } else {
            0nat
        }
    }
}

/// The key changes at most as often as the raw level does, and strictly less
/// often while the last change of the level is still unconfirmed.
proof fn lemma_changes_bounded(algorithm: DebounceAlgorithm, cell: CellModel, trace: Seq<Sample>)
    ensures
        cell_run(algorithm, cell, trace).1.len() + (if trace.len() > 0 && trace.last().level
            != cell_run(algorithm, cell, trace).0.pressed {
            1nat
        } else {
            0nat
        }) <= level_changes(trace, cell.pressed),
    decreases trace.len(),
{
    if trace.len() > 0 {
        lemma_changes_bounded(algorithm, cell, trace.drop_last());
    }
}

/// At most one change of the key per change of the raw level: however fast
/// the level goes back and forth, the key changes no more often than the
/// level did.
pub proof fn lemma_one_change_per_level_change(
    algorithm: DebounceAlgorithm,
    cell: CellModel,
    trace: Seq<Sample>,
)
    ensures
        cell_run(algorithm, cell, trace).1.len() <= level_changes(trace, cell.pressed),
{
    lemma_changes_bounded(algorithm, cell, trace);
}

} // verus!
