//! The delay line as mathematics: a ring of samples and the slot that is written next.

use crate::wrap::{lemma_wrap_distinct, lemma_wrap_shift};
use vstd::arithmetic::div_mod::{lemma_mod_add_multiples_vanish, lemma_small_mod};
use vstd::prelude::*;

verus! {

/// A ring of samples with its cursor.
#[verifier::ext_equal]
pub struct DelayLine {
    /// The samples, by slot.
    pub samples: Seq<u64>,
    /// The slot that the next step writes.
    pub cursor: int,
}

impl DelayLine {
    /// The number of slots.
    pub open spec fn size(self) -> int {
        self.samples.len() as int
    }

    /// The cursor names a slot; a line without slots keeps it at 0.
    pub open spec fn wf(self) -> bool {
        if self.size() == 0 {
            self.cursor == 0
        } else {
            0 <= self.cursor < self.size()
        }
    }

    /// A line of `size` silent samples that writes slot 0 first.
    pub open spec fn silent(size: nat) -> DelayLine {
        DelayLine { samples: Seq::new(size, |slot: int| 0u64), cursor: 0 }
    }

    /// The slot that a step reads under `delay`: `delay` slots behind the cursor, round the
    /// ring.
    pub open spec fn tap(self, delay: int) -> int {
        (self.size() - delay + self.cursor) % self.size()
    }

    /// The sample that a step hands out under `delay`.
    pub open spec fn echo(self, delay: int) -> u64 {
        self.samples[self.tap(delay)]
    }

    /// One step: `value` replaces the sample under the cursor, and the cursor moves on by one
    /// slot, round the ring.
    pub open spec fn step(self, value: u64) -> DelayLine {
        DelayLine {
            samples: self.samples.update(self.cursor, value),
            cursor: (self.cursor + 1) % self.size(),
        }
    }

    /// The line after one step for each of `values`, in order.
    pub open spec fn run(self, values: Seq<u64>) -> DelayLine
        decreases values.len(),
    {
        if values.len() == 0 {
            self
        } else {
            self.run(values.drop_last()).step(values.last())
        }
    }
}

/// A step keeps the number of slots and leaves the cursor on a slot.
pub proof fn lemma_step_keeps_shape(line: DelayLine, value: u64)
    requires
        line.wf(),
        line.size() > 0,
    ensures
        line.step(value).wf(),
        line.step(value).size() == line.size(),
{
    lemma_wrap_shift(line.cursor + 1, 0, line.size());
}

/// A run of one more value is the run so far and then a step with that value.
pub proof fn lemma_run_push(line: DelayLine, values: Seq<u64>, value: u64)
    ensures
        line.run(values.push(value)) == line.run(values).step(value),
{
    assert(values.push(value).drop_last() =~= values);
}

/// Where one traversal ends and the next begins leaves no trace: a run of one block and
/// then a run of another is the run of both as one.
pub proof fn lemma_run_concat(line: DelayLine, first: Seq<u64>, second: Seq<u64>)
    ensures
        line.run(first + second) == line.run(first).run(second),
    decreases second.len(),
{
    if second.len() == 0 {
        assert(first + second =~= first);
    } else {
        lemma_run_concat(line, first, second.drop_last());
        assert((first + second).drop_last() =~= first + second.drop_last());
    }
}

/// After `m` steps the cursor stands `m` slots further round the ring, however few steps
/// were taken; the number of slots is what it was.
pub proof fn lemma_run_moves_cursor(line: DelayLine, values: Seq<u64>)
    requires
        line.wf(),
        line.size() > 0,
    ensures
        line.run(values).wf(),
        line.run(values).size() == line.size(),
        line.run(values).cursor == (line.cursor + values.len()) % line.size(),
    decreases values.len(),
{
    if values.len() == 0 {
        lemma_small_mod(line.cursor as nat, line.size() as nat);
    } else {
        let before = line.run(values.drop_last());
        lemma_run_moves_cursor(line, values.drop_last());
        lemma_step_keeps_shape(before, values.last());
        lemma_wrap_shift(line.cursor + values.len() - 1, 1, line.size());
    }
}

/// The read position follows the cursor: a step moves it on by one slot, round the ring.
pub proof fn lemma_step_moves_tap(line: DelayLine, value: u64, delay: int)
    requires
        line.wf(),
        line.size() > 0,
    ensures
        line.step(value).tap(delay) == (line.tap(delay) + 1) % line.size(),
{
    let size = line.size();
    lemma_wrap_shift(line.cursor + 1, size - delay, size);
    lemma_wrap_shift(size - delay + line.cursor, 1, size);
}

/// No delay and a delay of a full lap read the same slot: the one under the cursor, which
/// holds the oldest sample.
pub proof fn lemma_tap_full_lap(line: DelayLine)
    requires
        line.wf(),
        line.size() > 0,
    ensures
        line.tap(0) == line.cursor,
        line.tap(line.size()) == line.cursor,
{
    lemma_mod_add_multiples_vanish(line.cursor, line.size());
    lemma_small_mod(line.cursor as nat, line.size() as nat);
}

/// Each of the last `size` values written is still in its slot.
pub proof fn lemma_run_keeps_recent(line: DelayLine, values: Seq<u64>, k: int)
    requires
        line.wf(),
        line.size() > 0,
        0 <= k < values.len(),
        values.len() - k <= line.size(),
    ensures
        line.run(values).samples[(line.cursor + k) % line.size()] == values[k],
    decreases values.len(),
{
    let size = line.size();
    let last = values.len() - 1;
    let before = line.run(values.drop_last());
    lemma_run_moves_cursor(line, values.drop_last());
    lemma_wrap_shift(line.cursor + k, 0, size);
    if k < last {
        lemma_run_keeps_recent(line, values.drop_last(), k);
        lemma_wrap_distinct(line.cursor, k, last, size);
    }
}

/// A slot that no step has reached yet holds what it held before.
pub proof fn lemma_run_keeps_untouched(line: DelayLine, values: Seq<u64>, ahead: int)
    requires
        line.wf(),
        line.size() > 0,
        values.len() <= ahead < line.size(),
    ensures
        line.run(values).samples[(line.cursor + ahead) % line.size()] == line.samples[(line.cursor
            + ahead) % line.size()],
    decreases values.len(),
{
    if values.len() > 0 {
        let size = line.size();
        let last = values.len() - 1;
        lemma_run_moves_cursor(line, values.drop_last());
        lemma_wrap_shift(line.cursor + ahead, 0, size);
        lemma_run_keeps_untouched(line, values.drop_last(), ahead);
        lemma_wrap_distinct(line.cursor, last, ahead, size);
    }
}

/// The delay: a value written at step `k` is what the step `delay` steps later hands out,
/// for every delay from 1 to a full lap.
pub proof fn lemma_echo_of_written(line: DelayLine, values: Seq<u64>, k: int, delay: int)
    requires
        line.wf(),
        line.size() > 0,
        1 <= delay <= line.size(),
        0 <= k,
        k + delay <= values.len(),
    ensures
        line.run(values.take(k + delay)).echo(delay) == values[k],
{
    let size = line.size();
    let earlier = values.take(k + delay);
    lemma_run_moves_cursor(line, earlier);
    lemma_wrap_shift(line.cursor + k + delay, size - delay, size);
    lemma_mod_add_multiples_vanish(line.cursor + k, size);
    lemma_run_keeps_recent(line, earlier, k);
}

/// The delay across traversals: a value written at step `k` of one traversal is handed out
/// by the next one, begun with `delay`, at the step that comes `delay` steps after it.
pub proof fn lemma_echo_across_traversals(
    line: DelayLine,
    first: Seq<u64>,
    second: Seq<u64>,
    k: int,
    delay: int,
)
    requires
        line.wf(),
        line.size() > 0,
        1 <= delay <= line.size(),
        0 <= k < first.len(),
        first.len() <= k + delay <= first.len() + second.len(),
    ensures
        line.run(first).run(second.take(k + delay - first.len())).echo(delay) == first[k],
{
    let values = first + second;
    let later = second.take(k + delay - first.len());
    lemma_run_concat(line, first, later);
    assert(first + later =~= values.take(k + delay));
    lemma_echo_of_written(line, values, k, delay);
}

/// Before a slot has been written, a step hands out what the line held at the start: step
/// `j` reads the slot `delay` slots behind the starting cursor, moved on by `j`.
pub proof fn lemma_echo_of_stored(line: DelayLine, values: Seq<u64>, j: int, delay: int)
    requires
        line.wf(),
        line.size() > 0,
        0 <= delay <= line.size(),
        0 <= j <= values.len(),
        j < delay || (delay == 0 && j < line.size()),
    ensures
        line.run(values.take(j)).echo(delay) == line.samples[(line.cursor + line.size() - delay
            + j) % line.size()],
{
    let size = line.size();
    let earlier = values.take(j);
    lemma_run_moves_cursor(line, earlier);
    lemma_wrap_shift(line.cursor + j, size - delay, size);
    if delay == 0 {
        lemma_mod_add_multiples_vanish(line.cursor + j, size);
        lemma_run_keeps_untouched(line, earlier, j);
    } else {
        lemma_run_keeps_untouched(line, earlier, size - delay + j);
    }
}

} // verus!
