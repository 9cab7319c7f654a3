//! Column-width allocation: a pure three-phase distribution of an integer
//! width budget across ordered columns, each with a minimum, an ideal and a
//! maximum width.

use vstd::prelude::*;

verus! {

/// Width constraints for a column in adaptive layout.
#[derive(Clone, Copy, Debug)]
pub struct ColumnWidth {
    /// Minimum width.
    pub min: u16,
    /// Ideal width (used before expanding toward max).
    pub ideal: u16,
    /// Maximum width.
    pub max: u16,
}

impl ColumnWidth {
    /// Creates a fixed width (min = ideal = max).
    pub fn fixed(width: u16) -> (r: Self)
        ensures
            r.min == width,
            r.ideal == width,
            r.max == width,
    {
        Self { min: width, ideal: width, max: width }
    }
}

/// The saturating sum of the minimum widths of the columns.
pub open spec fn spec_min_sum(cols: Seq<ColumnWidth>) -> u16
    decreases cols.len(),
{
    if cols.len() == 0 {
        0u16
    } else {
        let rest = spec_min_sum(cols.drop_last());
        if rest + cols.last().min > u16::MAX {
            u16::MAX
        } else {
            (rest + cols.last().min) as u16
        }
    }
}

/// One growth phase: walks the columns in order, raising each width toward
/// its target until the remaining budget runs out. Returns the grown widths
/// and the budget left over.
pub open spec fn spec_grow(widths: Seq<u16>, targets: Seq<u16>, remaining: u16) -> (Seq<u16>, u16)
    decreases widths.len(),
{
    if widths.len() == 0 || remaining == 0 {
        (widths, remaining)
    } else {
        let w = widths[0];
        let t = targets[0];
        let gap = if t > w { (t - w) as u16 } else { 0u16 };
        let add = if gap < remaining { gap } else { remaining };
        let grown = spec_grow(widths.drop_first(), targets.drop_first(), (remaining - add) as u16);
        (seq![(w + add) as u16] + grown.0, grown.1)
    }
}

/// The per-column targets of the first growth phase: the ideal width, but
/// never below the minimum.
pub open spec fn spec_ideal_targets(cols: Seq<ColumnWidth>) -> Seq<u16> {
    cols.map_values(|c: ColumnWidth| if c.ideal > c.min { c.ideal } else { c.min })
}

/// The per-column targets of the second growth phase: the maximum width.
pub open spec fn spec_max_targets(cols: Seq<ColumnWidth>) -> Seq<u16> {
    cols.map_values(|c: ColumnWidth| c.max)
}

/// What `distribute_widths` returns: every column starts at its minimum; the
/// budget left over grows the columns in order, first toward their ideals and
/// then toward their maxima.
pub open spec fn spec_distribute(total: u16, cols: Seq<ColumnWidth>) -> Seq<u16> {
    let mins = cols.map_values(|c: ColumnWidth| c.min);
    let msum = spec_min_sum(cols);
    let rem0 = if total > msum { (total - msum) as u16 } else { 0u16 };
    if rem0 == 0 {
        mins
    } else {
        let grown1 = spec_grow(mins, spec_ideal_targets(cols), rem0);
        let grown2 = spec_grow(grown1.0, spec_max_targets(cols), grown1.1);
        grown2.0
    }
}

/// Raises each width toward its target, in order, within the budget.
fn grow_toward(widths: &mut Vec<u16>, targets: &Vec<u16>, remaining: u16) -> (rem: u16)
    requires
        old(widths)@.len() == targets@.len(),
    ensures
        final(widths)@ == spec_grow(old(widths)@, targets@, remaining).0,
        rem == spec_grow(old(widths)@, targets@, remaining).1,
        final(widths)@.len() == old(widths)@.len(),
{
    let ghost w0 = widths@;
    let ghost t0 = targets@;
    let ghost n = w0.len() as int;
    proof {
        assert(w0.subrange(0, n) =~= w0);
        assert(t0.subrange(0, n) =~= t0);
        assert(widths@.subrange(0, 0) + spec_grow(w0, t0, remaining).0
            =~= spec_grow(w0, t0, remaining).0);
    }
    let mut rem: u16 = remaining;
    let mut i: usize = 0;
    while i < widths.len() && rem > 0
        invariant
            0 <= i <= n,
            widths@.len() == n,
            targets@ == t0,
            t0.len() == n,
            w0.len() == n,
            widths@.subrange(i as int, n) == w0.subrange(i as int, n),
            spec_grow(w0, t0, remaining).0
                == widths@.subrange(0, i as int) + spec_grow(w0.subrange(i as int, n), t0.subrange(i as int, n), rem).0,
            spec_grow(w0, t0, remaining).1
                == spec_grow(w0.subrange(i as int, n), t0.subrange(i as int, n), rem).1,
        decreases n - i,
    {
        let w = widths[i];
        let t = targets[i];
        let gap: u16 = if t > w { t - w } else { 0 };
        let add: u16 = if gap < rem { gap } else { rem };
        proof {
            assert(i < n);
            let suf_w = w0.subrange(i as int, n);
            let suf_t = t0.subrange(i as int, n);
            assert(suf_w.len() == n - i);
            assert(suf_w[0] == w0[i as int]);
            assert(w0[i as int] == widths@[i as int]);
            assert(suf_w.drop_first() =~= w0.subrange(i + 1, n));
            assert(suf_t.drop_first() =~= t0.subrange(i + 1, n));
            assert(widths@.subrange(0, i as int).push((w + add) as u16)
                =~= widths@.update(i as int, (w + add) as u16).subrange(0, i + 1));
            assert(widths@.update(i as int, (w + add) as u16).subrange(i + 1, n)
                =~= w0.subrange(i + 1, n));
            assert(widths@.subrange(0, i as int) + (seq![(w + add) as u16]
                + spec_grow(w0.subrange(i + 1, n), t0.subrange(i + 1, n), (rem - add) as u16).0)
                =~= widths@.update(i as int, (w + add) as u16).subrange(0, i + 1)
                    + spec_grow(w0.subrange(i + 1, n), t0.subrange(i + 1, n), (rem - add) as u16).0);
        }
        widths.set(i, w + add);
        rem = rem - add;
        i = i + 1;
    }
    proof {
        if i == n {
            assert(w0.subrange(i as int, n) =~= Seq::<u16>::empty());
            assert(widths@.subrange(0, i as int) =~= widths@);
        } else {
            assert(rem == 0);
            assert(widths@.subrange(0, i as int) + widths@.subrange(i as int, n) =~= widths@);
        }
    }
    rem
}

/// Distributes `total` width across columns respecting `min`/`ideal`/`max`.
///
/// If `total` is outside the feasible range (`sum(min)`..=`sum(max)`), the
/// returned widths are clamped to `min` or `max` respectively (so the sum may
/// differ from `total`).
pub fn distribute_widths(total: u16, columns: &[ColumnWidth]) -> (r: Vec<u16>)
    ensures
        r@ == spec_distribute(total, columns@),
{
    let mut widths: Vec<u16> = Vec::new();
    let mut targets_ideal: Vec<u16> = Vec::new();
    let mut targets_max: Vec<u16> = Vec::new();
    let mut min_sum: u16 = 0;
    let mut i: usize = 0;
    while i < columns.len()
        invariant
            0 <= i <= columns@.len(),
            widths@ == columns@.subrange(0, i as int).map_values(|c: ColumnWidth| c.min),
            targets_ideal@ == spec_ideal_targets(columns@.subrange(0, i as int)),
            targets_max@ == spec_max_targets(columns@.subrange(0, i as int)),
            min_sum == spec_min_sum(columns@.subrange(0, i as int)),
        decreases columns@.len() - i,
    {
        let c = columns[i];
        proof {
            assert(columns@.subrange(0, i + 1).drop_last() =~= columns@.subrange(0, i as int));
            assert(columns@.subrange(0, i + 1).map_values(|c: ColumnWidth| c.min)
                =~= widths@ + seq![columns@[i as int].min]);
            assert(spec_ideal_targets(columns@.subrange(0, i + 1))
                =~= targets_ideal@ + seq![spec_ideal_targets(columns@)[i as int]]);
            assert(spec_max_targets(columns@.subrange(0, i + 1))
                =~= targets_max@ + seq![columns@[i as int].max]);
        }
        if min_sum > u16::MAX - c.min {
            min_sum = u16::MAX;
        } else {
            min_sum = min_sum + c.min;
        }
        widths.push(c.min);
        if c.ideal > c.min {
            targets_ideal.push(c.ideal);
        } else {
            targets_ideal.push(c.min);
        }
        targets_max.push(c.max);
        i = i + 1;
    }
    proof {
        assert(columns@.subrange(0, columns@.len() as int) =~= columns@);
    }
    let remaining: u16 = if total > min_sum { total - min_sum } else { 0 };
    if remaining == 0 {
        return widths;
    }
    let rem1 = grow_toward(&mut widths, &targets_ideal, remaining);
    let _rem2 = grow_toward(&mut widths, &targets_max, rem1);
    widths
}

/// The sum of a list of widths.
pub open spec fn spec_width_sum(ws: Seq<u16>) -> int
    decreases ws.len(),
{
    if ws.len() == 0 {
        0
    } else {
        spec_width_sum(ws.drop_last()) + ws.last()
    }
}

/// Width sums are nonnegative.
proof fn lemma_sum_nonneg(ws: Seq<u16>)
    ensures
        spec_width_sum(ws) >= 0,
    decreases ws.len(),
{
    if ws.len() > 0 {
        lemma_sum_nonneg(ws.drop_last());
    }
}

/// A sum splits off its first element.
proof fn lemma_sum_head(head: u16, rest: Seq<u16>)
    ensures
        spec_width_sum(seq![head] + rest) == head + spec_width_sum(rest),
    decreases rest.len(),
{
    let ws = seq![head] + rest;
    if rest.len() == 0 {
        assert(ws.len() == 1);
        assert(ws.drop_last() =~= Seq::<u16>::empty());
        assert(spec_width_sum(Seq::<u16>::empty()) == 0);
        assert(ws.last() == head);
    } else {
        lemma_sum_head(head, rest.drop_last());
        assert(ws.drop_last() =~= seq![head] + rest.drop_last());
        assert(ws.last() == rest.last());
    }
}

/// The saturating minimum sum equals the true minimum sum while the true sum
/// fits.
proof fn lemma_min_sum_exact(cols: Seq<ColumnWidth>)
    requires
        spec_width_sum(cols.map_values(|c: ColumnWidth| c.min)) <= u16::MAX,
    ensures
        spec_min_sum(cols) == spec_width_sum(cols.map_values(|c: ColumnWidth| c.min)),
    decreases cols.len(),
{
    let mins = cols.map_values(|c: ColumnWidth| c.min);
    if cols.len() > 0 {
        assert(cols.drop_last().map_values(|c: ColumnWidth| c.min) =~= mins.drop_last());
        lemma_sum_nonneg(mins.drop_last());
        lemma_min_sum_exact(cols.drop_last());
        assert(mins.last() == cols.last().min);
    }
}

/// A growth phase accounts exactly: what the widths gain is what the budget
/// loses, and no width passes the larger of itself and its target.
proof fn lemma_grow_sum(widths: Seq<u16>, targets: Seq<u16>, remaining: u16)
    requires
        widths.len() == targets.len(),
    ensures
        spec_grow(widths, targets, remaining).0.len() == widths.len(),
        spec_grow(widths, targets, remaining).1 <= remaining,
        spec_width_sum(spec_grow(widths, targets, remaining).0) == spec_width_sum(widths)
            + remaining - spec_grow(widths, targets, remaining).1,
        forall|i: int|
            0 <= i < widths.len() ==> widths[i] <= #[trigger] spec_grow(
                widths,
                targets,
                remaining,
            ).0[i] && spec_grow(widths, targets, remaining).0[i] <= (if widths[i] >= targets[i] {
                widths[i]
            } else {
                targets[i]
            }),
    decreases widths.len(),
{
    let grown = spec_grow(widths, targets, remaining);
    if widths.len() == 0 || remaining == 0 {
        assert(grown.0 == widths);
    } else {
        let w = widths[0];
        let t = targets[0];
        let gap: u16 = if t > w {
            (t - w) as u16
        } else {
            0u16
        };
        let add: u16 = if gap < remaining {
            gap
        } else {
            remaining
        };
        let rest = spec_grow(widths.drop_first(), targets.drop_first(), (remaining - add) as u16);
        lemma_grow_sum(widths.drop_first(), targets.drop_first(), (remaining - add) as u16);
        assert(grown.0 == seq![(w + add) as u16] + rest.0);
        assert(rest.0.len() == widths.len() - 1);
        lemma_sum_head((w + add) as u16, rest.0);
        assert(widths =~= seq![w] + widths.drop_first());
        lemma_sum_head(w, widths.drop_first());
        assert forall|i: int|
            0 <= i < widths.len() implies widths[i] <= #[trigger] grown.0[i] && grown.0[i] <= (
        if widths[i] >= targets[i] {
            widths[i]
        } else {
            targets[i]
        }) by {
            if i == 0 {
                assert(grown.0[0] == (w + add) as u16);
            } else {
                assert(grown.0[i] == rest.0[i - 1]);
                assert(widths.drop_first()[i - 1] == widths[i]);
                assert(targets.drop_first()[i - 1] == targets[i]);
            }
        }
    }
}

/// Budget left over after a growth phase means every width reached the
/// larger of itself and its target.
proof fn lemma_grow_leftover(widths: Seq<u16>, targets: Seq<u16>, remaining: u16)
    requires
        widths.len() == targets.len(),
        spec_grow(widths, targets, remaining).1 > 0,
    ensures
        forall|i: int|
            0 <= i < widths.len() ==> #[trigger] spec_grow(widths, targets, remaining).0[i] == (
            if widths[i] >= targets[i] {
                widths[i]
            } else {
                targets[i]
            }),
    decreases widths.len(),
{
    let grown = spec_grow(widths, targets, remaining);
    if widths.len() == 0 || remaining == 0 {
    } else {
        let w = widths[0];
        let t = targets[0];
        let gap: u16 = if t > w {
            (t - w) as u16
        } else {
            0u16
        };
        let add: u16 = if gap < remaining {
            gap
        } else {
            remaining
        };
        let rest = spec_grow(widths.drop_first(), targets.drop_first(), (remaining - add) as u16);
        lemma_grow_sum(widths.drop_first(), targets.drop_first(), (remaining - add) as u16);
        if add == remaining && gap > remaining {
            assert(rest.1 == 0);
        }
        lemma_grow_leftover(widths.drop_first(), targets.drop_first(), (remaining - add) as u16);
        assert(grown.0 == seq![(w + add) as u16] + rest.0);
        assert(rest.0.len() == widths.len() - 1);
        assert forall|i: int|
            0 <= i < widths.len() implies #[trigger] grown.0[i] == (if widths[i] >= targets[i] {
            widths[i]
        } else {
            targets[i]
        }) by {
            if i == 0 {
                assert(grown.0[0] == (w + add) as u16);
                assert(add == gap);
            } else {
                assert(grown.0[i] == rest.0[i - 1]);
                assert(widths.drop_first()[i - 1] == widths[i]);
                assert(targets.drop_first()[i - 1] == targets[i]);
            }
        }
    }
}

/// Law: for columns whose bounds are ordered (min at most ideal at most
/// max), a total inside the feasible range is distributed exactly: the
/// returned widths sum to the total.
pub proof fn lemma_distribute_fills_total(total: u16, cols: Seq<ColumnWidth>)
    requires
        forall|i: int|
            0 <= i < cols.len() ==> (#[trigger] cols[i]).min <= cols[i].ideal <= cols[i].max,
        spec_width_sum(cols.map_values(|c: ColumnWidth| c.min)) <= total,
        total <= spec_width_sum(cols.map_values(|c: ColumnWidth| c.max)),
    ensures
        spec_width_sum(spec_distribute(total, cols)) == total,
{
    let mins = cols.map_values(|c: ColumnWidth| c.min);
    let ideals = spec_ideal_targets(cols);
    let maxes = spec_max_targets(cols);
    assert(maxes =~= cols.map_values(|c: ColumnWidth| c.max));
    lemma_min_sum_exact(cols);
    let msum = spec_min_sum(cols);
    let rem0: u16 = if total > msum {
        (total - msum) as u16
    } else {
        0u16
    };
    if rem0 == 0 {
        assert(spec_distribute(total, cols) == mins);
    } else {
        let grown1 = spec_grow(mins, ideals, rem0);
        let grown2 = spec_grow(grown1.0, maxes, grown1.1);
        lemma_grow_sum(mins, ideals, rem0);
        lemma_grow_sum(grown1.0, maxes, grown1.1);
        if grown2.1 > 0 {
            // Leftover budget would mean every width reached its maximum,
            // yet the maxima sum to at least the total: impossible.
            lemma_grow_leftover(grown1.0, maxes, grown1.1);
            assert forall|i: int| 0 <= i < cols.len() implies #[trigger] grown2.0[i]
                == maxes[i] by {
                assert(mins[i] == cols[i].min);
                assert(ideals[i] == (if cols[i].ideal > cols[i].min {
                    cols[i].ideal
                } else {
                    cols[i].min
                }));
                assert(maxes[i] == cols[i].max);
                assert(grown1.0[i] <= (if mins[i] >= ideals[i] {
                    mins[i]
                } else {
                    ideals[i]
                }));
                assert(grown1.0[i] <= maxes[i]);
            }
            assert(grown2.0 =~= maxes);
        }
        assert(grown2.1 == 0);
    }
}

} // verus!
