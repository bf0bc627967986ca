//! The mountain range on the horizon of the landscape scenes: rows of triangular
//! peaks of a few sizes, each candidate peak kept or dropped by a seeded random draw.

use vstd::prelude::*;
use nannou::rand::rngs::SmallRng;
use nannou::rand::{RngCore, SeedableRng};

verus! {

#[verifier::external_type_specification]
#[verifier::external_body]
pub struct ExSmallRng(SmallRng);

/// Creates rand's small, fast generator from a 64-bit seed (`SmallRng::seed_from_u64`).
/// Nothing is stated of the generator: the algorithm behind `SmallRng` depends on the platform.
#[verifier::external_body]
fn seeded_rng(seed: u64) -> (rng: SmallRng) {
    SmallRng::seed_from_u64(seed)
}

/// The next 32 random bits of `rng` (`RngCore::next_u32`). Any value may come back.
#[verifier::external_body]
fn next_draw(rng: &mut SmallRng) -> (draw: u32) {
    rng.next_u32()
}

/// The seed the mountain range is drawn with, the same on every frame.
pub const MOUNTAIN_SEED: u64 = 31337;

/// A draw keeps a peak when `draw as f32 / u32::MAX as f32 < 0.8` in single precision.
/// Both roundings are exact to state: `u32::MAX as f32` is 2^32 and `0.8f32` is
/// 13421773 / 2^24, so the test is `draw as f32 < 3435973888`, which holds exactly for
/// the draws that round below that value, those below 3435973761.
pub const KEEP_BELOW: u32 = 3435973761;

/// Whether a random draw keeps its peak.
pub open spec fn keeps(draw: u32) -> bool {
    draw < KEEP_BELOW
}

/// The sizes of the peaks, one row of candidates per size.
pub open spec fn spec_sizes() -> Seq<i32> {
    seq![1, 3, 5, 11, 17, 23]
}

/// `from`, `from + step`, `from + 2 * step`, ... while below `to`, as `(from..to).step_by(step)` yields them.
pub open spec fn spec_steps(from: int, to: int, step: int) -> Seq<int>
    decreases (if from < to {
        to - from
    } else {
        0
    }),
    when step > 0
{
    if from >= to {
        Seq::empty()
    } else {
        seq![from] + spec_steps(from + step, to, step)
    }
}

/// The candidate peaks of one size: a column every `size` units from -100 up to 100.
pub open spec fn spec_row(size: i32) -> Seq<(i32, i32)> {
    spec_steps(-100, 100, size as int).map_values(|column: int| (size, column as i32))
}

/// The candidates of all rows from `sizes`, one row after the other.
pub open spec fn spec_rows(sizes: Seq<i32>) -> Seq<(i32, i32)>
    decreases sizes.len(),
{
    if sizes.len() == 0 {
        Seq::empty()
    } else {
        spec_rows(sizes.drop_last()) + spec_row(sizes.last())
    }
}

/// All candidate peaks as (size, column) pairs, in drawing order.
pub open spec fn spec_candidates() -> Seq<(i32, i32)> {
    spec_rows(spec_sizes())
}

/// A peak: a triangle of base `left .. right` on the ground, its top above `apex`.
#[derive(PartialEq, Eq, Structural, Clone, Copy, Debug)]
pub struct Peak {
    pub size: i32,
    pub left: i64,
    pub apex: i64,
    pub right: i64,
}

/// The peak of candidate column `column` and size `size`: its base runs from
/// `size + column * size` to `size + (column + 2) * size`, its top is midway.
pub open spec fn spec_peak(candidate: (i32, i32)) -> Peak {
    let (size, column) = candidate;
    Peak {
        size,
        left: (size + column * size) as i64,
        apex: (size + (column + 1) * size) as i64,
        right: (size + (column + 2) * size) as i64,
    }
}

/// The peaks of the candidates whose draw keeps them, in order.
pub open spec fn spec_select(candidates: Seq<(i32, i32)>, draws: Seq<u32>) -> Seq<Peak>
    decreases candidates.len(),
{
    if candidates.len() == 0 {
        Seq::empty()
    } else {
        let rest = spec_select(candidates.drop_last(), draws.take(candidates.len() - 1));
        if keeps(draws[candidates.len() - 1]) {
            rest.push(spec_peak(candidates.last()))
        } else {
            rest
        }
    }
}

/// The columns of one row: `(-100..100).step_by(size)`.
pub fn row_columns(size: i32) -> (columns: Vec<i32>)
    requires
        size > 0,
    ensures
        columns@.map_values(|c: i32| c as int) == spec_steps(-100, 100, size as int),
{
    let mut columns: Vec<i32> = Vec::new();
    let mut column: i64 = -100;
    while column < 100
        invariant
            size > 0,
            -100 <= column < 100 + size,
            columns@.map_values(|c: i32| c as int) + spec_steps(column as int, 100, size as int)
                == spec_steps(-100, 100, size as int),
        decreases 100 + size - column,
    {
        let ghost before = columns@;
        columns.push(column as i32);
        assert(columns@.map_values(|c: i32| c as int) =~= before.map_values(|c: i32| c as int)
            + seq![column as int]);
        assert(spec_steps(column as int, 100, size as int) == seq![column as int] + spec_steps(
            column + size,
            100,
            size as int,
        ));
        assert(columns@.map_values(|c: i32| c as int) + spec_steps(column + size, 100, size as int)
            =~= before.map_values(|c: i32| c as int) + spec_steps(column as int, 100, size as int));
        column = column + size as i64;
    }
    assert(columns@.map_values(|c: i32| c as int) =~= columns@.map_values(|c: i32| c as int)
        + spec_steps(column as int, 100, size as int));
    columns
}


/// The sizes of the peaks, one row per size.
pub fn peak_sizes() -> (sizes: Vec<i32>)
    ensures
        sizes@ == spec_sizes(),
{
    let sizes: Vec<i32> = vec![1, 3, 5, 11, 17, 23];
    assert(sizes@ =~= spec_sizes());
    sizes
}

/// All candidate peaks as (size, column) pairs: for each size in turn, its row of columns.
pub fn mountain_candidates() -> (candidates: Vec<(i32, i32)>)
    ensures
        candidates@ == spec_candidates(),
{
    let sizes = peak_sizes();
    let mut candidates: Vec<(i32, i32)> = Vec::new();
    let mut k: usize = 0;
    while k < sizes.len()
        invariant
            sizes@ == spec_sizes(),
            k <= sizes.len(),
            candidates@ == spec_rows(sizes@.take(k as int)),
        decreases sizes.len() - k,
    {
        let size = sizes[k];
        let columns = row_columns(size);
        let ghost before = candidates@;
        let ghost steps = spec_steps(-100, 100, size as int);
        assert(columns@.len() == steps.len()) by {
            assert(columns@.map_values(|c: i32| c as int).len() == columns@.len());
        }
        let mut j: usize = 0;
        while j < columns.len()
            invariant
                j <= columns.len(),
                steps == spec_steps(-100, 100, size as int),
                columns@.len() == steps.len(),
                columns@.map_values(|c: i32| c as int) == steps,
                candidates@ == before + spec_row(size).take(j as int),
            decreases columns.len() - j,
        {
            assert(columns@.map_values(|c: i32| c as int)[j as int] == columns@[j as int] as int);
            assert(spec_row(size)[j as int] == (size, steps[j as int] as i32));
            assert(spec_row(size)[j as int] == (size, columns[j as int]));
            candidates.push((size, columns[j]));
            assert(spec_row(size).take(j + 1) =~= spec_row(size).take(j as int).push(
                (size, columns[j as int]),
            ));
            j = j + 1;
        }
        assert(spec_row(size).take(columns.len() as int) =~= spec_row(size));
        assert(sizes@.take(k + 1).drop_last() =~= sizes@.take(k as int));
        assert(sizes@.take(k + 1).last() == size);
        k = k + 1;
    }
    assert(sizes@.take(sizes.len() as int) =~= sizes@);
    candidates
}

/// The peaks of the candidates whose draw keeps them, in order: candidate `i` is
/// judged by `draws[i]`.
pub fn select_peaks(candidates: &Vec<(i32, i32)>, draws: &Vec<u32>) -> (peaks: Vec<Peak>)
    requires
        draws.len() == candidates.len(),
    ensures
        peaks@ == spec_select(candidates@, draws@),
{
    let mut peaks: Vec<Peak> = Vec::new();
    let mut i: usize = 0;
    while i < candidates.len()
        invariant
            draws.len() == candidates.len(),
            i <= candidates.len(),
            peaks@ == spec_select(candidates@.take(i as int), draws@.take(i as int)),
        decreases candidates.len() - i,
    {
        let ghost c1 = candidates@.take(i + 1);
        let ghost d1 = draws@.take(i + 1);
        assert(c1.drop_last() =~= candidates@.take(i as int));
        assert(d1.take(i as int) =~= draws@.take(i as int));
        let (size, column) = candidates[i];
        if draws[i] < KEEP_BELOW {
            let s = size as i64;
            let c = column as i64;
            assert(-0x4000_0001_0000_0000 <= c * s <= 0x4000_0001_0000_0000) by (nonlinear_arith)
                requires
                    -0x8000_0000 <= c <= 0x7fff_ffff,
                    -0x8000_0000 <= s <= 0x7fff_ffff,
            ;
            assert(-0x4000_0001_0000_0000 <= (c + 1) * s <= 0x4000_0001_0000_0000) by (nonlinear_arith)
                requires
                    -0x8000_0000 <= c <= 0x7fff_ffff,
                    -0x8000_0000 <= s <= 0x7fff_ffff,
            ;
            assert(-0x4000_0002_0000_0000 <= (c + 2) * s <= 0x4000_0002_0000_0000) by (nonlinear_arith)
                requires
                    -0x8000_0000 <= c <= 0x7fff_ffff,
                    -0x8000_0000 <= s <= 0x7fff_ffff,
            ;
            peaks.push(Peak { size, left: s + c * s, apex: s + (c + 1) * s, right: s + (c + 2) * s });
        }
        i = i + 1;
    }
    assert(candidates@.take(candidates.len() as int) =~= candidates@);
    assert(draws@.take(draws.len() as int) =~= draws@);
    peaks
}

/// The mountain range of the landscape: the candidates drawn, in order, against
/// the generator seeded with `MOUNTAIN_SEED`. What the generator yields is not stated,
/// so the result is the selection for some sequence of draws, one per candidate.
pub fn mountain_range() -> (peaks: Vec<Peak>)
    ensures
        exists|draws: Seq<u32>|
            draws.len() == spec_candidates().len() && peaks@ == spec_select(spec_candidates(), draws),
{
    let candidates = mountain_candidates();
    let mut rng = seeded_rng(MOUNTAIN_SEED);
    let mut draws: Vec<u32> = Vec::new();
    while draws.len() < candidates.len()
        invariant
            draws.len() <= candidates.len(),
        decreases candidates.len() - draws.len(),
    {
        let draw = next_draw(&mut rng);
        draws.push(draw);
    }
    let peaks = select_peaks(&candidates, &draws);
    assert(draws@.len() == spec_candidates().len() && peaks@ == spec_select(spec_candidates(), draws@));
    peaks
}


/// Every peak is two columns wide with its top over the middle of its base.
pub proof fn lemma_peak_shape(candidate: (i32, i32))
    ensures
        spec_peak(candidate).right - spec_peak(candidate).left == 2 * candidate.0,
        spec_peak(candidate).apex - spec_peak(candidate).left == candidate.0,
        spec_peak(candidate).size == candidate.0,
{
    let (size, column) = candidate;
    assert(-0x4000_0002_0000_0000 <= (column + 2) * size <= 0x4000_0002_0000_0000) by (nonlinear_arith)
        requires
            -0x8000_0000 <= column <= 0x7fff_ffff,
            -0x8000_0000 <= size <= 0x7fff_ffff,
    ;
    assert(-0x4000_0001_0000_0000 <= column * size <= 0x4000_0001_0000_0000) by (nonlinear_arith)
        requires
            -0x8000_0000 <= column <= 0x7fff_ffff,
            -0x8000_0000 <= size <= 0x7fff_ffff,
    ;
    assert((column + 2) * size == column * size + 2 * size) by (nonlinear_arith);
    assert((column + 1) * size == column * size + size) by (nonlinear_arith);
}

/// Peak `peak` is the peak of some candidate whose draw keeps it.
pub open spec fn drawn_from(peak: Peak, candidates: Seq<(i32, i32)>, draws: Seq<u32>) -> bool {
    exists|i: int| 0 <= i < candidates.len() && keeps(draws[i]) && peak == spec_peak(#[trigger] candidates[i])
}

/// The draws only drop peaks: there are no more peaks than candidates, and each peak
/// is the peak of a candidate whose draw keeps it.
pub proof fn lemma_selection_keeps_candidates(candidates: Seq<(i32, i32)>, draws: Seq<u32>)
    requires
        draws.len() == candidates.len(),
    ensures
        spec_select(candidates, draws).len() <= candidates.len(),
        forall|k: int|
            0 <= k < spec_select(candidates, draws).len() ==> drawn_from(
                #[trigger] spec_select(candidates, draws)[k],
                candidates,
                draws,
            ),
    decreases candidates.len(),
{
    if candidates.len() > 0 {
        let n = candidates.len() - 1;
        let c0 = candidates.drop_last();
        let d0 = draws.take(n);
        lemma_selection_keeps_candidates(c0, d0);
        let rest = spec_select(c0, d0);
        let sel = spec_select(candidates, draws);
        assert forall|k: int| 0 <= k < sel.len() implies drawn_from(#[trigger] sel[k], candidates, draws) by {
            if k < rest.len() {
                assert(drawn_from(rest[k], c0, d0));
                let i = choose|i: int| 0 <= i < c0.len() && keeps(d0[i]) && rest[k] == spec_peak(#[trigger] c0[i]);
                assert(sel[k] == rest[k]);
                assert(candidates[i] == c0[i] && draws[i] == d0[i]);
            } else {
                assert(sel[k] == spec_peak(candidates[n]));
                assert(keeps(draws[n]));
            }
        }
    }
}

/// No kept candidate is lost: the peak of every candidate whose draw keeps it is among
/// the selected peaks.
pub proof fn lemma_selection_keeps_every_kept(candidates: Seq<(i32, i32)>, draws: Seq<u32>)
    requires
        draws.len() == candidates.len(),
    ensures
        forall|i: int|
            0 <= i < candidates.len() && keeps(draws[i]) ==> spec_select(candidates, draws).contains(
                spec_peak(#[trigger] candidates[i]),
            ),
    decreases candidates.len(),
{
    if candidates.len() > 0 {
        let n = candidates.len() - 1;
        let c0 = candidates.drop_last();
        let d0 = draws.take(n);
        lemma_selection_keeps_every_kept(c0, d0);
        let rest = spec_select(c0, d0);
        let sel = spec_select(candidates, draws);
        assert forall|i: int|
            0 <= i < candidates.len() && keeps(draws[i]) implies sel.contains(
                spec_peak(#[trigger] candidates[i]),
            ) by {
            if i < n {
                assert(candidates[i] == c0[i] && draws[i] == d0[i]);
                assert(rest.contains(spec_peak(c0[i])));
                let k = choose|k: int| 0 <= k < rest.len() && rest[k] == spec_peak(c0[i]);
                assert(sel[k] == rest[k]);
            } else {
                assert(sel[sel.len() - 1] == spec_peak(candidates[n]));
            }
        }
    }
}

/// Every candidate of the row of size `size` lies on the row: a column between -100
/// (included) and 100 (excluded), a whole number of steps of `size` from -100.
pub proof fn lemma_row_columns(size: i32)
    requires
        size > 0,
    ensures
        forall|j: int|
            0 <= j < spec_row(size).len() ==> {
                let (s, column) = #[trigger] spec_row(size)[j];
                &&& s == size
                &&& -100 <= column < 100
                &&& (column + 100) % (size as int) == 0
            },
{
    lemma_steps_on_grid(-100, 100, size as int);
    assert forall|j: int| 0 <= j < spec_row(size).len() implies {
        let (s, column) = #[trigger] spec_row(size)[j];
        &&& s == size
        &&& -100 <= column < 100
        &&& (column + 100) % (size as int) == 0
    } by {
        let x = spec_steps(-100, 100, size as int)[j];
        assert(-100 <= x < 100 && (x + 100) % (size as int) == 0);
    }
}

/// The values of `spec_steps(from, to, step)` lie in `from .. to`, on multiples of `step` from `from`.
proof fn lemma_steps_on_grid(from: int, to: int, step: int)
    requires
        step > 0,
    ensures
        forall|j: int|
            0 <= j < spec_steps(from, to, step).len() ==> {
                let x = #[trigger] spec_steps(from, to, step)[j];
                &&& from <= x < to
                &&& (x - from) % step == 0
            },
    decreases (if from < to {
        to - from
    } else {
        0
    }),
{
    if from < to {
        lemma_steps_on_grid(from + step, to, step);
        let rest = spec_steps(from + step, to, step);
        assert(spec_steps(from, to, step) == seq![from] + rest);
        assert forall|j: int| 0 <= j < spec_steps(from, to, step).len() implies {
            let x = #[trigger] spec_steps(from, to, step)[j];
            &&& from <= x < to
            &&& (x - from) % step == 0
        } by {
            if j == 0 {
                assert(spec_steps(from, to, step)[j] == from);
                assert((from - from) % step == 0) by (nonlinear_arith)
                    requires
                        step > 0,
                ;
            } else {
                let x = rest[j - 1];
                assert(spec_steps(from, to, step)[j] == x);
                assert(from + step <= x < to);
                assert((x - from - step) % step == 0);
                assert((x - from) % step == 0) by (nonlinear_arith)
                    requires
                        (x - from - step) % step == 0,
                        step > 0,
                ;
            }
        }
    }
}

} // verus!
