//! The arena: ball placement and the physics construction plan.
//!
//! Placement scatters balls over the terrain with an exponential bias
//! toward low ground: the terrain is shrunk to one grid cell per possible
//! ball position, rescaled to a bucketed heightfield, and each cell gets
//! the weight `2^(ceiling - bucket)`; cells are then drawn by weighted
//! sampling without replacement.  Randomness comes from an explicit,
//! seedable generator, so the draw itself is the only unverified step:
//! everything proved here holds for every possible sequence of draws.

use vstd::prelude::*;
use vstd::multiset::Multiset;
use vstd::seq_lib::group_to_multiset_ensures;

use crate::rational::Rational;
use crate::rational::Ratio;
use crate::dimension::Dimension;
use crate::dimension::WorldVector;
use crate::terrain::Terrain;
use crate::terrain::Heightfield;
use crate::terrain::GridModel;
use crate::terrain::pow_two;
use crate::terrain::lemma_pow_two_pos;
use crate::terrain::lemma_pow_two_mono;

verus! {

#[verifier::external_type_specification]
#[verifier::external_body]
pub struct ExStdRng(rand::rngs::StdRng);

/// Relies on rand::Rng::gen_range over `0..bound`: the draw is uniform in
/// `[0, bound)`, and in particular always below the bound.  Nothing more
/// can be promised of a random value.
#[verifier::external_body]
fn rng_below(rng: &mut rand::rngs::StdRng, bound: u64) -> (r: u64)
    requires
        bound >= 1,
    ensures
        r < bound,
{
    rand::Rng::gen_range(rng, 0..bound)
}

/// The sum of a sequence of sampling weights.
pub open spec fn sum_weights(s: Seq<u64>) -> int
    decreases s.len(),
{
    if s.len() == 0 {
        0
    } else {
        sum_weights(s.drop_last()) + s.last()
    }
}

/// A prefix sum never exceeds the whole sum, and the whole sum is
/// nonnegative.
proof fn lemma_sum_weights_prefix(s: Seq<u64>, k: int)
    requires
        0 <= k <= s.len(),
    ensures
        0 <= sum_weights(s.take(k)) <= sum_weights(s),
    decreases s.len(),
{
    if s.len() == 0 {
        assert(s.take(k) =~= s);
    } else if k == s.len() {
        assert(s.take(k) =~= s);
        lemma_sum_weights_prefix(s.drop_last(), s.len() - 1);
        assert(s.drop_last().take(s.len() - 1) =~= s.drop_last());
    } else {
        assert(s.take(k) =~= s.drop_last().take(k));
        lemma_sum_weights_prefix(s.drop_last(), k);
    }
}

/// Extending a prefix by one element adds that element's weight.
proof fn lemma_sum_weights_take_succ(s: Seq<u64>, k: int)
    requires
        0 <= k < s.len(),
    ensures
        sum_weights(s.take(k + 1)) == sum_weights(s.take(k)) + s[k],
{
    assert(s.take(k + 1).drop_last() =~= s.take(k));
    assert(s.take(k + 1).last() == s[k]);
}

/// Removing an element subtracts its weight from the sum.
proof fn lemma_sum_weights_remove(s: Seq<u64>, i: int)
    requires
        0 <= i < s.len(),
    ensures
        sum_weights(s.remove(i)) == sum_weights(s) - s[i],
    decreases s.len(),
{
    if i == s.len() - 1 {
        assert(s.remove(i) =~= s.drop_last());
    } else {
        assert(s.remove(i).drop_last() =~= s.drop_last().remove(i));
        assert(s.remove(i).last() == s.last());
        lemma_sum_weights_remove(s.drop_last(), i);
    }
}

/// If every weight is at most `bound`, the sum is at most `len * bound`.
pub proof fn lemma_sum_weights_bounded(s: Seq<u64>, bound: int)
    requires
        forall|k: int| 0 <= k < s.len() ==> #[trigger] s[k] <= bound,
    ensures
        sum_weights(s) <= s.len() * bound,
    decreases s.len(),
{
    if s.len() == 0 {
    } else {
        lemma_sum_weights_bounded(s.drop_last(), bound);
        assert(sum_weights(s) <= (s.len() - 1) * bound + bound);
        assert((s.len() - 1) * bound + bound == s.len() * bound) by (nonlinear_arith);
    }
}

/// The total weight of the remaining items.
fn total_weight(weights: &Vec<u64>) -> (total: u64)
    requires
        sum_weights(weights@) <= u64::MAX,
        forall|k: int| 0 <= k < weights@.len() ==> 1 <= #[trigger] weights@[k],
    ensures
        total as int == sum_weights(weights@),
        weights@.len() >= 1 ==> total >= 1,
{
    let n = weights.len();
    let mut total: u64 = 0;
    let mut k: usize = 0;
    while k < n
        invariant
            k <= n,
            n == weights@.len(),
            sum_weights(weights@) <= u64::MAX,
            forall|q: int| 0 <= q < weights@.len() ==> 1 <= #[trigger] weights@[q],
            total as int == sum_weights(weights@.take(k as int)),
        decreases n - k,
    {
        proof {
            lemma_sum_weights_take_succ(weights@, k as int);
            lemma_sum_weights_prefix(weights@, k as int + 1);
        }
        total = total + weights[k];
        k += 1;
    }
    proof {
        assert(weights@.take(n as int) =~= weights@);
        if n >= 1 {
            lemma_sum_weights_take_succ(weights@, 0);
            lemma_sum_weights_prefix(weights@, 1);
            assert(weights@.take(0) =~= Seq::<u64>::empty());
        }
    }
    total
}

/// The index selected by the draw `r`: the unique `idx` with
/// `prefix_sum(idx) <= r < prefix_sum(idx + 1)`, so an item's chance is
/// proportional to its weight.
fn pick_index(weights: &Vec<u64>, r: u64, total: u64) -> (idx: usize)
    requires
        weights@.len() >= 1,
        forall|k: int| 0 <= k < weights@.len() ==> 1 <= #[trigger] weights@[k],
        sum_weights(weights@) <= u64::MAX,
        total as int == sum_weights(weights@),
        r < total,
    ensures
        idx < weights@.len(),
        sum_weights(weights@.take(idx as int)) <= r < sum_weights(weights@.take(idx as int + 1)),
{
    let n = weights.len();
    let mut idx: usize = 0;
    proof {
        lemma_sum_weights_take_succ(weights@, 0);
        assert(weights@.take(0) =~= Seq::<u64>::empty());
        lemma_sum_weights_prefix(weights@, 1);
    }
    let mut acc: u64 = weights[0];
    while r >= acc
        invariant
            idx < n,
            n == weights@.len(),
            forall|k: int| 0 <= k < weights@.len() ==> 1 <= #[trigger] weights@[k],
            sum_weights(weights@) <= u64::MAX,
            total as int == sum_weights(weights@),
            r < total,
            acc as int == sum_weights(weights@.take(idx as int + 1)),
            sum_weights(weights@.take(idx as int)) <= r,
        decreases n - idx,
    {
        proof {
            if idx + 1 == n {
                assert(weights@.take(n as int) =~= weights@);
            }
            lemma_sum_weights_take_succ(weights@, idx as int + 1);
            lemma_sum_weights_prefix(weights@, idx as int + 2);
        }
        idx += 1;
        acc = acc + weights[idx];
    }
    idx
}

/// Weighted sampling without replacement: draws up to `count` items, each
/// draw removing the selected item, so the result never repeats an item
/// and, when `count` covers every item, is exactly a permutation of the
/// input — whatever the random draws were.
pub fn sample_without_replacement(
    items: Vec<(u32, u32)>,
    weights: Vec<u64>,
    count: usize,
    rng: &mut rand::rngs::StdRng,
) -> (chosen: Vec<(u32, u32)>)
    requires
        weights@.len() == items@.len(),
        forall|k: int| 0 <= k < weights@.len() ==> 1 <= #[trigger] weights@[k],
        sum_weights(weights@) <= u64::MAX,
    ensures
        chosen@.len() == if count <= items@.len() {
            count as int
        } else {
            items@.len() as int
        },
        chosen@.to_multiset().subset_of(items@.to_multiset()),
        count >= items@.len() ==> chosen@.to_multiset() == items@.to_multiset(),
{
    broadcast use group_to_multiset_ensures;
    broadcast use vstd::multiset::group_multiset_axioms;

    let ghost orig_items = items@;
    let mut items = items;
    let mut weights = weights;
    let mut chosen: Vec<(u32, u32)> = Vec::new();
    while chosen.len() < count && items.len() > 0
        invariant
            weights@.len() == items@.len(),
            forall|k: int| 0 <= k < weights@.len() ==> 1 <= #[trigger] weights@[k],
            sum_weights(weights@) <= u64::MAX,
            chosen@.len() + items@.len() == orig_items.len(),
            chosen@.len() <= count,
            chosen@.to_multiset().add(items@.to_multiset()) == orig_items.to_multiset(),
        decreases count - chosen@.len(),
    {
        let total = total_weight(&weights);
        let r = rng_below(rng, total);
        let idx = pick_index(&weights, r, total);
        let ghost old_items = items@;
        let ghost old_weights = weights@;
        let ghost old_chosen = chosen@;
        let item = items.remove(idx);
        weights.remove(idx);
        chosen.push(item);
        proof {
            lemma_sum_weights_remove(old_weights, idx as int);
            vstd::seq_lib::to_multiset_build(old_chosen, item);
            vstd::seq_lib::to_multiset_remove(old_items, idx as int);
            assert(chosen@ == old_chosen.push(item));
            assert(items@ == old_items.remove(idx as int));
            assert(chosen@.to_multiset() =~= old_chosen.to_multiset().insert(item));
            assert(items@.to_multiset() =~= old_items.to_multiset().remove(item));
            assert(old_items.contains(item));
            vstd::seq_lib::to_multiset_contains(old_items, item);
            assert(old_items.to_multiset().count(item) > 0);
            assert(chosen@.to_multiset().add(items@.to_multiset()) =~= old_chosen.to_multiset().add(
                old_items.to_multiset(),
            ));
        }
    }
    proof {
        if items@.len() == 0 {
            assert(items@.to_multiset() =~= Multiset::<(u32, u32)>::empty());
            assert(chosen@.to_multiset() =~= orig_items.to_multiset());
            assert(chosen@.to_multiset().subset_of(orig_items.to_multiset()));
        } else {
            assert forall|x: (u32, u32)|
                chosen@.to_multiset().count(x) <= orig_items.to_multiset().count(
                    x,
                ) by {
                assert(chosen@.to_multiset().count(x) + items@.to_multiset().count(x)
                    == orig_items.to_multiset().count(x));
            }
            assert(chosen@.to_multiset().subset_of(orig_items.to_multiset()));
        }
    }
    chosen
}

/// Ceiling of the bucketed heightfield used for placement weighting, in
/// world units.
pub const BUCKET_CEILING: u32 = 20;

/// The bucketed height of heightfield cell `k`: its exact rational value
/// rounded down to a whole number of units.
pub open spec fn bucket_at(hf: Heightfield, k: int) -> int {
    hf.nums@[k] as int / hf.den as int
}

/// The placement weight of heightfield cell `k`: `2^(ceiling - bucket)`,
/// an exponential bias strongly favoring low terrain.
pub open spec fn weight_at(hf: Heightfield, k: int) -> int {
    pow_two((BUCKET_CEILING - bucket_at(hf, k)) as nat)
}

/// `2^exponent`, executably, for the small exponents weighting needs.
fn pow2_u64(exponent: u32) -> (r: u64)
    requires
        exponent <= BUCKET_CEILING,
    ensures
        r as int == pow_two(exponent as nat),
        1 <= r,
{
    proof {
        assert(pow_two(20) == 0x10_0000) by {
            reveal_with_fuel(pow_two, 21);
        }
    }
    let mut r: u64 = 1;
    let mut i: u32 = 0;
    while i < exponent
        invariant
            i <= exponent <= 20,
            r as int == pow_two(i as nat),
            pow_two(20) == 0x10_0000,
        decreases exponent - i,
    {
        proof {
            lemma_pow_two_mono(i as nat + 1, 20);
        }
        r = r * 2;
        i += 1;
    }
    proof {
        lemma_pow_two_pos(exponent as nat);
    }
    r
}

/// The sampling weight of every heightfield cell: `2^(ceiling - bucket)`,
/// so a cell at the bucket ceiling gets weight 1 and each unit of depth
/// below it doubles the cell's chance.
pub fn placement_weights(hf: &Heightfield) -> (ws: Vec<u64>)
    requires
        hf.wf(),
        hf.max_value <= BUCKET_CEILING,
    ensures
        ws@.len() == hf.nums@.len(),
        forall|k: int|
            0 <= k < ws@.len() ==> (#[trigger] ws@[k]) as int == weight_at(*hf, k) && 1 <= ws@[k]
                <= 0x10_0000,
{
    let n = hf.nums.len();
    let mut ws: Vec<u64> = Vec::new();
    let mut k: usize = 0;
    while k < n
        invariant
            hf.wf(),
            hf.max_value <= BUCKET_CEILING,
            n == hf.nums@.len(),
            k <= n,
            ws@.len() == k,
            forall|q: int|
                0 <= q < k ==> (#[trigger] ws@[q]) as int == weight_at(*hf, q) && 1 <= ws@[q]
                    <= 0x10_0000,
        decreases n - k,
    {
        let num = hf.nums[k];
        proof {
            let numi = num as int;
            let deni = hf.den as int;
            let maxi = hf.max_value as int;
            assert(numi <= deni * maxi) by (nonlinear_arith)
                requires
                    numi <= maxi * deni,
            ;
            vstd::arithmetic::div_mod::lemma_div_pos_is_pos(numi, deni);
            vstd::arithmetic::div_mod::lemma_div_is_ordered(numi, deni * maxi, deni);
            vstd::arithmetic::div_mod::lemma_div_multiples_vanish(maxi, deni);
            assert(0 <= numi / deni <= maxi);
        }
        let bucket = ((num as u128) / (hf.den as u128)) as u32;
        let w = pow2_u64(BUCKET_CEILING - bucket);
        proof {
            assert(bucket as int == bucket_at(*hf, k as int));
            assert(pow_two((BUCKET_CEILING - bucket) as nat) <= pow_two(20)) by {
                lemma_pow_two_mono((BUCKET_CEILING - bucket) as nat, 20);
            }
            assert(pow_two(20) == 0x10_0000) by {
                reveal_with_fuel(pow_two, 21);
            }
        }
        ws.push(w);
        k += 1;
    }
    ws
}

/// Every cell coordinate of a `width` by `height` grid, in row-major
/// order: entry `k` is `(k % width, k / width)`, read as `(x, z)`.
pub open spec fn grid_cell_seq(width: int, height: int) -> Seq<(u32, u32)> {
    Seq::new((width * height) as nat, |k: int| (((k % width) as u32, (k / width) as u32)))
}

/// Lists every cell of the grid once, row by row.
pub fn grid_cells(width: usize, height: usize) -> (cells: Vec<(u32, u32)>)
    requires
        1 <= width < 0x1_0000_0000,
        1 <= height < 0x1_0000_0000,
        width * height <= usize::MAX,
    ensures
        cells@ == grid_cell_seq(width as int, height as int),
        cells@.len() == width * height,
{
    let mut cells: Vec<(u32, u32)> = Vec::new();
    let mut z: usize = 0;
    while z < height
        invariant
            1 <= width < 0x1_0000_0000,
            1 <= height < 0x1_0000_0000,
            width * height <= usize::MAX,
            z <= height,
            cells@.len() == z * width,
            forall|k: int|
                0 <= k < cells@.len() ==> #[trigger] cells@[k] == (((k % (width as int)) as u32, (
                k / (width as int)) as u32)),
        decreases height - z,
    {
        let mut x: usize = 0;
        while x < width
            invariant
                1 <= width < 0x1_0000_0000,
                1 <= height < 0x1_0000_0000,
                width * height <= usize::MAX,
                z < height,
                x <= width,
                cells@.len() == z * width + x,
                forall|k: int|
                    0 <= k < cells@.len() ==> #[trigger] cells@[k] == (((k % (width as int)) as u32,
                    (k / (width as int)) as u32)),
            decreases width - x,
        {
            proof {
                lemma_row_major_helper(width as int, height as int, z as int, x as int);
            }
            cells.push((x as u32, z as u32));
            x += 1;
        }
        z += 1;
        proof {
            assert(cells@.len() == z * width) by (nonlinear_arith)
                requires
                    cells@.len() == (z - 1) * width + width,
            ;
        }
    }
    proof {
        assert(cells@.len() == width * height) by (nonlinear_arith)
            requires
                cells@.len() == (height as int) * (width as int),
        ;
        assert(cells@ =~= grid_cell_seq(width as int, height as int));
    }
    cells
}

/// Row-major index arithmetic for the cell listing: position `z * w + x`
/// stays in range and splits back into `(x, z)`.
proof fn lemma_row_major_helper(w: int, h: int, z: int, x: int)
    requires
        w >= 1,
        0 <= z < h,
        0 <= x < w,
    ensures
        0 <= z * w + x < h * w,
        (z * w + x) % w == x,
        (z * w + x) / w == z,
{
    assert(0 <= z * w + x < h * w) by (nonlinear_arith)
        requires
            w >= 1,
            0 <= z < h,
            0 <= x < w,
    ;
    vstd::arithmetic::div_mod::lemma_fundamental_div_mod_converse(z * w + x, w, z, x);
}

/// The world coordinate of grid index `idx` along an axis: the index
/// scaled by `side / grid_dim` cells, then offset by the placement radius
/// so the ball sits inside its cell.
pub open spec fn placement_coord(idx: int, side: int, grid_dim: int, radius: Ratio) -> Ratio {
    (Ratio { num: idx * side, den: grid_dim }).plus(radius)
}

/// Converts sampled grid cells to world positions at the fixed altitude
/// `y`.  Every position lands inside the arena: at least the placement
/// radius from the origin and at most `side_length` along each axis.
pub fn to_world_positions(
    chosen: &Vec<(u32, u32)>,
    side_length: u32,
    grid_w: usize,
    grid_h: usize,
    radius: &Rational,
    y: &Rational,
) -> (balls: Vec<WorldVector>)
    requires
        side_length >= 1,
        1 <= grid_w < 0x1_0000_0000,
        1 <= grid_h < 0x1_0000_0000,
        radius@.wf(),
        radius@.num >= 1,
        y@.wf(),
        forall|k: int|
            0 <= k < chosen@.len() ==> (#[trigger] chosen@[k]).0 < grid_w && chosen@[k].1 < grid_h,
        (grid_w as int) * (side_length as int) * radius@.den + radius@.num * (grid_w as int)
            <= i128::MAX,
        (grid_h as int) * (side_length as int) * radius@.den + radius@.num * (grid_h as int)
            <= i128::MAX,
        2 * radius@.num * (grid_w as int) <= (side_length as int) * radius@.den,
        2 * radius@.num * (grid_h as int) <= (side_length as int) * radius@.den,
    ensures
        balls@.len() == chosen@.len(),
        forall|k: int| 0 <= k < balls@.len() ==> placed_ball_ok(
            #[trigger] balls@[k],
            chosen@[k],
            side_length as int,
            grid_w as int,
            grid_h as int,
            radius@,
            y@,
        ),
{
    let mut balls: Vec<WorldVector> = Vec::new();
    let n = chosen.len();
    let mut k: usize = 0;
    while k < n
        invariant
            side_length >= 1,
            1 <= grid_w < 0x1_0000_0000,
            1 <= grid_h < 0x1_0000_0000,
            radius@.wf(),
            radius@.num >= 1,
            y@.wf(),
            n == chosen@.len(),
            forall|q: int|
                0 <= q < chosen@.len() ==> (#[trigger] chosen@[q]).0 < grid_w && chosen@[q].1
                    < grid_h,
            (grid_w as int) * (side_length as int) * radius@.den + radius@.num * (grid_w as int)
                <= i128::MAX,
            (grid_h as int) * (side_length as int) * radius@.den + radius@.num * (grid_h as int)
                <= i128::MAX,
            2 * radius@.num * (grid_w as int) <= (side_length as int) * radius@.den,
            2 * radius@.num * (grid_h as int) <= (side_length as int) * radius@.den,
            k <= n,
            balls@.len() == k,
            forall|q: int| 0 <= q < k ==> placed_ball_ok(
                #[trigger] balls@[q],
                chosen@[q],
                side_length as int,
                grid_w as int,
                grid_h as int,
                radius@,
                y@,
            ),
        decreases n - k,
    {
        let cell = chosen[k];
        let x = placement_axis_coord(cell.0, side_length, grid_w, radius);
        let z = placement_axis_coord(cell.1, side_length, grid_h, radius);
        let ball = WorldVector { x, y: *y, z };
        balls.push(ball);
        k += 1;
    }
    balls
}

/// How one placed ball relates to the cell it was drawn from.
pub open spec fn placed_ball_ok(
    ball: WorldVector,
    cell: (u32, u32),
    side: int,
    grid_w: int,
    grid_h: int,
    radius: Ratio,
    y: Ratio,
) -> bool {
    &&& ball.x@ == placement_coord(cell.0 as int, side, grid_w, radius)
    &&& ball.y@ == y
    &&& ball.z@ == placement_coord(cell.1 as int, side, grid_h, radius)
    &&& ball.x@.wf()
    &&& ball.z@.wf()
    &&& radius.lte(ball.x@) && ball.x@.lte(Ratio::from_int(side))
    &&& radius.lte(ball.z@) && ball.z@.lte(Ratio::from_int(side))
}

/// One axis of the cell-to-world conversion.
fn placement_axis_coord(idx: u32, side_length: u32, grid_dim: usize, radius: &Rational) -> (c:
    Rational)
    requires
        side_length >= 1,
        1 <= grid_dim < 0x1_0000_0000,
        radius@.wf(),
        radius@.num >= 1,
        idx < grid_dim,
        (grid_dim as int) * (side_length as int) * radius@.den + radius@.num * (grid_dim as int)
            <= i128::MAX,
        2 * radius@.num * (grid_dim as int) <= (side_length as int) * radius@.den,
    ensures
        c@ == placement_coord(idx as int, side_length as int, grid_dim as int, radius@),
        c@.wf(),
        radius@.lte(c@),
        c@.lte(Ratio::from_int(side_length as int)),
{
    let xi = idx as i128;
    let gd = grid_dim as i128;
    let side = side_length as i128;
    proof {
        let xii = xi as int;
        let gdi = gd as int;
        let sidei = side as int;
        let rn = radius@.num;
        let rd = radius@.den;
        assert((0 <= xii * sidei * rd <= gdi * sidei * rd) && (xii * sidei * rd + rn * gdi <= gdi
            * sidei * rd + rn * gdi) && (0 < gdi * rd <= gdi * sidei * rd) && (0 <= xii * sidei
            <= gdi * sidei) && (gdi * sidei <= gdi * sidei * rd)) by (nonlinear_arith)
            requires
                0 <= xii < gdi,
                sidei >= 1,
                rd >= 1,
                rn >= 1,
        ;
        assert((rn * (gdi * rd) <= (xii * sidei * rd + rn * gdi) * rd) && ((xii * sidei * rd + rn
            * gdi) * 1 <= sidei * (gdi * rd))) by (nonlinear_arith)
            requires
                0 <= xii < gdi,
                sidei >= 1,
                rd >= 1,
                rn >= 1,
                2 * rn * gdi <= sidei * rd,
        ;
    }
    let num = xi * side * radius.den + radius.num * gd;
    let den = gd * radius.den;
    Rational { num, den }
}

/// How many ball-sized boxes fit along one arena side: the sampling grid
/// gets (at most) one cell per possible ball position per axis.
pub open spec fn positions_per_axis(side: int, radius: Ratio) -> int {
    side * radius.den / (2 * radius.num)
}

/// The grid that placement samples from: the terrain shrunk until both
/// sides fit the per-axis position count.
pub open spec fn sampling_grid(t: GridModel, side: int, radius: Ratio) -> GridModel {
    crate::terrain::shrink_model(t, positions_per_axis(side, radius))
}

/// Everything random placement guarantees, for every possible sequence of
/// draws: one world position per drawn cell; the drawn cells are distinct
/// cells of the sampling grid; when the request covers the whole grid,
/// every cell is drawn exactly once; and every position lies inside the
/// arena.
pub open spec fn placed_balls_ok(
    balls: Seq<WorldVector>,
    t: GridModel,
    num_balls: int,
    side: int,
    radius: Ratio,
    y: Ratio,
) -> bool {
    let g = sampling_grid(t, side, radius);
    let cells = grid_cell_seq(g.width, g.height);
    &&& balls.len() == if num_balls <= cells.len() {
        num_balls
    } else {
        cells.len() as int
    }
    &&& exists|sel: Seq<(u32, u32)>|
        #![auto]
        {
            &&& sel.len() == balls.len()
            &&& sel.to_multiset().subset_of(cells.to_multiset())
            &&& (num_balls >= cells.len() ==> sel.to_multiset() == cells.to_multiset())
            &&& forall|k: int|
                0 <= k < balls.len() ==> placed_ball_ok(
                    balls[k],
                    sel[k],
                    side,
                    g.width,
                    g.height,
                    radius,
                    y,
                )
        }
}

/// Scatters `num_balls` balls over the terrain, biased toward low ground:
/// the terrain is shrunk to the sampling grid, every cell is weighted by
/// `2^(ceiling - bucketed height)`, and cells are drawn without
/// replacement; each drawn cell is scaled up to a world position at the
/// fixed altitude `y`.
pub fn random_balls(
    num_balls: u8,
    ball_radius: &Rational,
    side_length: u32,
    terrain: &Terrain,
    y: &Rational,
    rng: &mut rand::rngs::StdRng,
) -> (balls: Vec<WorldVector>)
    requires
        terrain.wf(),
        side_length >= 1,
        ball_radius@.wf(),
        ball_radius@.num >= 1,
        y@.wf(),
        1 <= positions_per_axis(side_length as int, ball_radius@) <= 0x10_0000,
        0x10_0000 * (side_length as int) * ball_radius@.den + ball_radius@.num * 0x10_0000
            <= i128::MAX,
    ensures
        placed_balls_ok(
            balls@,
            terrain@,
            num_balls as int,
            side_length as int,
            ball_radius@,
            y@,
        ),
{
    broadcast use group_to_multiset_ensures;
    broadcast use vstd::multiset::group_multiset_axioms;

    let ghost per_axis = positions_per_axis(side_length as int, ball_radius@);
    proof {
        let s = side_length as int;
        let rd = ball_radius@.den;
        let rn = ball_radius@.num;
        assert(s * rd <= 0x10_0000 * s * rd && 0 <= s * rd && 0 < 2 * rn && 2 * rn <= 2 * rn * (s
            * rd / (2 * rn)) + 2 * rn) by (nonlinear_arith)
            requires
                s >= 1,
                rd >= 1,
                rn >= 1,
                0x10_0000 * s * rd + rn * 0x10_0000 <= i128::MAX,
                1 <= s * rd / (2 * rn),
        ;
    }
    let d128 = ((side_length as u128) * (ball_radius.den as u128)) / (2 * (ball_radius.num
        as u128));
    proof {
        assert(d128 as int == per_axis);
    }
    let d = d128 as usize;
    let sized = terrain.shrink_to_fit(d);
    let ghost g = sampling_grid(terrain@, side_length as int, ball_radius@);
    proof {
        assert(sized@ == g);
    }
    let hf = sized.as_xz_heightfield(BUCKET_CEILING);
    let cell_count = sized.cells.len();
    proof {
        assert(sized@.cells.len() == cell_count);
        assert(g.width * g.height == cell_count);
    }
    let cells = grid_cells(sized.width, sized.height);
    let weights = placement_weights(&hf);
    proof {
        lemma_sum_weights_bounded(weights@, 0x10_0000);
        assert(weights@.len() * 0x10_0000 <= u64::MAX) by (nonlinear_arith)
            requires
                weights@.len() == g.width * g.height,
                1 <= g.width <= per_axis,
                1 <= g.height <= per_axis,
                per_axis <= 0x10_0000,
        ;
    }
    let ghost cell_seq = grid_cell_seq(g.width, g.height);
    let chosen = sample_without_replacement(cells, weights, num_balls as usize, rng);
    proof {
        assert forall|k: int| 0 <= k < chosen@.len() implies (#[trigger] chosen@[k]).0
            < sized.width && chosen@[k].1 < sized.height by {
            let e = chosen@[k];
            assert(chosen@.contains(e));
            vstd::seq_lib::to_multiset_contains(chosen@, e);
            assert(cell_seq.to_multiset().count(e) > 0);
            vstd::seq_lib::to_multiset_contains(cell_seq, e);
            let i = choose|i: int| 0 <= i < cell_seq.len() && cell_seq[i] == e;
            vstd::arithmetic::div_mod::lemma_mod_bound(i, g.width);
            vstd::arithmetic::div_mod::lemma_div_pos_is_pos(i, g.width);
            assert(i < g.width * g.height);
            vstd::arithmetic::div_mod::lemma_multiply_divide_lt(i, g.width, g.height);
        }
        let s = side_length as int;
        let rd = ball_radius@.den;
        let rn = ball_radius@.num;
        let gw = g.width;
        let gh = g.height;
        vstd::arithmetic::div_mod::lemma_fundamental_div_mod(s * rd, 2 * rn);
        assert((gw * s * rd + rn * gw <= 0x10_0000 * s * rd + rn * 0x10_0000) && (gh * s * rd + rn
            * gh <= 0x10_0000 * s * rd + rn * 0x10_0000) && (2 * rn * gw <= s * rd) && (2 * rn * gh
            <= s * rd)) by (nonlinear_arith)
            requires
                s >= 1,
                rd >= 1,
                rn >= 1,
                1 <= gw <= per_axis,
                1 <= gh <= per_axis,
                per_axis <= 0x10_0000,
                per_axis == s * rd / (2 * rn),
                s * rd == (2 * rn) * ((s * rd) / (2 * rn)) + (s * rd) % (2 * rn),
                (s * rd) % (2 * rn) >= 0,
        ;
    }
    let balls = to_world_positions(
        &chosen,
        side_length,
        sized.width,
        sized.height,
        ball_radius,
        y,
    );
    proof {
        let sel = chosen@;
        assert(sel.len() == balls@.len());
        assert(sel.to_multiset().subset_of(cell_seq.to_multiset()));
        if num_balls as int >= cell_seq.len() {
            assert(sel.to_multiset() == cell_seq.to_multiset());
        }
        assert(placed_balls_ok(
            balls@,
            terrain@,
            num_balls as int,
            side_length as int,
            ball_radius@,
            y@,
        ));
    }
    balls
}

/// One boundary wall of the arena: the half-extents and the position of a
/// box collider.
pub struct WallSpec {
    pub half_extents: WorldVector,
    pub translation: WorldVector,
}

/// The four walls the plan places around the arena: thin boxes along each
/// side boundary, 100 units tall, one tenth of a unit thick.
pub open spec fn wall_layout_ok(walls: Seq<WallSpec>, side: int) -> bool {
    let thickness = Ratio { num: 1, den: 10 };
    let wall_y = Ratio { num: 100, den: 1 };
    let s = Ratio { num: side, den: 1 };
    let zero = Ratio { num: 0, den: 1 };
    &&& walls.len() == 4
    &&& walls[0].half_extents.x@ == thickness && walls[0].half_extents.y@ == wall_y
        && walls[0].half_extents.z@ == s
    &&& walls[0].translation.x@ == (Ratio { num: -1, den: 10 }) && walls[0].translation.y@ == zero
        && walls[0].translation.z@ == zero
    &&& walls[1].half_extents.x@ == thickness && walls[1].half_extents.y@ == wall_y
        && walls[1].half_extents.z@ == s
    &&& walls[1].translation.x@ == s && walls[1].translation.y@ == zero && walls[1].translation.z@
        == zero
    &&& walls[2].half_extents.x@ == s && walls[2].half_extents.y@ == wall_y
        && walls[2].half_extents.z@ == thickness
    &&& walls[2].translation.x@ == zero && walls[2].translation.y@ == zero
        && walls[2].translation.z@ == (Ratio { num: -1, den: 10 })
    &&& walls[3].half_extents.x@ == s && walls[3].half_extents.y@ == wall_y
        && walls[3].half_extents.z@ == thickness
    &&& walls[3].translation.x@ == zero && walls[3].translation.y@ == zero
        && walls[3].translation.z@ == s
}

/// Everything the physics engine needs to build the world: the ground
/// heightfield with its extent and position, the four boundary walls, the
/// initial ball positions, and the simulation constants.  The embedding
/// code hands these values to the engine verbatim.
pub struct PhysicsPlan {
    pub ground_heights: Heightfield,
    pub ground_size: WorldVector,
    pub ground_translation: WorldVector,
    pub walls: Vec<WallSpec>,
    pub balls: Vec<WorldVector>,
    pub ball_radius: Rational,
    pub restitution: Rational,
    pub ccd_enabled: bool,
    pub gravity: WorldVector,
    pub timestep: Rational,
}

/// The arena: its square dimension and the plan for building its physics
/// world.
pub struct Arena {
    pub dimension: Dimension,
    pub plan: PhysicsPlan,
}

impl Arena {
    /// Builds an arena of the given side length over the terrain: the ball
    /// radius is one hundredth of the side, `num_balls` balls are placed
    /// by weighted random sampling at altitude 100, the ground is the
    /// terrain's heightfield normalized to `[0, 1]`, and four walls close
    /// the boundary.
    pub fn new(
        side_length: u32,
        num_balls: u8,
        terrain: &Terrain,
        rng: &mut rand::rngs::StdRng,
    ) -> (arena: Arena)
        requires
            terrain.wf(),
            side_length >= 1,
        ensures
            arena.dimension.side_length == side_length,
            arena.plan.ball_radius@ == (Ratio { num: side_length as int, den: 100 }),
            placed_balls_ok(
                arena.plan.balls@,
                terrain@,
                num_balls as int,
                side_length as int,
                arena.plan.ball_radius@,
                Ratio { num: 100, den: 1 },
            ),
            arena.plan.ground_heights.wf(),
            crate::terrain::heightfield_models(arena.plan.ground_heights, terrain@, 1),
            arena.plan.ground_size.x@ == Ratio::from_int(side_length as int),
            arena.plan.ground_size.y@ == (Ratio { num: 4 * side_length as int, den: 100 }),
            arena.plan.ground_size.z@ == Ratio::from_int(side_length as int),
            arena.plan.ground_translation.x@ == (Ratio { num: side_length as int, den: 2 }),
            arena.plan.ground_translation.y@ == Ratio::from_int(0),
            arena.plan.ground_translation.z@ == (Ratio { num: side_length as int, den: 2 }),
            wall_layout_ok(arena.plan.walls@, side_length as int),
            arena.plan.restitution@ == (Ratio { num: 8, den: 10 }),
            arena.plan.ccd_enabled,
            arena.plan.gravity.x@ == Ratio::from_int(0),
            arena.plan.gravity.y@ == (Ratio { num: -981, den: 100 }),
            arena.plan.gravity.z@ == Ratio::from_int(0),
            arena.plan.timestep@ == (Ratio { num: 1, den: 60 }),
    {
        let radius = Rational { num: side_length as i128, den: 100 };
        let default_y = Rational { num: 100, den: 1 };
        proof {
            let s = side_length as int;
            vstd::arithmetic::div_mod::lemma_div_multiples_vanish(50, 2 * s);
            assert(s * 100 == (2 * s) * 50);
            assert(positions_per_axis(s, radius@) == 50);
        }
        let balls = random_balls(num_balls, &radius, side_length, terrain, &default_y, rng);
        let ground_heights = terrain.as_xz_heightfield(1);
        let side = side_length as i128;
        let s_r = Rational { num: side, den: 1 };
        let zero = Rational { num: 0, den: 1 };
        let thickness = Rational { num: 1, den: 10 };
        let neg_thickness = Rational { num: -1, den: 10 };
        let wall_y = Rational { num: 100, den: 1 };
        let mut walls: Vec<WallSpec> = Vec::new();
        walls.push(WallSpec {
            half_extents: WorldVector { x: thickness, y: wall_y, z: s_r },
            translation: WorldVector { x: neg_thickness, y: zero, z: zero },
        });
        walls.push(WallSpec {
            half_extents: WorldVector { x: thickness, y: wall_y, z: s_r },
            translation: WorldVector { x: s_r, y: zero, z: zero },
        });
        walls.push(WallSpec {
            half_extents: WorldVector { x: s_r, y: wall_y, z: thickness },
            translation: WorldVector { x: zero, y: zero, z: neg_thickness },
        });
        walls.push(WallSpec {
            half_extents: WorldVector { x: s_r, y: wall_y, z: thickness },
            translation: WorldVector { x: zero, y: zero, z: s_r },
        });
        let plan = PhysicsPlan {
            ground_heights,
            ground_size: WorldVector {
                x: s_r,
                y: Rational { num: 4 * side, den: 100 },
                z: s_r,
            },
            ground_translation: WorldVector {
                x: Rational { num: side, den: 2 },
                y: zero,
                z: Rational { num: side, den: 2 },
            },
            walls,
            balls,
            ball_radius: radius,
            restitution: Rational { num: 8, den: 10 },
            ccd_enabled: true,
            gravity: WorldVector {
                x: zero,
                y: Rational { num: -981, den: 100 },
                z: zero,
            },
            timestep: Rational { num: 1, den: 60 },
        };
        Arena { dimension: Dimension { side_length }, plan }
    }
}

/// The force applied to every ball for a steering input `(x, z)`: the
/// input gives the horizontal components, and the upward component is the
/// mean of their magnitudes, lifting balls more the harder they are
/// pushed.
pub fn ball_force_vector(x: &Rational, z: &Rational) -> (f: WorldVector)
    requires
        crate::dimension::coord_in_range(x@),
        crate::dimension::coord_in_range(z@),
    ensures
        f.x == *x,
        f.z == *z,
        f.y@ == x@.abs_val().plus(z@.abs_val()).half(),
        f.y@.wf(),
{
    proof {
        let xn = x@.num;
        let xd = x@.den;
        let zn = z@.num;
        let zd = z@.den;
        let l = crate::dimension::COORD_LIMIT as int;
        assert((-(l * l) - l * l <= (if xn >= 0 {
            xn
        } else {
            -xn
        }) * zd + (if zn >= 0 {
            zn
        } else {
            -zn
        }) * xd <= l * l + l * l) && (0 < 2 * xd * zd <= 2 * (l * l)) && (2 * xd * zd == 2 * (xd
            * zd))) by (nonlinear_arith)
            requires
                -l <= xn <= l,
                0 < xd <= l,
                -l <= zn <= l,
                0 < zd <= l,
        ;
    }
    let xa = if x.num >= 0 {
        x.num
    } else {
        -x.num
    };
    let za = if z.num >= 0 {
        z.num
    } else {
        -z.num
    };
    let num = xa * z.den + za * x.den;
    let den = 2 * x.den * z.den;
    WorldVector { x: *x, y: Rational { num, den }, z: *z }
}

} // verus!
