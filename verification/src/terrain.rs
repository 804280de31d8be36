//! Terrain: an elevation grid decoded from a color image.
//!
//! Elevations are exact fixed-point numbers.  A decoded pixel `(r, g, b)`
//! denotes the elevation `-10000 + (r*65536 + g*256 + b) * 0.1` world units,
//! an integer number of tenths.  Halving a grid replaces each 2x2 block by
//! its arithmetic mean; to keep that mean exact, a grid stores block sums
//! and counts how many times it has been halved: after `halvings` rounds a
//! stored cell is worth `cell / 4^halvings` tenths.  Every derived view of
//! the grid (heightfield, grayscale image, placement weights) rescales by
//! `max - min`, so the shared denominator cancels and no precision is lost.

use vstd::prelude::*;

use crate::rational::Ratio;

verus! {

/// Least elevation a pixel can encode, in tenths of a world unit
/// (all three channels zero).
pub const ELEV_MIN_TENTHS: i128 = -100000;

/// Greatest elevation a pixel can encode, in tenths of a world unit
/// (all three channels 255).
pub const ELEV_MAX_TENTHS: i128 = 16677215;

/// `4^31`, the largest block-sum scale a grid can reach: a grid starts
/// with each side below `2^32` and each halving divides a side by two.
pub const POW_FOUR_31: i128 = 0x4000_0000_0000_0000;

/// Largest magnitude a stored cell can have: the elevation bound times the
/// largest reachable scale.
pub const CELL_LIMIT: i128 = 16677215 * 0x4000_0000_0000_0000;

/// `2^n`.
pub open spec fn pow_two(n: nat) -> int
    decreases n,
{
    if n == 0 {
        1
    } else {
        2 * pow_two((n - 1) as nat)
    }
}

/// `4^n`.
pub open spec fn pow_four(n: nat) -> int
    decreases n,
{
    if n == 0 {
        1
    } else {
        4 * pow_four((n - 1) as nat)
    }
}

pub proof fn lemma_pow_two_pos(n: nat)
    ensures
        pow_two(n) >= 1,
    decreases n,
{
    if n > 0 {
        lemma_pow_two_pos((n - 1) as nat);
    }
}

pub proof fn lemma_pow_four_pos(n: nat)
    ensures
        pow_four(n) >= 1,
    decreases n,
{
    if n > 0 {
        lemma_pow_four_pos((n - 1) as nat);
    }
}

pub proof fn lemma_pow_two_mono(a: nat, b: nat)
    requires
        a <= b,
    ensures
        pow_two(a) <= pow_two(b),
    decreases b,
{
    if a < b {
        lemma_pow_two_mono(a, (b - 1) as nat);
        lemma_pow_two_pos((b - 1) as nat);
    }
}

pub proof fn lemma_pow_four_mono(a: nat, b: nat)
    requires
        a <= b,
    ensures
        pow_four(a) <= pow_four(b),
    decreases b,
{
    if a < b {
        lemma_pow_four_mono(a, (b - 1) as nat);
        lemma_pow_four_pos((b - 1) as nat);
    }
}

/// Mathematical model of a terrain grid: row-major block sums, row 0 at the
/// image top, with the scale recorded as the number of halvings applied.
/// Cell `(row, col)` is worth `cells[row * width + col] / 4^halvings` tenths
/// of a world unit.
pub struct GridModel {
    pub cells: Seq<int>,
    pub width: int,
    pub height: int,
    pub halvings: nat,
}

/// Well-formedness of a grid model: both sides positive, the cell sequence
/// filling the rectangle, each side small enough that it started below
/// `2^32` pixels, and every cell within the elevation range at the grid's
/// scale.
pub open spec fn grid_wf(m: GridModel) -> bool {
    &&& m.width >= 1
    &&& m.height >= 1
    &&& m.cells.len() == m.width * m.height
    &&& m.width * pow_two(m.halvings) < 0x1_0000_0000
    &&& m.height * pow_two(m.halvings) < 0x1_0000_0000
    &&& forall|k: int|
        0 <= k < m.cells.len() ==> ELEV_MIN_TENTHS * pow_four(m.halvings) <= #[trigger] m.cells[k]
            <= ELEV_MAX_TENTHS * pow_four(m.halvings)
}

/// A well-formed grid has been halved at most 31 times.
pub proof fn lemma_halvings_bound(m: GridModel)
    requires
        grid_wf(m),
    ensures
        m.halvings <= 31,
{
    if m.halvings > 31 {
        lemma_pow_two_mono(32, m.halvings);
        assert(pow_two(32) == 0x1_0000_0000) by {
            reveal_with_fuel(pow_two, 33);
        }
        assert(m.width * pow_two(m.halvings) >= pow_two(m.halvings)) by (nonlinear_arith)
            requires
                m.width >= 1,
                pow_two(m.halvings) >= 0,
        ;
        lemma_pow_two_pos(m.halvings);
    }
}

/// Every cell of a well-formed grid fits well inside an `i128`.
pub proof fn lemma_cell_limit(m: GridModel)
    requires
        grid_wf(m),
    ensures
        forall|k: int| 0 <= k < m.cells.len() ==> -CELL_LIMIT <= #[trigger] m.cells[k] <= CELL_LIMIT,
{
    lemma_halvings_bound(m);
    lemma_pow_four_mono(m.halvings, 31);
    lemma_pow_four_pos(m.halvings);
    assert(pow_four(31) == POW_FOUR_31) by {
        reveal_with_fuel(pow_four, 32);
    }
    assert forall|k: int| 0 <= k < m.cells.len() implies -CELL_LIMIT <= #[trigger] m.cells[k]
        <= CELL_LIMIT by {
        assert(ELEV_MAX_TENTHS * pow_four(m.halvings) <= ELEV_MAX_TENTHS * POW_FOUR_31
            && ELEV_MIN_TENTHS * pow_four(m.halvings) >= -(ELEV_MAX_TENTHS as int) * POW_FOUR_31)
            by (nonlinear_arith)
            requires
                1 <= pow_four(m.halvings) <= POW_FOUR_31,
        ;
    }
}

/// The side length of a grid after one halving: floored, but never below 1.
pub open spec fn half_dim(n: int) -> int {
    if n >= 2 {
        n / 2
    } else {
        1
    }
}

/// The block sum behind cell `(i, j)` of the halved grid, scaled so that it
/// is always worth four source cells: a full 2x2 block where both sides
/// still reach, a doubled pair along a side of length one, and a quadrupled
/// single cell if the grid is already 1x1.
pub open spec fn block_total(m: GridModel, i: int, j: int) -> int {
    if m.width >= 2 && m.height >= 2 {
        m.cells[2 * i * m.width + 2 * j] + m.cells[2 * i * m.width + 2 * j + 1] + m.cells[(2 * i
            + 1) * m.width + 2 * j] + m.cells[(2 * i + 1) * m.width + 2 * j + 1]
    } else if m.width >= 2 {
        2 * (m.cells[2 * j] + m.cells[2 * j + 1])
    } else if m.height >= 2 {
        2 * (m.cells[2 * i] + m.cells[2 * i + 1])
    } else {
        4 * m.cells[0]
    }
}

/// The grid after one halving: each output cell is the exact arithmetic
/// mean of its source block, represented as the block sum at the next
/// scale.
pub open spec fn half_model(m: GridModel) -> GridModel {
    GridModel {
        cells: Seq::new(
            (half_dim(m.height) * half_dim(m.width)) as nat,
            |k: int| block_total(m, k / half_dim(m.width), k % half_dim(m.width)),
        ),
        width: half_dim(m.width),
        height: half_dim(m.height),
        halvings: m.halvings + 1,
    }
}

/// Halving preserves well-formedness (as long as there is something left to
/// halve).
pub proof fn lemma_half_preserves_wf(m: GridModel)
    requires
        grid_wf(m),
        m.width >= 2 || m.height >= 2,
    ensures
        grid_wf(half_model(m)),
{
    let h = half_model(m);
    let p = pow_two(m.halvings);
    lemma_pow_two_pos(m.halvings);
    assert(half_dim(m.height) * half_dim(m.width) == half_dim(m.width) * half_dim(m.height)
        && half_dim(m.height) * half_dim(m.width) >= 1) by (nonlinear_arith)
        requires
            half_dim(m.width) >= 1,
            half_dim(m.height) >= 1,
    ;
    assert(half_dim(m.width) * pow_two(m.halvings + 1) < 0x1_0000_0000) by (nonlinear_arith)
        requires
            p >= 1,
            pow_two(m.halvings + 1) == 2 * p,
            m.width >= 1,
            m.height >= 1,
            m.width * p < 0x1_0000_0000,
            m.height * p < 0x1_0000_0000,
            m.width >= 2 || m.height >= 2,
            half_dim(m.width) == if m.width >= 2 { m.width / 2 } else { 1 },
    ;
    assert(half_dim(m.height) * pow_two(m.halvings + 1) < 0x1_0000_0000) by (nonlinear_arith)
        requires
            p >= 1,
            pow_two(m.halvings + 1) == 2 * p,
            m.width >= 1,
            m.height >= 1,
            m.width * p < 0x1_0000_0000,
            m.height * p < 0x1_0000_0000,
            m.width >= 2 || m.height >= 2,
            half_dim(m.height) == if m.height >= 2 { m.height / 2 } else { 1 },
    ;
    let lo = ELEV_MIN_TENTHS * pow_four(m.halvings);
    let hi = ELEV_MAX_TENTHS * pow_four(m.halvings);
    assert(ELEV_MIN_TENTHS * pow_four(m.halvings + 1) == 4 * lo && ELEV_MAX_TENTHS * pow_four(
        m.halvings + 1,
    ) == 4 * hi) by (nonlinear_arith)
        requires
            pow_four(m.halvings + 1) == 4 * pow_four(m.halvings),
            lo == ELEV_MIN_TENTHS * pow_four(m.halvings),
            hi == ELEV_MAX_TENTHS * pow_four(m.halvings),
    ;
    assert forall|k: int| 0 <= k < h.cells.len() implies 4 * lo <= #[trigger] h.cells[k] <= 4 * hi by {
        let nw = half_dim(m.width);
        let nh = half_dim(m.height);
        let i = k / nw;
        let j = k % nw;
        assert(0 <= i < nh && 0 <= j < nw) by (nonlinear_arith)
            requires
                nw >= 1,
                nh >= 1,
                0 <= k < nh * nw,
                i == k / nw,
                j == k % nw,
        ;
        lemma_block_indices(m, i, j);
        assert(h.cells[k] == block_total(m, i, j));
    }
}

/// The source cells feeding block `(i, j)` lie inside the grid, and the
/// block total stays within four times the cell range.
proof fn lemma_block_indices(m: GridModel, i: int, j: int)
    requires
        grid_wf(m),
        m.width >= 2 || m.height >= 2,
        0 <= i < half_dim(m.height),
        0 <= j < half_dim(m.width),
    ensures
        4 * (ELEV_MIN_TENTHS * pow_four(m.halvings)) <= block_total(m, i, j) <= 4 * (
        ELEV_MAX_TENTHS * pow_four(m.halvings)),
{
    let w = m.width;
    let h = m.height;
    let lo = ELEV_MIN_TENTHS * pow_four(m.halvings);
    let hi = ELEV_MAX_TENTHS * pow_four(m.halvings);
    if w >= 2 && h >= 2 {
        assert(0 <= 2 * i * w + 2 * j && (2 * i + 1) * w + 2 * j + 1 < w * h) by (nonlinear_arith)
            requires
                w >= 2,
                h >= 2,
                0 <= i < h / 2,
                0 <= j < w / 2,
        ;
        assert(2 * i * w + 2 * j + 1 < w * h && (2 * i + 1) * w + 2 * j < w * h) by (nonlinear_arith)
            requires
                w >= 2,
                h >= 2,
                0 <= i < h / 2,
                0 <= j < w / 2,
        ;
    } else if w >= 2 {
        assert(0 <= 2 * j && 2 * j + 1 < w * h) by (nonlinear_arith)
            requires
                w >= 2,
                h == 1,
                0 <= j < w / 2,
        ;
    } else if h >= 2 {
        assert(0 <= 2 * i && 2 * i + 1 < w * h) by (nonlinear_arith)
            requires
                w == 1,
                h >= 2,
                0 <= i < h / 2,
        ;
    }
}

/// The 24-bit color code of a pixel: red is the high byte, blue the low.
pub open spec fn color_code(r: u8, g: u8, b: u8) -> int {
    r * 65536 + g * 256 + b
}

/// The elevation a 24-bit color code denotes, in tenths of a world unit:
/// the code shifted so that zero maps to -10000 world units, in 0.1-unit
/// steps.
pub open spec fn elevation_tenths(code: int) -> int {
    code - 100000
}

/// Decoded elevation is monotonically increasing in the 24-bit color code.
pub proof fn lemma_elevation_monotone(code1: int, code2: int)
    requires
        code1 <= code2,
    ensures
        elevation_tenths(code1) <= elevation_tenths(code2),
{
}

/// Decodes one RGBA pixel's color channels into its elevation, in tenths
/// of a world unit (the alpha channel carries no elevation).
pub fn to_elevation(r: u8, g: u8, b: u8) -> (e: i64)
    ensures
        e == elevation_tenths(color_code(r, g, b)),
        ELEV_MIN_TENTHS <= e <= ELEV_MAX_TENTHS,
{
    (r as i64) * 65536 + (g as i64) * 256 + (b as i64) - 100000
}

/// The color code of the pixel at `(row, col)` of a row-major RGBA8 byte
/// buffer.
pub open spec fn pixel_code(pixels: Seq<u8>, width: int, row: int, col: int) -> int {
    color_code(
        pixels[4 * (row * width + col)],
        pixels[4 * (row * width + col) + 1],
        pixels[4 * (row * width + col) + 2],
    )
}

/// The elevation grid a decoded RGBA8 pixel buffer denotes: one cell per
/// pixel, row-major, at scale zero.
pub open spec fn decoded_grid(width: int, height: int, pixels: Seq<u8>) -> GridModel {
    GridModel {
        cells: Seq::new(
            (width * height) as nat,
            |k: int| elevation_tenths(pixel_code(pixels, width, k / width, k % width)),
        ),
        width,
        height,
        halvings: 0,
    }
}

/// What decoding a PNG byte stream yields: `None` for malformed bytes,
/// otherwise the width, the height, and the row-major RGBA8 pixel buffer.
/// Decoding is a pure function of the bytes, so the result only gets a
/// name; the decoder itself stays outside the verified code.
pub uninterp spec fn png_rgba_of(data: Seq<u8>) -> Option<(int, int, Seq<u8>)>;

/// Relies on image::load_from_memory_with_format with the PNG format and
/// DynamicImage::to_rgba8: decoding is a pure function of the input bytes,
/// and a decoded image holds exactly width * height RGBA pixels of four
/// bytes each.
#[verifier::external_body]
fn decode_png_rgba(data: &Vec<u8>) -> (r: Option<(u32, u32, Vec<u8>)>)
    ensures
        r is Some <==> png_rgba_of(data@) is Some,
        r matches Some(im) ==> {
            &&& png_rgba_of(data@) == Some((im.0 as int, im.1 as int, im.2@))
            &&& im.2@.len() == 4 * im.0 * im.1
        },
{
    match image::load_from_memory_with_format(data, image::ImageFormat::Png) {
        Ok(img) => {
            let rgba = img.to_rgba8();
            Some((rgba.width(), rgba.height(), rgba.into_raw()))
        },
        Err(_) => None,
    }
}

/// Why building a terrain failed.
#[derive(Clone, Copy, Debug, PartialEq, Eq, Structural)]
pub enum TerrainError {
    /// The byte stream is not a valid image of the expected format, or it
    /// decodes to an image with no pixels.
    InvalidImage,
}

/// Splitting a row-major index back into its coordinates.
proof fn lemma_row_major_index(width: int, i: int, j: int)
    requires
        width >= 1,
        0 <= j < width,
        0 <= i,
    ensures
        (i * width + j) / width == i,
        (i * width + j) % width == j,
{
    vstd::arithmetic::div_mod::lemma_fundamental_div_mod_converse(i * width + j, width, i, j);
}

/// The halving law: on a grid with both sides even, cell `(i, j)` of the
/// halved grid denotes exactly the arithmetic mean of the 2x2 source block
/// whose top-left corner is `(2i, 2j)` — as rational elevations, with the
/// scales written out.
pub proof fn lemma_half_is_block_mean(m: GridModel, i: int, j: int)
    requires
        grid_wf(m),
        m.width % 2 == 0,
        m.height % 2 == 0,
        m.width >= 2,
        m.height >= 2,
        0 <= i < m.height / 2,
        0 <= j < m.width / 2,
    ensures
        (Ratio {
            num: half_model(m).cells[i * (m.width / 2) + j],
            den: pow_four(m.halvings + 1),
        }).equiv(
            Ratio {
                num: m.cells[2 * i * m.width + 2 * j] + m.cells[2 * i * m.width + 2 * j + 1]
                    + m.cells[(2 * i + 1) * m.width + 2 * j] + m.cells[(2 * i + 1) * m.width + 2 * j
                    + 1],
                den: 4 * pow_four(m.halvings),
            },
        ),
{
    lemma_row_major_index(m.width / 2, i, j);
    assert(half_model(m).cells[i * (m.width / 2) + j] == block_total(m, i, j)) by {
        assert(0 <= i * (m.width / 2) + j < half_dim(m.height) * half_dim(m.width))
            by (nonlinear_arith)
            requires
                0 <= i < m.height / 2,
                0 <= j < m.width / 2,
                half_dim(m.width) == m.width / 2,
                half_dim(m.height) == m.height / 2,
                m.width >= 2,
                m.height >= 2,
        ;
    }
}

/// The grid shrunk until both sides fit `max_dimension`: halve while either
/// side is too large.
pub open spec fn shrink_model(m: GridModel, max_dimension: int) -> GridModel
    decreases m.width + m.height,
    when max_dimension >= 1 && m.width >= 1 && m.height >= 1
{
    if m.width <= max_dimension && m.height <= max_dimension {
        m
    } else {
        shrink_model(half_model(m), max_dimension)
    }
}

/// Shrinking preserves well-formedness and lands within the bound.
pub proof fn lemma_shrink_wf(m: GridModel, max_dimension: int)
    requires
        grid_wf(m),
        max_dimension >= 1,
    ensures
        grid_wf(shrink_model(m, max_dimension)),
        shrink_model(m, max_dimension).width <= max_dimension,
        shrink_model(m, max_dimension).height <= max_dimension,
    decreases m.width + m.height,
{
    if m.width <= max_dimension && m.height <= max_dimension {
    } else {
        lemma_half_preserves_wf(m);
        lemma_shrink_wf(half_model(m), max_dimension);
    }
}

/// The least element of a nonempty sequence.
pub open spec fn seq_min(s: Seq<int>) -> int
    decreases s.len(),
{
    if s.len() <= 1 {
        s[0]
    } else {
        let m = seq_min(s.drop_last());
        if s.last() <= m {
            s.last()
        } else {
            m
        }
    }
}

/// The greatest element of a nonempty sequence.
pub open spec fn seq_max(s: Seq<int>) -> int
    decreases s.len(),
{
    if s.len() <= 1 {
        s[0]
    } else {
        let m = seq_max(s.drop_last());
        if s.last() >= m {
            s.last()
        } else {
            m
        }
    }
}

/// The least element is a lower bound.
pub proof fn lemma_seq_min_le(s: Seq<int>, i: int)
    requires
        0 <= i < s.len(),
    ensures
        seq_min(s) <= s[i],
    decreases s.len(),
{
    if s.len() > 1 && i < s.len() - 1 {
        lemma_seq_min_le(s.drop_last(), i);
    }
}

/// The greatest element is an upper bound.
pub proof fn lemma_seq_max_ge(s: Seq<int>, i: int)
    requires
        0 <= i < s.len(),
    ensures
        seq_max(s) >= s[i],
    decreases s.len(),
{
    if s.len() > 1 && i < s.len() - 1 {
        lemma_seq_max_ge(s.drop_last(), i);
    }
}

/// If every element lies in `[lo, hi]`, so does the least.
pub proof fn lemma_seq_min_in_range(s: Seq<int>, lo: int, hi: int)
    requires
        s.len() >= 1,
        forall|k: int| 0 <= k < s.len() ==> lo <= #[trigger] s[k] <= hi,
    ensures
        lo <= seq_min(s) <= hi,
    decreases s.len(),
{
    if s.len() > 1 {
        lemma_seq_min_in_range(s.drop_last(), lo, hi);
    }
}

/// If every element lies in `[lo, hi]`, so does the greatest.
pub proof fn lemma_seq_max_in_range(s: Seq<int>, lo: int, hi: int)
    requires
        s.len() >= 1,
        forall|k: int| 0 <= k < s.len() ==> lo <= #[trigger] s[k] <= hi,
    ensures
        lo <= seq_max(s) <= hi,
    decreases s.len(),
{
    if s.len() > 1 {
        lemma_seq_max_in_range(s.drop_last(), lo, hi);
    }
}

/// A heightfield: the terrain rescaled into `[0, max_value]` for the
/// physics engine's ground collider, with the rows flipped so that world
/// row `z = 0` holds what was the bottom row (`height - 1`) of the image.
/// Cell `(z, col)` is worth `nums[z * width + col] / den` world units; the
/// shared denominator is the observed elevation range, so the rescale is
/// exact.
pub struct Heightfield {
    pub nums: Vec<i128>,
    pub den: i128,
    pub max_value: u32,
    pub width: usize,
    pub height: usize,
}

impl Heightfield {
    /// Well-formedness: a positive denominator, the cell buffer filling the
    /// rectangle, and every cell's value within `[0, max_value]`.
    pub open spec fn wf(self) -> bool {
        &&& self.den >= 1
        &&& self.nums@.len() == self.width * self.height
        &&& forall|k: int|
            0 <= k < self.nums@.len() ==> 0 <= #[trigger] self.nums@[k] <= self.max_value * self.den
    }

    /// The rational value of cell `(z, col)`, in world units.
    pub open spec fn value_at(self, z: int, col: int) -> Ratio {
        Ratio {
            num: self.nums@[z * self.width + col] as int,
            den: self.den as int,
        }
    }
}

/// Every cell of a well-formed heightfield denotes a value between 0 and
/// `max_value`, read as exact rationals.
pub proof fn lemma_heightfield_value_range(hf: Heightfield)
    requires
        hf.wf(),
    ensures
        forall|z: int, col: int|
            0 <= z < hf.height && 0 <= col < hf.width ==> (Ratio { num: 0, den: 1 }).lte(
                #[trigger] hf.value_at(z, col),
            ) && hf.value_at(z, col).lte(Ratio::from_int(hf.max_value as int)),
{
    assert forall|z: int, col: int| 0 <= z < hf.height && 0 <= col < hf.width implies (Ratio {
        num: 0,
        den: 1,
    }).lte(#[trigger] hf.value_at(z, col)) && hf.value_at(z, col).lte(
        Ratio::from_int(hf.max_value as int),
    ) by {
        assert(0 <= z * hf.width + col < hf.nums@.len()) by (nonlinear_arith)
            requires
                0 <= z < hf.height,
                0 <= col < hf.width,
                hf.width >= 1,
                hf.nums@.len() == hf.width * hf.height,
        ;
    }
}

/// How a heightfield relates to the grid it came from: flipped rows, each
/// cell the source elevation shifted by the observed minimum and scaled by
/// `max_value` over the shared denominator `max - min`; a flat grid (every
/// cell equal) becomes the all-zero field over denominator one.
pub open spec fn heightfield_models(hf: Heightfield, m: GridModel, max_value: int) -> bool {
    let mn = seq_min(m.cells);
    let mx = seq_max(m.cells);
    &&& hf.width == m.width
    &&& hf.height == m.height
    &&& hf.max_value == max_value
    &&& if mx > mn {
        &&& hf.den == mx - mn
        &&& forall|z: int, col: int|
            0 <= z < m.height && 0 <= col < m.width ==> #[trigger] hf.nums@[z * m.width + col] == (
            m.cells[(m.height - 1 - z) * m.width + col] - mn) * max_value
    } else {
        &&& hf.den == 1
        &&& forall|k: int| 0 <= k < hf.nums@.len() ==> #[trigger] hf.nums@[k] == 0
    }
}

/// The 16-bit grayscale sample for cell `k` of a grid: the cell's
/// elevation mapped linearly from the observed range onto the full luma
/// range `[0, 65535]`, rounded down; a flat grid yields all zeros.
pub open spec fn luma_at(m: GridModel, k: int) -> int {
    let mn = seq_min(m.cells);
    let mx = seq_max(m.cells);
    if mx > mn {
        (m.cells[k] - mn) * 65535 / (mx - mn)
    } else {
        0
    }
}

/// The row-major 16-bit grayscale rendering of a grid.
pub open spec fn grayscale_seq(m: GridModel) -> Seq<u16> {
    Seq::new((m.width * m.height) as nat, |k: int| luma_at(m, k) as u16)
}

/// What encoding a 16-bit grayscale image as PNG yields.  Encoding is a
/// pure function of the dimensions and samples, so the result only gets a
/// name; the encoder itself stays outside the verified code.
pub uninterp spec fn luma16_png_of(width: int, height: int, lumas: Seq<u16>) -> Seq<u8>;

/// Relies on image::ImageBuffer::from_raw and
/// image::write_buffer_with_format with the PNG format: encoding a 16-bit
/// luma buffer is a pure function of the dimensions and the samples.
#[verifier::external_body]
fn encode_luma16_png(width: u32, height: u32, lumas: &Vec<u16>) -> (r: Vec<u8>)
    requires
        width >= 1,
        height >= 1,
        lumas@.len() == width * height,
    ensures
        r@ == luma16_png_of(width as int, height as int, lumas@),
{
    let buffer: Option<image::ImageBuffer<image::Luma<u16>, Vec<u16>>> =
        image::ImageBuffer::from_raw(width, height, lumas.clone());
    let mut cursor = std::io::Cursor::new(Vec::new());
    let ok = match buffer {
        Some(b) => {
            let img = image::DynamicImage::ImageLuma16(b);
            let color = img.color();
            image::write_buffer_with_format(&mut cursor, img.as_bytes(), width, height, color, image::ImageFormat::Png).is_ok()
        },
        None => false,
    };
    if ok { cursor.into_inner() } else { Vec::new() }
}

/// A terrain elevation grid.  `cells` stores row-major block sums (row 0 is
/// the image top); a cell is worth `cells[row * width + col] / 4^halvings`
/// tenths of a world unit, where `halvings` counts how many times the grid
/// has been halved since it was decoded.
pub struct Terrain {
    pub cells: Vec<i128>,
    pub width: usize,
    pub height: usize,
    pub halvings: u32,
}

impl View for Terrain {
    type V = GridModel;

    open spec fn view(&self) -> GridModel {
        GridModel {
            cells: self.cells@.map_values(|c: i128| c as int),
            width: self.width as int,
            height: self.height as int,
            halvings: self.halvings as nat,
        }
    }
}

impl Terrain {
    /// Well-formedness of the grid behind this terrain.
    pub open spec fn wf(self) -> bool {
        grid_wf(self@)
    }

    /// The stored block sum at `(row, col)`, worth that value over
    /// `4^halvings` tenths of a world unit.
    pub fn cell_scaled_tenths(&self, row: usize, col: usize) -> (c: i128)
        requires
            self.wf(),
            row < self@.height,
            col < self@.width,
        ensures
            c == self@.cells[row * self@.width + col],
    {
        let n = self.cells.len();
        proof {
            assert(self@.cells.len() == n);
            assert(0 <= row * self@.width + col < self@.cells.len()) by (nonlinear_arith)
                requires
                    0 <= (row as int) < self@.height,
                    0 <= (col as int) < self@.width,
                    self@.cells.len() == self@.width * self@.height,
                    self@.width >= 1,
            ;
        }
        self.cells[row * self.width + col]
    }

    /// Number of grid rows.
    pub fn rows(&self) -> (r: usize)
        ensures
            r == self@.height,
    {
        self.height
    }

    /// Number of grid columns.
    pub fn columns(&self) -> (c: usize)
        ensures
            c == self@.width,
    {
        self.width
    }

    /// Builds a terrain directly from elevations given in tenths of a world
    /// unit, row-major with row 0 at the top.
    pub fn from_elevations(elevations: &Vec<i64>, width: usize, height: usize) -> (t: Terrain)
        requires
            width >= 1,
            height >= 1,
            width < 0x1_0000_0000,
            height < 0x1_0000_0000,
            elevations@.len() == width * height,
            forall|k: int|
                0 <= k < elevations@.len() ==> ELEV_MIN_TENTHS <= #[trigger] elevations@[k]
                    <= ELEV_MAX_TENTHS,
        ensures
            t.wf(),
            t@.width == width,
            t@.height == height,
            t@.halvings == 0,
            forall|k: int| 0 <= k < elevations@.len() ==> t@.cells[k] == elevations@[k],
    {
        let mut cells: Vec<i128> = Vec::new();
        let n = elevations.len();
        let mut k: usize = 0;
        while k < n
            invariant
                k <= n,
                n == elevations@.len(),
                cells@.len() == k,
                forall|q: int|
                    0 <= q < k ==> cells@[q] == #[trigger] elevations@[q] as i128,
                forall|q: int|
                    0 <= q < elevations@.len() ==> ELEV_MIN_TENTHS <= #[trigger] elevations@[q]
                        <= ELEV_MAX_TENTHS,
            decreases n - k,
        {
            cells.push(elevations[k] as i128);
            k += 1;
        }
        let t = Terrain { cells, width, height, halvings: 0 };
        proof {
            assert(pow_four(0) == 1);
            assert forall|q: int| 0 <= q < t@.cells.len() implies ELEV_MIN_TENTHS * pow_four(0)
                <= #[trigger] t@.cells[q] <= ELEV_MAX_TENTHS * pow_four(0) by {
                assert(t@.cells[q] == cells@[q] as int);
                assert(cells@[q] == elevations@[q] as i128);
            }
        }
        t
    }

    /// Decodes a PNG byte stream into a terrain grid of the image's
    /// dimensions, one elevation cell per pixel, row 0 at the image top.
    /// Fails exactly when the bytes are not a valid PNG or the image has no
    /// pixels.
    pub fn from_png_terrain_image(data: Vec<u8>) -> (r: Result<Terrain, TerrainError>)
        ensures
            r is Ok <==> (png_rgba_of(data@) matches Some(im) && im.0 >= 1 && im.1 >= 1),
            r matches Ok(t) ==> (png_rgba_of(data@) matches Some(im) && {
                &&& t.wf()
                &&& t@ == decoded_grid(im.0, im.1, im.2)
                &&& t@.width == im.0
                &&& t@.height == im.1
                &&& t@.halvings == 0
                &&& forall|row: int, col: int|
                    0 <= row < im.1 && 0 <= col < im.0 ==> t@.cells[row * im.0 + col]
                        == elevation_tenths(#[trigger] pixel_code(im.2, im.0, row, col))
            }),
    {
        let decoded = decode_png_rgba(&data);
        match decoded {
            None => Err(TerrainError::InvalidImage),
            Some((w, h, px)) => {
                if w == 0 || h == 0 {
                    return Err(TerrainError::InvalidImage);
                }
                let width = w as usize;
                let height = h as usize;
                let n = px.len();
                let mut cells: Vec<i128> = Vec::new();
                let mut row: usize = 0;
                while row < height
                    invariant
                        width >= 1,
                        height >= 1,
                        width < 0x1_0000_0000,
                        height < 0x1_0000_0000,
                        n == px@.len(),
                        n == 4 * width * height,
                        row <= height,
                        cells@.len() == row * width,
                        forall|q: int|
                            0 <= q < cells@.len() ==> #[trigger] cells@[q] == elevation_tenths(
                                pixel_code(px@, width as int, q / width as int, q % width as int),
                            ) && ELEV_MIN_TENTHS <= cells@[q] <= ELEV_MAX_TENTHS,
                    decreases height - row,
                {
                    let mut col: usize = 0;
                    while col < width
                        invariant
                            width >= 1,
                            height >= 1,
                            width < 0x1_0000_0000,
                            height < 0x1_0000_0000,
                            n == px@.len(),
                            n == 4 * width * height,
                            row < height,
                            col <= width,
                            cells@.len() == row * width + col,
                            forall|q: int|
                                0 <= q < cells@.len() ==> #[trigger] cells@[q] == elevation_tenths(
                                    pixel_code(
                                        px@,
                                        width as int,
                                        q / width as int,
                                        q % width as int,
                                    ),
                                ) && ELEV_MIN_TENTHS <= cells@[q] <= ELEV_MAX_TENTHS,
                        decreases width - col,
                    {
                        proof {
                            assert(0 <= row * width + col && 4 * (row * width + col) + 2 < 4
                                * width * height) by (nonlinear_arith)
                                requires
                                    0 <= (row as int) < height,
                                    0 <= (col as int) < width,
                                    width >= 1,
                            ;
                            lemma_row_major_index(width as int, row as int, col as int);
                        }
                        let base = 4 * (row * width + col);
                        let e: i128 = (px[base] as i128) * 65536 + (px[base + 1] as i128) * 256 + (
                        px[base + 2] as i128) - 100000;
                        cells.push(e);
                        col += 1;
                    }
                    row += 1;
                    proof {
                        assert(cells@.len() == row * width) by (nonlinear_arith)
                            requires
                                cells@.len() == (row - 1) * width + width,
                        ;
                    }
                }
                let t = Terrain { cells, width, height, halvings: 0 };
                proof {
                    assert(pow_four(0) == 1);
                    assert(t@.cells.len() == width * height) by (nonlinear_arith)
                        requires
                            t@.cells.len() == height * width,
                    ;
                    assert forall|q: int| 0 <= q < t@.cells.len() implies ELEV_MIN_TENTHS
                        * pow_four(0) <= #[trigger] t@.cells[q] <= ELEV_MAX_TENTHS * pow_four(0) by {
                        assert(t@.cells[q] == t.cells@[q] as int);
                    }
                    assert forall|r2: int, c2: int|
                        0 <= r2 < height && 0 <= c2 < width implies t@.cells[r2 * width + c2]
                        == elevation_tenths(#[trigger] pixel_code(px@, width as int, r2, c2)) by {
                        lemma_row_major_index(width as int, r2, c2);
                        assert(0 <= r2 * width + c2 < t.cells@.len()) by (nonlinear_arith)
                            requires
                                0 <= r2 < height,
                                0 <= c2 < width,
                                width >= 1,
                                t.cells@.len() == height * width,
                        ;
                        assert(t@.cells[r2 * width + c2] == t.cells@[r2 * width + c2] as int);
                    }
                    assert(t@.cells =~= decoded_grid(width as int, height as int, px@).cells);
                }
                Ok(t)
            },
        }
    }

    /// An identical copy of this terrain.
    fn duplicate(&self) -> (t: Terrain)
        requires
            self.wf(),
        ensures
            t@ == self@,
            t.wf(),
            t.width == self.width,
            t.height == self.height,
            t.halvings == self.halvings,
    {
        let mut cells: Vec<i128> = Vec::new();
        let n = self.cells.len();
        let mut k: usize = 0;
        while k < n
            invariant
                k <= n,
                n == self.cells@.len(),
                cells@.len() == k,
                forall|q: int| 0 <= q < k ==> cells@[q] == #[trigger] self.cells@[q],
            decreases n - k,
        {
            cells.push(self.cells[k]);
            k += 1;
        }
        let t = Terrain { cells, width: self.width, height: self.height, halvings: self.halvings };
        proof {
            assert(t@.cells =~= self@.cells);
        }
        t
    }

    /// The grid halved: each cell of the result is the exact arithmetic
    /// mean of the corresponding 2x2 block of this grid (a trailing odd row
    /// or column is dropped; a side of length one is kept).
    pub fn halfed(&self) -> (t: Terrain)
        requires
            self.wf(),
            self.width >= 2 || self.height >= 2,
        ensures
            t.wf(),
            t@ == half_model(self@),
    {
        proof {
            lemma_half_preserves_wf(self@);
            lemma_halvings_bound(self@);
            lemma_cell_limit(self@);
        }
        let new_w = if self.width >= 2 {
            self.width / 2
        } else {
            1
        };
        let new_h = if self.height >= 2 {
            self.height / 2
        } else {
            1
        };
        let ghost target = half_model(self@);
        let mut cells: Vec<i128> = Vec::new();
        let mut i: usize = 0;
        while i < new_h
            invariant
                self.wf(),
                self.width >= 2 || self.height >= 2,
                new_w == half_dim(self@.width),
                new_h == half_dim(self@.height),
                target == half_model(self@),
                forall|q: int| 0 <= q < self@.cells.len() ==> -CELL_LIMIT <= #[trigger] self@.cells[q] <= CELL_LIMIT,
                i <= new_h,
                cells@.len() == i * new_w,
                forall|q: int| 0 <= q < cells@.len() ==> cells@[q] == #[trigger] target.cells[q],
            decreases new_h - i,
        {
            let mut j: usize = 0;
            while j < new_w
                invariant
                    self.wf(),
                    self.width >= 2 || self.height >= 2,
                    new_w == half_dim(self@.width),
                    new_h == half_dim(self@.height),
                    target == half_model(self@),
                    forall|q: int| 0 <= q < self@.cells.len() ==> -CELL_LIMIT <= #[trigger] self@.cells[q] <= CELL_LIMIT,
                    i < new_h,
                    j <= new_w,
                    cells@.len() == i * new_w + j,
                    forall|q: int| 0 <= q < cells@.len() ==> cells@[q] == #[trigger] target.cells[q],
                decreases new_w - j,
            {
                let w = self.width;
                let n = self.cells.len();
                proof {
                    assert(self@.cells.len() == n);
                    assert forall|q: int| 0 <= q < n implies -CELL_LIMIT <= #[trigger] self.cells@[q]
                        <= CELL_LIMIT by {
                        assert(self@.cells[q] == self.cells@[q] as int);
                    }
                    assert((i as int * new_w as int + j as int) / (new_w as int) == i as int && (i
                        as int * new_w as int + j as int) % (new_w as int) == j as int) by {
                        lemma_row_major_index(new_w as int, i as int, j as int);
                    }
                    assert(0 <= (i * new_w + j) && i * new_w + j < new_h * new_w)
                        by (nonlinear_arith)
                        requires
                            0 <= (i as int) < new_h,
                            0 <= (j as int) < new_w,
                            new_w >= 1,
                    ;
                    if self.width >= 2 && self.height >= 2 {
                        assert((2 * i + 1) * w + 2 * j + 1 < w * self.height && 2 * i * w + 2 * j
                            >= 0 && 2 * i * w + 2 * j + 1 < w * self.height && (2 * i + 1) * w + 2
                            * j < w * self.height && 2 * i + 1 < self.height && 2 * j + 1 < w)
                            by (nonlinear_arith)
                            requires
                                w == self@.width,
                                w >= 2,
                                self@.height >= 2,
                                0 <= (i as int) < self@.height / 2,
                                0 <= (j as int) < self@.width / 2,
                                new_w == self@.width / 2,
                                new_h == self@.height / 2,
                        ;
                    } else if self.width >= 2 {
                        assert(2 * j + 1 < w * self.height) by (nonlinear_arith)
                            requires
                                w == self@.width,
                                w >= 2,
                                self@.height == 1,
                                0 <= (j as int) < self@.width / 2,
                                new_w == self@.width / 2,
                        ;
                    } else {
                        assert(2 * i + 1 < w * self.height) by (nonlinear_arith)
                            requires
                                w == self@.width,
                                w == 1,
                                self@.height >= 2,
                                0 <= (i as int) < self@.height / 2,
                                new_h == self@.height / 2,
                        ;
                    }
                }
                let total: i128 = if self.width >= 2 && self.height >= 2 {
                    self.cells[2 * i * w + 2 * j] + self.cells[2 * i * w + 2 * j + 1]
                        + self.cells[(2 * i + 1) * w + 2 * j] + self.cells[(2 * i + 1) * w + 2 * j
                        + 1]
                } else if self.width >= 2 {
                    2 * (self.cells[2 * j] + self.cells[2 * j + 1])
                } else {
                    2 * (self.cells[2 * i] + self.cells[2 * i + 1])
                };
                proof {
                    assert(total == block_total(self@, i as int, j as int));
                    assert(target.cells[i * new_w + j] == block_total(self@, i as int, j as int));
                }
                cells.push(total);
                j += 1;
            }
            i += 1;
            proof {
                assert(cells@.len() == i * new_w) by (nonlinear_arith)
                    requires
                        cells@.len() == (i - 1) * new_w + new_w,
                ;
            }
        }
        let t = Terrain {
            cells,
            width: new_w,
            height: new_h,
            halvings: self.halvings + 1,
        };
        proof {
            assert(cells@.len() == new_h * new_w) by (nonlinear_arith)
                requires
                    cells@.len() == new_h * new_w,
            ;
            assert(t@.cells =~= target.cells);
        }
        t
    }

    /// The least and greatest stored cell of this grid.
    fn min_max_cells(&self) -> (r: (i128, i128))
        requires
            self.wf(),
        ensures
            r.0 as int == seq_min(self@.cells),
            r.1 as int == seq_max(self@.cells),
    {
        let n = self.cells.len();
        proof {
            assert(self@.cells.len() == n);
            assert(n >= 1) by (nonlinear_arith)
                requires
                    self@.cells.len() == self@.width * self@.height,
                    self@.width >= 1,
                    self@.height >= 1,
                    n == self@.cells.len(),
            ;
        }
        let mut mn = self.cells[0];
        let mut mx = self.cells[0];
        let mut k: usize = 1;
        proof {
            assert(self@.cells.take(1) =~= seq![self@.cells[0]]);
            assert(self@.cells[0] == self.cells@[0] as int);
        }
        while k < n
            invariant
                1 <= k <= n,
                n == self.cells@.len(),
                n == self@.cells.len(),
                mn as int == seq_min(self@.cells.take(k as int)),
                mx as int == seq_max(self@.cells.take(k as int)),
            decreases n - k,
        {
            let c = self.cells[k];
            proof {
                let prefix = self@.cells.take(k as int + 1);
                assert(prefix.drop_last() =~= self@.cells.take(k as int));
                assert(prefix.last() == self@.cells[k as int]);
                assert(self@.cells[k as int] == self.cells@[k as int] as int);
            }
            if c < mn {
                mn = c;
            }
            if c > mx {
                mx = c;
            }
            k += 1;
        }
        proof {
            assert(self@.cells.take(n as int) =~= self@.cells);
        }
        (mn, mx)
    }

    /// The terrain rescaled for the physics engine's heightfield collider:
    /// elevations are mapped linearly from their observed range onto
    /// `[0, max_value]`, and the rows are flipped so that world row `z = 0`
    /// holds the bottom image row, because image row 0 is the top while
    /// world z grows away from it.  A flat grid (zero elevation range)
    /// yields the all-zero field rather than a division by zero.
    pub fn as_xz_heightfield(&self, max_value: u32) -> (hf: Heightfield)
        requires
            self.wf(),
        ensures
            hf.wf(),
            heightfield_models(hf, self@, max_value as int),
            forall|z: int, col: int|
                0 <= z < self@.height && 0 <= col < self@.width ==> (Ratio { num: 0, den: 1 }).lte(
                    #[trigger] hf.value_at(z, col),
                ) && hf.value_at(z, col).lte(Ratio::from_int(max_value as int)),
    {
        proof {
            lemma_cell_limit(self@);
        }
        let pair = self.min_max_cells();
        let mn = pair.0;
        let mx = pair.1;
        let w = self.width;
        let h = self.height;
        let n = self.cells.len();
        proof {
            assert(self@.cells.len() == n);
            assert(n >= 1) by (nonlinear_arith)
                requires
                    self@.cells.len() == self@.width * self@.height,
                    self@.width >= 1,
                    self@.height >= 1,
                    n == self@.cells.len(),
            ;
            lemma_seq_min_in_range(self@.cells, -CELL_LIMIT as int, CELL_LIMIT as int);
            lemma_seq_max_in_range(self@.cells, -CELL_LIMIT as int, CELL_LIMIT as int);
        }
        let mut nums: Vec<i128> = Vec::new();
        if mx > mn {
            let den = mx - mn;
            let mut z: usize = 0;
            while z < h
                invariant
                    self.wf(),
                    w == self@.width,
                    h == self@.height,
                    n == self.cells@.len(),
                    n == self@.cells.len(),
                    forall|q: int| 0 <= q < n ==> -CELL_LIMIT <= #[trigger] self@.cells[q] <= CELL_LIMIT,
                    mn as int == seq_min(self@.cells),
                    mx as int == seq_max(self@.cells),
                    -CELL_LIMIT <= mn as int <= CELL_LIMIT,
                    -CELL_LIMIT <= mx as int <= CELL_LIMIT,
                    mx > mn,
                    den == mx - mn,
                    z <= h,
                    nums@.len() == z * w,
                    forall|q: int|
                        0 <= q < nums@.len() ==> #[trigger] nums@[q] == (self@.cells[(h - 1 - q / (
                        w as int)) * w + q % (w as int)] - mn) * max_value && 0 <= nums@[q] <= (
                        max_value as int) * (den as int),
                decreases h - z,
            {
                let mut col: usize = 0;
                while col < w
                    invariant
                        self.wf(),
                        w == self@.width,
                        h == self@.height,
                        n == self.cells@.len(),
                        n == self@.cells.len(),
                        forall|q: int| 0 <= q < n ==> -CELL_LIMIT <= #[trigger] self@.cells[q] <= CELL_LIMIT,
                        mn as int == seq_min(self@.cells),
                        mx as int == seq_max(self@.cells),
                        -CELL_LIMIT <= mn as int <= CELL_LIMIT,
                        -CELL_LIMIT <= mx as int <= CELL_LIMIT,
                        mx > mn,
                        den == mx - mn,
                        z < h,
                        col <= w,
                        nums@.len() == z * w + col,
                        forall|q: int|
                            0 <= q < nums@.len() ==> #[trigger] nums@[q] == (self@.cells[(h - 1
                            - q / (w as int)) * w + q % (w as int)] - mn) * max_value && 0
                            <= nums@[q] <= (max_value as int) * (den as int),
                    decreases w - col,
                {
                    proof {
                        assert(0 <= (h - 1 - z) * w + col < n && 0 <= z * w + col < h * w)
                            by (nonlinear_arith)
                            requires
                                0 <= (z as int) < h,
                                0 <= (col as int) < w,
                                w >= 1,
                                n == (w as int) * (h as int),
                        ;
                        lemma_row_major_index(w as int, z as int, col as int);
                    }
                    let src = (h - 1 - z) * w + col;
                    let c = self.cells[src];
                    proof {
                        assert(self@.cells[src as int] == self.cells@[src as int] as int);
                        lemma_seq_min_le(self@.cells, src as int);
                        lemma_seq_max_ge(self@.cells, src as int);
                        assert(0 <= (c - mn) * (max_value as i128) && (c - mn) * (max_value as i128)
                            <= (max_value as int) * (den as int) && (c - mn) * (max_value as i128)
                            <= 2 * CELL_LIMIT * 0x1_0000_0000) by (nonlinear_arith)
                            requires
                                mn <= c <= mx,
                                den == mx - mn,
                                -CELL_LIMIT <= mn <= CELL_LIMIT,
                                -CELL_LIMIT <= mx <= CELL_LIMIT,
                                0 <= (max_value as int) < 0x1_0000_0000,
                        ;
                    }
                    let num = (c - mn) * (max_value as i128);
                    nums.push(num);
                    col += 1;
                }
                z += 1;
                proof {
                    assert(nums@.len() == z * w) by (nonlinear_arith)
                        requires
                            nums@.len() == (z - 1) * w + w,
                    ;
                }
            }
            let hf = Heightfield { nums, den, max_value, width: w, height: h };
            proof {
                assert(hf.nums@.len() == w * h) by (nonlinear_arith)
                    requires
                        hf.nums@.len() == (h as int) * (w as int),
                ;
                assert forall|z2: int, col2: int|
                    0 <= z2 < h && 0 <= col2 < w implies #[trigger] hf.nums@[z2 * w + col2] == (
                    self@.cells[(h - 1 - z2) * w + col2] - mn) * max_value by {
                    lemma_row_major_index(w as int, z2, col2);
                    assert(0 <= z2 * w + col2 < hf.nums@.len()) by (nonlinear_arith)
                        requires
                            0 <= z2 < h,
                            0 <= col2 < w,
                            w >= 1,
                            hf.nums@.len() == (h as int) * (w as int),
                    ;
                }
                lemma_heightfield_value_range(hf);
            }
            hf
        } else {
            let mut k: usize = 0;
            while k < n
                invariant
                    k <= n,
                    nums@.len() == k,
                    forall|q: int| 0 <= q < k ==> #[trigger] nums@[q] == 0,
                decreases n - k,
            {
                nums.push(0);
                k += 1;
            }
            let hf = Heightfield { nums, den: 1, max_value, width: w, height: h };
            proof {
                assert(hf.nums@.len() == w * h) by (nonlinear_arith)
                    requires
                        hf.nums@.len() == self@.width * self@.height,
                        w == self@.width,
                        h == self@.height,
                ;
                assert forall|q: int| 0 <= q < hf.nums@.len() implies 0 <= #[trigger] hf.nums@[q]
                    <= hf.max_value * hf.den by {
                    assert((max_value as int) * 1 >= 0) by (nonlinear_arith)
                        requires
                            max_value >= 0,
                    ;
                }
                lemma_heightfield_value_range(hf);
            }
            hf
        }
    }

    /// The terrain rendered as a 16-bit grayscale PNG: elevations are
    /// mapped linearly from their observed range onto the full luma range,
    /// rows in image order (row 0 at the top).  A flat grid renders as all
    /// black rather than dividing by zero.
    pub fn as_grayscale_height_image(&self) -> (png: Vec<u8>)
        requires
            self.wf(),
        ensures
            png@ == luma16_png_of(self@.width, self@.height, grayscale_seq(self@)),
    {
        proof {
            lemma_cell_limit(self@);
        }
        let pair = self.min_max_cells();
        let mn = pair.0;
        let mx = pair.1;
        let n = self.cells.len();
        proof {
            assert(self@.cells.len() == n);
            lemma_pow_two_pos(self@.halvings);
            assert(n >= 1 && self.width < 0x1_0000_0000 && self.height < 0x1_0000_0000)
                by (nonlinear_arith)
                requires
                    self@.cells.len() == self@.width * self@.height,
                    self@.width >= 1,
                    self@.height >= 1,
                    n == self@.cells.len(),
                    self@.width * pow_two(self@.halvings) < 0x1_0000_0000,
                    self@.height * pow_two(self@.halvings) < 0x1_0000_0000,
                    pow_two(self@.halvings) >= 1,
            ;
            lemma_seq_min_in_range(self@.cells, -CELL_LIMIT as int, CELL_LIMIT as int);
            lemma_seq_max_in_range(self@.cells, -CELL_LIMIT as int, CELL_LIMIT as int);
        }
        let mut lumas: Vec<u16> = Vec::new();
        let mut k: usize = 0;
        while k < n
            invariant
                self.wf(),
                n == self.cells@.len(),
                n == self@.cells.len(),
                forall|q: int| 0 <= q < n ==> -CELL_LIMIT <= #[trigger] self@.cells[q] <= CELL_LIMIT,
                mn as int == seq_min(self@.cells),
                mx as int == seq_max(self@.cells),
                -CELL_LIMIT <= mn as int <= CELL_LIMIT,
                -CELL_LIMIT <= mx as int <= CELL_LIMIT,
                k <= n,
                lumas@.len() == k,
                forall|q: int|
                    0 <= q < k ==> #[trigger] lumas@[q] == luma_at(self@, q) as u16 && luma_at(
                        self@,
                        q,
                    ) == lumas@[q],
            decreases n - k,
        {
            proof {
                assert(self@.cells[k as int] == self.cells@[k as int] as int);
                lemma_seq_min_le(self@.cells, k as int);
                lemma_seq_max_ge(self@.cells, k as int);
            }
            let c = self.cells[k];
            let luma: u16 = if mx > mn {
                let den = mx - mn;
                let diff = c - mn;
                let prod = (diff as u128) * 65535;
                let q = prod / (den as u128);
                proof {
                    let mni = mn as int;
                    let mxi = mx as int;
                    let ci = c as int;
                    assert((ci - mni) * 65535 <= (mxi - mni) * 65535) by (nonlinear_arith)
                        requires
                            mni <= ci <= mxi,
                    ;
                    vstd::arithmetic::div_mod::lemma_div_is_ordered(
                        (ci - mni) * 65535,
                        (mxi - mni) * 65535,
                        mxi - mni,
                    );
                    vstd::arithmetic::div_mod::lemma_div_multiples_vanish(65535, mxi - mni);
                    assert((mxi - mni) * 65535 == (mxi - mni) * 65535);
                    vstd::arithmetic::div_mod::lemma_div_pos_is_pos((ci - mni) * 65535, mxi - mni);
                    assert(q == luma_at(self@, k as int));
                }
                q as u16
            } else {
                0
            };
            lumas.push(luma);
            k += 1;
        }
        proof {
            assert(lumas@ =~= grayscale_seq(self@));
        }
        encode_luma16_png(self.width as u32, self.height as u32, &lumas)
    }

    /// The grid halved repeatedly until both sides are at most
    /// `max_dimension`.  Terminates for every well-formed grid and every
    /// positive bound.
    pub fn shrink_to_fit(&self, max_dimension: usize) -> (t: Terrain)
        requires
            self.wf(),
            max_dimension >= 1,
        ensures
            t.wf(),
            t@ == shrink_model(self@, max_dimension as int),
            t@.width <= max_dimension,
            t@.height <= max_dimension,
    {
        let mut t = self.duplicate();
        while t.width > max_dimension || t.height > max_dimension
            invariant
                t.wf(),
                max_dimension >= 1,
                shrink_model(t@, max_dimension as int) == shrink_model(self@, max_dimension as int),
            decreases t@.width + t@.height,
        {
            let next = t.halfed();
            proof {
                lemma_half_preserves_wf(t@);
                assert(shrink_model(t@, max_dimension as int) == shrink_model(
                    half_model(t@),
                    max_dimension as int,
                ));
            }
            t = next;
        }
        t
    }
}

} // verus!
