//! The two coordinate spaces and the affine mapping between them.
//!
//! A `Dimension` is the side length of a square space: either the screen (a
//! pixel square with the origin at the top left and y growing downward) or
//! the arena (a world square with the origin at a corner and z growing away
//! from the visual top edge).  `map_screen_to_arena` and
//! `map_arena_to_screen` are exact inverses of one another whenever both
//! side lengths are positive; the vertical flip keeps a point near the top
//! of the screen near the far edge (large z) of the arena.

use vstd::prelude::*;

use crate::rational::Rational;
use crate::rational::Ratio;

verus! {

/// Side length of a square space, in that space's own units.  Every mapping
/// function requires it to be positive.
#[derive(Clone, Copy, Debug, PartialEq, Eq, Structural)]
pub struct Dimension {
    pub side_length: u32,
}

/// A point in screen space: pixels, origin top left, y growing downward.
#[derive(Clone, Copy, Debug, PartialEq, Eq, Structural)]
pub struct ViewPoint {
    pub x: Rational,
    pub y: Rational,
}

/// A vector in arena space: world units, origin at a corner, y up, z growing
/// away from the visual top edge.  Also used for half-extents and forces.
#[derive(Clone, Copy, Debug, PartialEq, Eq, Structural)]
pub struct WorldVector {
    pub x: Rational,
    pub y: Rational,
    pub z: Rational,
}

/// Bound on the coordinates the executable mappings accept, so that the
/// intermediate products provably fit in an `i128`.
pub const COORD_LIMIT: i128 = 0x1000_0000_0000_0000;

/// The arena x coordinate of a screen point with x component `px`:
/// `px` scaled by `arena / screen`.
pub open spec fn screen_to_arena_x(px: Ratio, screen: int, arena: int) -> Ratio {
    px.times(Ratio { num: arena, den: screen })
}

/// The arena z coordinate of a screen point with y component `py`:
/// `py` scaled by `arena / screen`, then flipped across the arena.
pub open spec fn screen_to_arena_z(py: Ratio, screen: int, arena: int) -> Ratio {
    Ratio::from_int(arena).minus(py.times(Ratio { num: arena, den: screen }))
}

/// The screen x coordinate of an arena vector with x component `vx`:
/// `vx` scaled by `screen / arena`.
pub open spec fn arena_to_screen_x(vx: Ratio, screen: int, arena: int) -> Ratio {
    vx.times(Ratio { num: screen, den: arena })
}

/// The screen y coordinate of an arena vector with z component `vz`:
/// `vz` scaled by `screen / arena`, then flipped across the screen.
pub open spec fn arena_to_screen_y(vz: Ratio, screen: int, arena: int) -> Ratio {
    Ratio::from_int(screen).minus(vz.times(Ratio { num: screen, den: arena }))
}

/// Whether a rational coordinate is small enough for the mappings below.
pub open spec fn coord_in_range(r: Ratio) -> bool {
    &&& -COORD_LIMIT <= r.num <= COORD_LIMIT
    &&& 0 < r.den <= COORD_LIMIT
}

/// Maps a screen point into the arena, giving it the fixed altitude
/// `default_y`.  The x axis is scaled by `arena / screen`; the screen y axis
/// is scaled the same way and then flipped into the arena z axis.
pub fn map_screen_to_arena(
    screen: &Dimension,
    arena: &Dimension,
    point: &ViewPoint,
    default_y: &Rational,
) -> (r: WorldVector)
    requires
        screen.side_length >= 1,
        arena.side_length >= 1,
        coord_in_range(point.x@),
        coord_in_range(point.y@),
        default_y@.wf(),
    ensures
        r.x@ == screen_to_arena_x(point.x@, screen.side_length as int, arena.side_length as int),
        r.y@ == default_y@,
        r.z@ == screen_to_arena_z(point.y@, screen.side_length as int, arena.side_length as int),
        r.x@.wf() && r.y@.wf() && r.z@.wf(),
{
    let screen_side = screen.side_length as i128;
    let arena_side = arena.side_length as i128;
    proof {
        let n = point.x.num as int;
        let d = point.x.den as int;
        let m = point.y.num as int;
        let e = point.y.den as int;
        let s = screen_side as int;
        let a = arena_side as int;
        assert((-COORD_LIMIT * 0x1_0000_0000 <= n * a <= COORD_LIMIT * 0x1_0000_0000)
            && (0 < d * s <= COORD_LIMIT * 0x1_0000_0000)
            && (0 < e * s <= COORD_LIMIT * 0x1_0000_0000)
            && (0 < a * (e * s) <= COORD_LIMIT * 0x1_0000_0000 * 0x1_0000_0000)
            && (-COORD_LIMIT * 0x1_0000_0000 <= m * a <= COORD_LIMIT * 0x1_0000_0000)) by (nonlinear_arith)
            requires
                -COORD_LIMIT <= n <= COORD_LIMIT,
                0 < d <= COORD_LIMIT,
                -COORD_LIMIT <= m <= COORD_LIMIT,
                0 < e <= COORD_LIMIT,
                1 <= s <= 0x1_0000_0000,
                1 <= a <= 0x1_0000_0000,
        ;
    }
    let x = Rational {
        num: point.x.num * arena_side,
        den: point.x.den * screen_side,
    };
    let z_den = point.y.den * screen_side;
    let z = Rational {
        num: arena_side * z_den - point.y.num * arena_side,
        den: z_den,
    };
    WorldVector { x, y: *default_y, z }
}

/// Maps an arena vector back onto the screen.  The x axis is scaled by
/// `screen / arena`; the arena z axis is scaled the same way and then
/// flipped into the screen y axis.
pub fn map_arena_to_screen(
    screen: &Dimension,
    arena: &Dimension,
    vector: &WorldVector,
) -> (r: ViewPoint)
    requires
        screen.side_length >= 1,
        arena.side_length >= 1,
        coord_in_range(vector.x@),
        coord_in_range(vector.z@),
    ensures
        r.x@ == arena_to_screen_x(vector.x@, screen.side_length as int, arena.side_length as int),
        r.y@ == arena_to_screen_y(vector.z@, screen.side_length as int, arena.side_length as int),
        r.x@.wf() && r.y@.wf(),
{
    let screen_side = screen.side_length as i128;
    let arena_side = arena.side_length as i128;
    proof {
        let n = vector.x.num as int;
        let d = vector.x.den as int;
        let m = vector.z.num as int;
        let e = vector.z.den as int;
        let s = screen_side as int;
        let a = arena_side as int;
        assert((-COORD_LIMIT * 0x1_0000_0000 <= n * s <= COORD_LIMIT * 0x1_0000_0000)
            && (0 < d * a <= COORD_LIMIT * 0x1_0000_0000)
            && (0 < e * a <= COORD_LIMIT * 0x1_0000_0000)
            && (0 < s * (e * a) <= COORD_LIMIT * 0x1_0000_0000 * 0x1_0000_0000)
            && (-COORD_LIMIT * 0x1_0000_0000 <= m * s <= COORD_LIMIT * 0x1_0000_0000)) by (nonlinear_arith)
            requires
                -COORD_LIMIT <= n <= COORD_LIMIT,
                0 < d <= COORD_LIMIT,
                -COORD_LIMIT <= m <= COORD_LIMIT,
                0 < e <= COORD_LIMIT,
                1 <= s <= 0x1_0000_0000,
                1 <= a <= 0x1_0000_0000,
        ;
    }
    let x = Rational {
        num: vector.x.num * screen_side,
        den: vector.x.den * arena_side,
    };
    let y_den = vector.z.den * arena_side;
    let y = Rational {
        num: screen_side * y_den - vector.z.num * screen_side,
        den: y_den,
    };
    ViewPoint { x, y }
}

/// Mapping a screen point into the arena and back reproduces the point
/// exactly, for every pair of positive side lengths: the two mappings are
/// inverses of one another.
pub proof fn lemma_screen_arena_round_trip(px: Ratio, py: Ratio, screen: int, arena: int)
    requires
        screen >= 1,
        arena >= 1,
        px.wf(),
        py.wf(),
    ensures
        arena_to_screen_x(screen_to_arena_x(px, screen, arena), screen, arena).equiv(px),
        arena_to_screen_y(screen_to_arena_z(py, screen, arena), screen, arena).equiv(py),
{
    let ax = arena_to_screen_x(screen_to_arena_x(px, screen, arena), screen, arena);
    assert(ax.num * px.den == px.num * ax.den) by (nonlinear_arith)
        requires
            ax.num == (px.num * arena) * screen,
            ax.den == (px.den * screen) * arena,
    ;
    let sz = screen_to_arena_z(py, screen, arena);
    let ay = arena_to_screen_y(sz, screen, arena);
    assert(ay.num * py.den == py.num * ay.den) by (nonlinear_arith)
        requires
            sz.num == arena * (py.den * screen) - py.num * arena,
            sz.den == py.den * screen,
            ay.num == screen * (sz.den * arena) - sz.num * screen,
            ay.den == sz.den * arena,
    ;
}

/// Mapping an arena vector onto the screen and back also reproduces it
/// exactly: the inversion holds in both directions.
pub proof fn lemma_arena_screen_round_trip(vx: Ratio, vz: Ratio, screen: int, arena: int)
    requires
        screen >= 1,
        arena >= 1,
        vx.wf(),
        vz.wf(),
    ensures
        screen_to_arena_x(arena_to_screen_x(vx, screen, arena), screen, arena).equiv(vx),
        screen_to_arena_z(arena_to_screen_y(vz, screen, arena), screen, arena).equiv(vz),
{
    let sx = screen_to_arena_x(arena_to_screen_x(vx, screen, arena), screen, arena);
    assert(sx.num * vx.den == vx.num * sx.den) by (nonlinear_arith)
        requires
            sx.num == (vx.num * screen) * arena,
            sx.den == (vx.den * arena) * screen,
    ;
    let ay = arena_to_screen_y(vz, screen, arena);
    let sz = screen_to_arena_z(ay, screen, arena);
    assert(sz.num * vz.den == vz.num * sz.den) by (nonlinear_arith)
        requires
            ay.num == screen * (vz.den * arena) - vz.num * screen,
            ay.den == vz.den * arena,
            sz.num == arena * (ay.den * screen) - ay.num * arena,
            sz.den == ay.den * screen,
    ;
}

} // verus!
