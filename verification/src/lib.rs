//! Engine for a bounded square arena of bouncing balls resting on terrain
//! decoded from a grayscale-encoded elevation image.
//!
//! The crate covers the terrain-to-physics pipeline: decoding an elevation
//! image into a height grid, decimating that grid, rescaling it into the
//! heightfield range a physics engine expects, weighted-random ball
//! placement biased toward low terrain, and the bidirectional affine mapping
//! between screen space and arena space.  All scalar arithmetic is exact:
//! elevations are fixed-point integers and coordinates are rationals.

pub mod rational;

pub mod dimension;

pub mod screen;

pub mod terrain;

pub mod arena;


use vstd::prelude::*;

use crate::rational::Rational;
use crate::dimension::Dimension;
use crate::dimension::WorldVector;
use crate::dimension::coord_in_range;
use crate::dimension::arena_to_screen_x;
use crate::dimension::arena_to_screen_y;
use crate::dimension::map_arena_to_screen;
use crate::screen::Screen;
use crate::terrain::Terrain;
use crate::terrain::TerrainError;
use crate::terrain::decoded_grid;
use crate::terrain::grayscale_seq;
use crate::terrain::luma16_png_of;
use crate::terrain::png_rgba_of;

verus! {

/// Renders an encoded terrain image as a 16-bit grayscale PNG of its
/// elevations, normalized to the full luma range: the terrain-only entry
/// point of the application surface.  Fails exactly when the bytes are
/// not a valid PNG or the image has no pixels.
pub fn render_terrain_height_image(data: Vec<u8>) -> (r: Result<Vec<u8>, TerrainError>)
    ensures
        r is Ok <==> (png_rgba_of(data@) matches Some(im) && im.0 >= 1 && im.1 >= 1),
        r matches Ok(png) ==> (png_rgba_of(data@) matches Some(im) && png@ == luma16_png_of(
            im.0,
            im.1,
            grayscale_seq(decoded_grid(im.0, im.1, im.2)),
        )),
{
    match Terrain::from_png_terrain_image(data) {
        Ok(terrain) => Ok(terrain.as_grayscale_height_image()),
        Err(e) => Err(e),
    }
}

/// One ball as the renderer draws it: its screen position and its screen
/// radius, in pixels.
#[derive(Clone, Copy, Debug, PartialEq, Eq, Structural)]
pub struct ViewBall {
    pub x: Rational,
    pub y: Rational,
    pub radius: Rational,
}

/// Maps every ball's arena translation onto the screen, paired with the
/// screen radius: the arena ball radius under the same arena-to-screen
/// scale.
pub fn ball_view_positions(
    screen: &Screen,
    arena_dimension: &Dimension,
    ball_radius: &Rational,
    translations: &Vec<WorldVector>,
) -> (out: Vec<ViewBall>)
    requires
        screen.dimension.side_length >= 1,
        arena_dimension.side_length >= 1,
        coord_in_range(ball_radius@),
        forall|k: int|
            0 <= k < translations@.len() ==> coord_in_range(#[trigger] translations@[k].x@)
                && coord_in_range(translations@[k].z@),
    ensures
        out@.len() == translations@.len(),
        forall|k: int|
            0 <= k < out@.len() ==> {
                let b = #[trigger] out@[k];
                let s = screen.dimension.side_length as int;
                let a = arena_dimension.side_length as int;
                &&& b.x@ == arena_to_screen_x(translations@[k].x@, s, a)
                &&& b.y@ == arena_to_screen_y(translations@[k].z@, s, a)
                &&& b.radius@ == arena_to_screen_x(ball_radius@, s, a)
            },
{
    let radius_point = map_arena_to_screen(
        &screen.dimension,
        arena_dimension,
        &WorldVector { x: *ball_radius, y: *ball_radius, z: *ball_radius },
    );
    let view_radius = radius_point.x;
    let n = translations.len();
    let mut out: Vec<ViewBall> = Vec::new();
    let mut k: usize = 0;
    while k < n
        invariant
            screen.dimension.side_length >= 1,
            arena_dimension.side_length >= 1,
            coord_in_range(ball_radius@),
            n == translations@.len(),
            forall|q: int|
                0 <= q < translations@.len() ==> coord_in_range(#[trigger] translations@[q].x@)
                    && coord_in_range(translations@[q].z@),
            view_radius@ == arena_to_screen_x(
                ball_radius@,
                screen.dimension.side_length as int,
                arena_dimension.side_length as int,
            ),
            k <= n,
            out@.len() == k,
            forall|q: int|
                0 <= q < k ==> {
                    let b = #[trigger] out@[q];
                    let s = screen.dimension.side_length as int;
                    let a = arena_dimension.side_length as int;
                    &&& b.x@ == arena_to_screen_x(translations@[q].x@, s, a)
                    &&& b.y@ == arena_to_screen_y(translations@[q].z@, s, a)
                    &&& b.radius@ == arena_to_screen_x(ball_radius@, s, a)
                },
        decreases n - k,
    {
        let p = map_arena_to_screen(&screen.dimension, arena_dimension, &translations[k]);
        out.push(ViewBall { x: p.x, y: p.y, radius: view_radius });
        k += 1;
    }
    out
}

} // verus!
