//! Terrain pipeline tests: pixel decoding, PNG decode, halving, shrinking,
//! heightfield export and grayscale export, on small grids with exactly
//! known values.

use simple_ball::terrain::Terrain;
use simple_ball::terrain::to_elevation;

// The four example pixels: their 24-bit codes decode to -10.0, 0.0, 5.0
// and 50.0 world units, i.e. -100, 0, 50 and 500 tenths.
const A_PIXEL: (u8, u8, u8) = (1, 134, 60);
const B_PIXEL: (u8, u8, u8) = (1, 134, 160);
const C_PIXEL: (u8, u8, u8) = (1, 134, 210);
const D_PIXEL: (u8, u8, u8) = (1, 136, 148);
const A: i64 = -100;
const B: i64 = 0;
const C: i64 = 50;
const D: i64 = 500;

#[test]
fn test_to_elevation() {
    let examples = vec![(A_PIXEL, A), (B_PIXEL, B), (C_PIXEL, C), (D_PIXEL, D)];
    for ((r, g, b), expected) in examples {
        assert_eq!(to_elevation(r, g, b), expected);
    }
}

#[test]
fn test_to_elevation_monotone_in_code() {
    // Elevation grows with the 24-bit code (red high byte, blue low).
    let mut previous = to_elevation(0, 0, 0);
    assert_eq!(previous, -100000);
    let codes = vec![(0, 0, 1), (0, 0, 255), (0, 1, 0), (0, 255, 255), (1, 0, 0), (255, 255, 255)];
    for (r, g, b) in codes {
        let e = to_elevation(r, g, b);
        assert!(e > previous);
        previous = e;
    }
    assert_eq!(to_elevation(255, 255, 255), 16677215);
}

/// The 6x6 quadrant grid, in tenths, row-major.
fn example_elevations() -> Vec<i64> {
    vec![
        A, A, B, B, C, C,
        A, A, B, B, C, C,
        B, B, B, B, B, B,
        B, B, B, B, B, B,
        A, A, B, B, D, D,
        A, A, B, B, D, D,
    ]
}

fn example_terrain() -> Terrain {
    Terrain::from_elevations(&example_elevations(), 6, 6)
}

#[test]
fn test_halfed() {
    let terrain = example_terrain();
    let halved = terrain.halfed();
    assert_eq!(halved.width, 3);
    assert_eq!(halved.height, 3);
    assert_eq!(halved.rows(), 3);
    assert_eq!(halved.columns(), 3);
    assert_eq!(halved.halvings, 1);
    // After one halving a cell stores four times its mean elevation.
    let expected: Vec<i64> = vec![
        A, B, C,
        B, B, B,
        A, B, D,
    ];
    for row in 0..3 {
        for col in 0..3 {
            assert_eq!(halved.cell_scaled_tenths(row, col), 4 * expected[row * 3 + col] as i128);
        }
    }
}

#[test]
fn test_halfed_mixed_block_mean() {
    // A block whose four cells differ: the mean is exact, carried by the
    // block sum.
    let elevations: Vec<i64> = vec![10, 20, 30, 40];
    let terrain = Terrain::from_elevations(&elevations, 2, 2);
    let halved = terrain.halfed();
    assert_eq!(halved.width, 1);
    assert_eq!(halved.height, 1);
    assert_eq!(halved.halvings, 1);
    // 100 / 4^1 tenths: the exact mean 25.
    assert_eq!(halved.cell_scaled_tenths(0, 0), 100);
}

#[test]
fn test_shrink_to_fit() {
    let terrain = example_terrain();
    let shrunk = terrain.shrink_to_fit(2);
    assert!(shrunk.width <= 2);
    assert!(shrunk.height <= 2);
    assert_eq!(shrunk.width, 1);
    assert_eq!(shrunk.height, 1);
    assert_eq!(shrunk.halvings, 2);
    let unchanged = terrain.shrink_to_fit(6);
    assert_eq!(unchanged.width, 6);
    assert_eq!(unchanged.height, 6);
    assert_eq!(unchanged.halvings, 0);
}

#[test]
fn test_shrink_to_fit_tall_grid() {
    // A single-column grid still shrinks to the bound.
    let elevations: Vec<i64> = vec![0, 10, 20, 30, 40, 50, 60, 70];
    let terrain = Terrain::from_elevations(&elevations, 1, 8);
    let shrunk = terrain.shrink_to_fit(2);
    assert_eq!(shrunk.width, 1);
    assert_eq!(shrunk.height, 2);
}

#[test]
fn test_as_xz_heightfield() {
    // 2x2 grid: top row [0, 10], bottom row [20, 30] tenths.
    let elevations: Vec<i64> = vec![0, 10, 20, 30];
    let terrain = Terrain::from_elevations(&elevations, 2, 2);
    let hf = terrain.as_xz_heightfield(20);
    assert_eq!(hf.width, 2);
    assert_eq!(hf.height, 2);
    assert_eq!(hf.max_value, 20);
    // Range is 30 tenths, so cell value = (elevation - min) * 20 / 30.
    assert_eq!(hf.den, 30);
    // World row z = 0 holds the bottom image row (the flip).
    assert_eq!(hf.nums[0], (20 - 0) * 20);
    assert_eq!(hf.nums[1], (30 - 0) * 20);
    assert_eq!(hf.nums[2], (0 - 0) * 20);
    assert_eq!(hf.nums[3], (10 - 0) * 20);
    // Every value lies in [0, max_value].
    for k in 0..4 {
        assert!(0 <= hf.nums[k]);
        assert!(hf.nums[k] <= 20 * hf.den);
    }
}

#[test]
fn test_as_xz_heightfield_flat() {
    // A flat grid has zero range: the field is all zero over denominator 1
    // rather than a division by zero.
    let elevations: Vec<i64> = vec![70, 70, 70, 70, 70, 70];
    let terrain = Terrain::from_elevations(&elevations, 3, 2);
    let hf = terrain.as_xz_heightfield(20);
    assert_eq!(hf.den, 1);
    for k in 0..6 {
        assert_eq!(hf.nums[k], 0);
    }
}

fn rgba_bytes(pixels: &[(u8, u8, u8)]) -> Vec<u8> {
    let mut bytes = Vec::new();
    for &(r, g, b) in pixels {
        bytes.push(r);
        bytes.push(g);
        bytes.push(b);
        bytes.push(255);
    }
    bytes
}

fn encode_rgba_png(width: u32, height: u32, pixels: &[(u8, u8, u8)]) -> Vec<u8> {
    let buffer: image::RgbaImage =
        image::ImageBuffer::from_vec(width, height, rgba_bytes(pixels)).unwrap();
    let mut cursor = std::io::Cursor::new(Vec::new());
    image::DynamicImage::ImageRgba8(buffer)
        .write_to(&mut cursor, image::ImageFormat::Png)
        .unwrap();
    cursor.into_inner()
}

#[test]
fn test_from_png_terrain_image() {
    let pixels = vec![
        A_PIXEL, A_PIXEL, B_PIXEL, B_PIXEL, C_PIXEL, C_PIXEL,
        A_PIXEL, A_PIXEL, B_PIXEL, B_PIXEL, C_PIXEL, C_PIXEL,
        B_PIXEL, B_PIXEL, B_PIXEL, B_PIXEL, B_PIXEL, B_PIXEL,
        B_PIXEL, B_PIXEL, B_PIXEL, B_PIXEL, B_PIXEL, B_PIXEL,
        A_PIXEL, A_PIXEL, B_PIXEL, B_PIXEL, D_PIXEL, D_PIXEL,
        A_PIXEL, A_PIXEL, B_PIXEL, B_PIXEL, D_PIXEL, D_PIXEL,
    ];
    let data = encode_rgba_png(6, 6, &pixels);
    let terrain = Terrain::from_png_terrain_image(data).unwrap();
    assert_eq!(terrain.width, 6);
    assert_eq!(terrain.height, 6);
    assert_eq!(terrain.halvings, 0);
    let expected = example_elevations();
    for row in 0..6 {
        for col in 0..6 {
            assert_eq!(
                terrain.cell_scaled_tenths(row, col),
                expected[row * 6 + col] as i128
            );
        }
    }
}

#[test]
fn test_from_png_terrain_image_rejects_garbage() {
    let result = Terrain::from_png_terrain_image(vec![1, 2, 3, 4, 5]);
    assert!(result.is_err());
    let empty = Terrain::from_png_terrain_image(Vec::new());
    assert!(empty.is_err());
}

#[test]
fn test_render_terrain_height_image() {
    let pixels = vec![
        A_PIXEL, A_PIXEL, B_PIXEL, B_PIXEL, C_PIXEL, C_PIXEL,
        A_PIXEL, A_PIXEL, B_PIXEL, B_PIXEL, C_PIXEL, C_PIXEL,
        B_PIXEL, B_PIXEL, B_PIXEL, B_PIXEL, B_PIXEL, B_PIXEL,
        B_PIXEL, B_PIXEL, B_PIXEL, B_PIXEL, B_PIXEL, B_PIXEL,
        A_PIXEL, A_PIXEL, B_PIXEL, B_PIXEL, D_PIXEL, D_PIXEL,
        A_PIXEL, A_PIXEL, B_PIXEL, B_PIXEL, D_PIXEL, D_PIXEL,
    ];
    let data = encode_rgba_png(6, 6, &pixels);
    let png = simple_ball::render_terrain_height_image(data).unwrap();
    let decoded = image::load_from_memory_with_format(&png, image::ImageFormat::Png).unwrap();
    match decoded {
        image::DynamicImage::ImageLuma16(buffer) => {
            assert_eq!(buffer.width(), 6);
            assert_eq!(buffer.height(), 6);
            // Range is 600 tenths from A to D.
            assert_eq!(buffer.get_pixel(0, 0)[0], 0);
            assert_eq!(buffer.get_pixel(2, 0)[0], (100i64 * 65535 / 600) as u16);
            assert_eq!(buffer.get_pixel(4, 0)[0], (150i64 * 65535 / 600) as u16);
            assert_eq!(buffer.get_pixel(4, 4)[0], 65535);
        }
        _ => panic!("expected a 16-bit grayscale image"),
    }
    assert!(simple_ball::render_terrain_height_image(vec![0, 1, 2]).is_err());
}

#[test]
fn test_as_grayscale_height_image() {
    // 2x2 grid [0, 10 / 20, 30]: lumas are (e - min) * 65535 / range.
    let elevations: Vec<i64> = vec![0, 10, 20, 30];
    let terrain = Terrain::from_elevations(&elevations, 2, 2);
    let png = terrain.as_grayscale_height_image();
    let decoded = image::load_from_memory_with_format(&png, image::ImageFormat::Png).unwrap();
    match decoded {
        image::DynamicImage::ImageLuma16(buffer) => {
            assert_eq!(buffer.width(), 2);
            assert_eq!(buffer.height(), 2);
            // No flip in the visualization: row 0 is the image top.
            assert_eq!(buffer.get_pixel(0, 0)[0], 0);
            assert_eq!(buffer.get_pixel(1, 0)[0], (10 * 65535 / 30) as u16);
            assert_eq!(buffer.get_pixel(0, 1)[0], (20 * 65535 / 30) as u16);
            assert_eq!(buffer.get_pixel(1, 1)[0], 65535);
        }
        _ => panic!("expected a 16-bit grayscale image"),
    }
}
