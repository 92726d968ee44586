use mandelbrot::color::Color;
use mandelbrot::escape::evaluate;
use mandelbrot::frame::{FrameBuffer, FrameError, Tile};
use mandelbrot::grid::grid;
use mandelbrot::render::{
    compute_tiles, merge_all, render_direct, render_tiled, render_tiles, scratch_tiles, setup,
};
use mandelbrot::tile::{partition, Region};
use num::complex::Complex64;
use num::pow::Pow;

fn pattern(x: usize, y: usize) -> Color {
    Color { r: (x * 31 + y * 17) as u8, g: (x ^ y) as u8, b: (x + y) as u8, a: 255 }
}

/// The color of pixel `(x, y)` of a `width` by `height` view of the plane,
/// centered at the origin with half-width 2.
fn plane(x: usize, y: usize, width: usize, height: usize, exponent: f64, budget: u64) -> Color {
    let aspect = width as f64 / height as f64;
    let re = (x as f64 / width as f64 - 0.5) * 2.0 * 2.0 + 0.0;
    let im = (y as f64 / height as f64 - 0.5) / aspect * 2.0 * 2.0 + 0.0;
    let c = Complex64::new(re, im);
    evaluate(
        Complex64::new(0.0, 0.0),
        budget,
        &|z: Complex64| z.norm() > 2.0,
        &|z: Complex64| z.pow(exponent) + c,
    )
}

#[test]
fn setup_makes_a_black_frame_and_four_black_tiles() {
    let (frame, tiles) = setup(9, 5).unwrap();
    assert_eq!(frame, FrameBuffer::new(9, 5).unwrap());
    let regions: Vec<Region> = tiles.iter().map(|tile| tile.region()).collect();
    assert_eq!(regions, partition(9, 5));
    for (tile, region) in tiles.iter().zip(partition(9, 5)) {
        assert_eq!(*tile, Tile::new(region));
    }
}

#[test]
fn setup_sizes_each_scratch_buffer_to_its_quadrant() {
    let (_, tiles) = setup(900, 601).unwrap();
    let sizes: Vec<(usize, usize)> =
        tiles.iter().map(|tile| (tile.region().width(), tile.region().height())).collect();
    assert_eq!(sizes, vec![(450, 300), (450, 300), (450, 301), (450, 301)]);
    assert_eq!(tiles[0].get(449, 299), Some(Color::black()));
    assert_eq!(tiles[0].get(450, 299), None);
    assert_eq!(tiles[3].get(899, 600), Some(Color::black()));
}

#[test]
fn setup_refuses_zero_dimensions() {
    assert_eq!(setup(0, 5).err(), Some(FrameError::ZeroDimension));
    assert_eq!(setup(5, 0).err(), Some(FrameError::ZeroDimension));
}

#[test]
fn compute_tiles_fills_every_tile() {
    let (_, mut tiles) = setup(7, 5).unwrap();
    compute_tiles(&mut tiles, &pattern);
    let regions: Vec<Region> = tiles.iter().map(|tile| tile.region()).collect();
    assert_eq!(regions, partition(7, 5));
    for y in 0..5 {
        for x in 0..7 {
            let held: Vec<Color> = tiles.iter().filter_map(|tile| tile.get(x, y)).collect();
            assert_eq!(held, vec![pattern(x, y)]);
        }
    }
}

#[test]
fn merge_all_assembles_the_frame_from_its_tiles() {
    let (mut frame, mut tiles) = setup(7, 5).unwrap();
    compute_tiles(&mut tiles, &pattern);
    assert_eq!(merge_all(&mut frame, &tiles), Ok(()));
    for y in 0..5 {
        for x in 0..7 {
            assert_eq!(frame.get(x, y), Some(pattern(x, y)));
        }
    }
}

#[test]
fn merge_all_lets_the_later_tile_win_where_tiles_overlap() {
    let mut frame = FrameBuffer::new(4, 1).unwrap();
    let mut first = Tile::new(Region { y_start: 0, y_end: 1, x_start: 0, x_end: 3 });
    first.fill(&|_x: usize, _y: usize| Color { r: 1, g: 1, b: 1, a: 255 });
    let mut second = Tile::new(Region { y_start: 0, y_end: 1, x_start: 2, x_end: 4 });
    second.fill(&|_x: usize, _y: usize| Color { r: 2, g: 2, b: 2, a: 255 });
    merge_all(&mut frame, &vec![first, second]).unwrap();
    let reds: Vec<u8> = (0..4).map(|x| frame.get(x, 0).unwrap().r).collect();
    assert_eq!(reds, vec![1, 1, 2, 2]);
}

#[test]
fn merge_all_keeps_pixels_that_no_tile_holds() {
    let mut frame = FrameBuffer::new(4, 2).unwrap();
    frame.set(3, 1, pattern(3, 1)).unwrap();
    let mut tile = Tile::new(Region { y_start: 0, y_end: 1, x_start: 0, x_end: 2 });
    tile.fill(&pattern);
    merge_all(&mut frame, &vec![tile]).unwrap();
    assert_eq!(frame.get(0, 0), Some(pattern(0, 0)));
    assert_eq!(frame.get(1, 0), Some(pattern(1, 0)));
    assert_eq!(frame.get(2, 0), Some(Color::black()));
    assert_eq!(frame.get(3, 1), Some(pattern(3, 1)));
}

#[test]
fn merge_all_copies_nothing_if_one_tile_reaches_outside() {
    let mut frame = FrameBuffer::new(4, 2).unwrap();
    let before = frame.clone();
    let mut inside = Tile::new(Region { y_start: 0, y_end: 2, x_start: 0, x_end: 2 });
    inside.fill(&pattern);
    let mut outside = Tile::new(Region { y_start: 0, y_end: 3, x_start: 2, x_end: 4 });
    outside.fill(&pattern);
    assert_eq!(merge_all(&mut frame, &vec![inside, outside]), Err(FrameError::OutOfBounds));
    assert_eq!(frame, before);
}

#[test]
fn merge_all_of_no_tiles_changes_nothing() {
    let mut frame = FrameBuffer::new(4, 2).unwrap();
    frame.set(1, 1, pattern(1, 1)).unwrap();
    let before = frame.clone();
    assert_eq!(merge_all(&mut frame, &Vec::new()), Ok(()));
    assert_eq!(frame, before);
}

#[test]
fn render_tiled_shades_every_pixel() {
    let frame = render_tiled(7, 5, &pattern).unwrap();
    assert_eq!((frame.width(), frame.height()), (7, 5));
    for y in 0..5 {
        for x in 0..7 {
            assert_eq!(frame.get(x, y), Some(pattern(x, y)));
        }
    }
}

#[test]
fn render_direct_shades_every_pixel() {
    let frame = render_direct(7, 5, &pattern).unwrap();
    assert_eq!((frame.width(), frame.height()), (7, 5));
    for y in 0..5 {
        for x in 0..7 {
            assert_eq!(frame.get(x, y), Some(pattern(x, y)));
        }
    }
}

#[test]
fn renderers_refuse_zero_dimensions() {
    assert_eq!(render_tiled(0, 5, &pattern), Err(FrameError::ZeroDimension));
    assert_eq!(render_tiled(5, 0, &pattern), Err(FrameError::ZeroDimension));
    assert_eq!(render_direct(0, 5, &pattern), Err(FrameError::ZeroDimension));
    assert_eq!(render_direct(5, 0, &pattern), Err(FrameError::ZeroDimension));
}

#[test]
fn tiled_and_direct_rendering_agree_on_small_frames() {
    for (width, height) in [(1, 1), (1, 2), (2, 1), (2, 2), (3, 3), (7, 5), (8, 6), (33, 17)] {
        assert_eq!(render_tiled(width, height, &pattern), render_direct(width, height, &pattern));
    }
}

#[test]
fn tiled_and_direct_rendering_agree_on_the_plane() {
    for (width, height) in [(90, 60), (91, 61), (64, 64)] {
        let shader = |x: usize, y: usize| plane(x, y, width, height, 2.0, 50);
        assert_eq!(render_tiled(width, height, &shader), render_direct(width, height, &shader));
    }
}

#[test]
fn tiled_and_direct_rendering_agree_with_a_non_integral_exponent() {
    let shader = |x: usize, y: usize| plane(x, y, 45, 30, 2.5, 50);
    assert_eq!(render_tiled(45, 30, &shader), render_direct(45, 30, &shader));
}

#[test]
fn tiled_rendering_has_no_seam_at_the_tile_edges() {
    let frame = render_tiled(9, 7, &pattern).unwrap();
    for y in 0..7 {
        assert_eq!(frame.get(3, y), Some(pattern(3, y)));
        assert_eq!(frame.get(4, y), Some(pattern(4, y)));
        assert_eq!(frame.get(5, y), Some(pattern(5, y)));
    }
    for x in 0..9 {
        assert_eq!(frame.get(x, 2), Some(pattern(x, 2)));
        assert_eq!(frame.get(x, 3), Some(pattern(x, 3)));
        assert_eq!(frame.get(x, 4), Some(pattern(x, 4)));
    }
}

#[test]
fn frame_center_of_the_default_view_is_black() {
    let shader = |x: usize, y: usize| plane(x, y, 900, 600, 2.0, 50);
    let frame = render_tiled(900, 600, &shader).unwrap();
    assert_eq!(frame.get(450, 300), Some(Color { r: 0, g: 0, b: 0, a: 255 }));
}

#[test]
fn left_edge_of_the_default_view_is_dim_but_not_black() {
    let shader = |x: usize, y: usize| plane(x, y, 900, 600, 2.0, 50);
    let frame = render_tiled(900, 600, &shader).unwrap();
    let color = frame.get(0, 300).unwrap();
    assert!(color.r > 0, "red channel {}", color.r);
    assert!(color.r < 128, "red channel {}", color.r);
    assert_eq!(color.b, 0);
    assert_eq!(color.a, 255);
}

#[test]
fn scratch_tiles_are_black_and_in_the_order_of_their_regions() {
    let regions = grid(10, 7, 3, 2).unwrap();
    let tiles = scratch_tiles(&regions);
    assert_eq!(tiles.len(), 6);
    for (tile, region) in tiles.iter().zip(regions) {
        assert_eq!(*tile, Tile::new(region));
    }
    assert!(scratch_tiles(&Vec::new()).is_empty());
}

#[test]
fn render_tiles_over_any_grid_agrees_with_direct_rendering() {
    for (columns, rows) in [(1, 1), (2, 2), (3, 1), (1, 4), (3, 5), (20, 20)] {
        let regions = grid(13, 9, columns, rows).unwrap();
        assert_eq!(render_tiles(13, 9, &regions, &pattern), render_direct(13, 9, &pattern));
    }
}

#[test]
fn render_tiles_leaves_pixels_outside_all_regions_black() {
    let regions = vec![Region { y_start: 1, y_end: 3, x_start: 2, x_end: 5 }];
    let frame = render_tiles(6, 4, &regions, &pattern).unwrap();
    for y in 0..4 {
        for x in 0..6 {
            let expected = if regions[0].contains_pixel(x, y) { pattern(x, y) } else { Color::black() };
            assert_eq!(frame.get(x, y), Some(expected));
        }
    }
}

#[test]
fn render_tiles_without_regions_is_a_black_frame() {
    assert_eq!(render_tiles(6, 4, &Vec::new(), &pattern), FrameBuffer::new(6, 4));
}

#[test]
fn render_tiles_refuses_a_region_that_reaches_outside() {
    let regions = vec![
        Region { y_start: 0, y_end: 4, x_start: 0, x_end: 6 },
        Region { y_start: 0, y_end: 5, x_start: 0, x_end: 6 },
    ];
    assert_eq!(render_tiles(6, 4, &regions, &pattern), Err(FrameError::OutOfBounds));
}

#[test]
fn render_tiles_reports_zero_dimensions_before_regions() {
    let regions = vec![Region { y_start: 0, y_end: 5, x_start: 0, x_end: 6 }];
    assert_eq!(render_tiles(0, 4, &regions, &pattern), Err(FrameError::ZeroDimension));
    assert_eq!(render_tiles(6, 0, &regions, &pattern), Err(FrameError::ZeroDimension));
}
