//! Rendering a frame: tile by tile through scratch buffers, or directly.

use vstd::prelude::*;
use crate::color::Color;
use crate::frame::{overlay, rectangular, uniform, FrameBuffer, FrameError, Tile};
use crate::tile::{covered, in_frame, partition, quadrants, regions_fit, Region};

verus! {

/// The regions that `tiles` stand for, in order.
pub open spec fn regions_of(tiles: Seq<Tile>) -> Seq<Region> {
    Seq::new(tiles.len(), |i: int| tiles[i].spec_region())
}

/// Index of the last tile of `tiles` that holds pixel `(x, y)`, if any does.
pub open spec fn painter(tiles: Seq<Tile>, x: int, y: int) -> Option<int>
    decreases tiles.len(),
{
    if tiles.len() == 0 {
        None
    } else if tiles.last().spec_region().contains(x, y) {
        Some(tiles.len() - 1)
    } else {
        painter(tiles.drop_last(), x, y)
    }
}

/// `grid` after the tiles were copied into it one after the other: each
/// pixel has the color of the last tile that holds it, and a pixel that no
/// tile holds keeps its color.
pub open spec fn merged(grid: Seq<Seq<Color>>, tiles: Seq<Tile>) -> Seq<Seq<Color>> {
    Seq::new(
        grid.len(),
        |y: int|
            Seq::new(
                grid[y].len(),
                |x: int|
                    match painter(tiles, x, y) {
                        Some(i) => tiles[i].at(x, y),
                        None => grid[y][x],
                    },
            ),
    )
}

/// The painter of a pixel is a tile that holds it, and a pixel has a painter
/// exactly when some tile holds it.
pub proof fn painter_holds_pixel(tiles: Seq<Tile>, x: int, y: int)
    ensures
        match painter(tiles, x, y) {
            Some(i) => 0 <= i < tiles.len() && tiles[i].spec_region().contains(x, y),
            None => !covered(regions_of(tiles), x, y),
        },
    decreases tiles.len(),
{
    if tiles.len() > 0 && !tiles.last().spec_region().contains(x, y) {
        let front = tiles.drop_last();
        painter_holds_pixel(front, x, y);
        match painter(front, x, y) {
            Some(i) => {
                assert(front[i] == tiles[i]);
            },
            None => {
                if covered(regions_of(tiles), x, y) {
                    let i = choose|i: int|
                        0 <= i < regions_of(tiles).len() && #[trigger] regions_of(
                            tiles,
                        )[i].contains(x, y);
                    assert(regions_of(front)[i].contains(x, y));
                }
            },
        }
    }
}

/// Where no pixel is in two tiles, merging gives each pixel the color of
/// the one tile that holds it, whatever the order of the tiles.
pub proof fn merged_pixel_of_disjoint_tiles(
    grid: Seq<Seq<Color>>,
    tiles: Seq<Tile>,
    i: int,
    x: int,
    y: int,
)
    requires
        0 <= y < grid.len(),
        0 <= x < grid[y].len(),
        0 <= i < tiles.len(),
        tiles[i].spec_region().contains(x, y),
        forall|a: int, b: int, x: int, y: int|
            0 <= a < b < tiles.len() && #[trigger] regions_of(tiles)[a].contains(x, y)
                ==> !#[trigger] regions_of(tiles)[b].contains(x, y),
    ensures
        merged(grid, tiles)[y][x] == tiles[i].at(x, y),
{
    painter_holds_pixel(tiles, x, y);
    assert(regions_of(tiles)[i].contains(x, y));
    match painter(tiles, x, y) {
        Some(j) => {
            assert(regions_of(tiles)[j].contains(x, y));
        },
        None => {},
    }
}

/// Copying one more tile into a grid merges one more tile.
proof fn merged_step(grid: Seq<Seq<Color>>, tiles: Seq<Tile>)
    requires
        tiles.len() > 0,
    ensures
        merged(grid, tiles) == overlay(merged(grid, tiles.drop_last()), tiles.last()),
{
    let front = tiles.drop_last();
    let left = merged(grid, tiles);
    let right = overlay(merged(grid, front), tiles.last());
    assert forall|y: int| 0 <= y < left.len() implies #[trigger] left[y] =~= right[y] by {
        assert forall|x: int| 0 <= x < left[y].len() implies left[y][x] == right[y][x] by {
            painter_holds_pixel(front, x, y);
            match painter(front, x, y) {
                Some(i) => {
                    assert(front[i] == tiles[i]);
                },
                None => {},
            }
        }
    }
    assert(left =~= right);
}

/// A black scratch buffer for each of `regions`, in order.
pub fn scratch_tiles(regions: &Vec<Region>) -> (tiles: Vec<Tile>)
    ensures
        regions_of(tiles@) == regions@,
        forall|i: int|
            0 <= i < tiles@.len() ==> {
                &&& (#[trigger] tiles@[i]).wf()
                &&& uniform(tiles@[i]@, Color::spec_black())
            },
{
    let mut tiles: Vec<Tile> = Vec::new();
    let mut i: usize = 0;
    while i < regions.len()
        invariant
            i <= regions.len(),
            tiles@.len() == i,
            forall|k: int|
                0 <= k < i ==> {
                    &&& (#[trigger] tiles@[k]).wf()
                    &&& tiles@[k].spec_region() == regions@[k]
                    &&& uniform(tiles@[k]@, Color::spec_black())
                },
        decreases regions.len() - i,
    {
        tiles.push(Tile::new(regions[i]));
        i += 1;
    }
    assert(regions_of(tiles@) =~= regions@);
    tiles
}

/// The frame buffer and the scratch buffers of its four quadrants, all
/// black. A frame without columns or without rows is refused.
pub fn setup(width: usize, height: usize) -> (made: Result<(FrameBuffer, Vec<Tile>), FrameError>)
    ensures
        match made {
            Ok((frame, tiles)) => {
                &&& width > 0 && height > 0
                &&& frame.wf()
                &&& frame.spec_width() == width
                &&& frame.spec_height() == height
                &&& uniform(frame@, Color::spec_black())
                &&& regions_of(tiles@) == quadrants(width, height)
                &&& forall|i: int|
                    0 <= i < tiles@.len() ==> {
                        &&& (#[trigger] tiles@[i]).wf()
                        &&& uniform(tiles@[i]@, Color::spec_black())
                    }
            },
            Err(error) => error == FrameError::ZeroDimension && (width == 0 || height == 0),
        },
{
    match FrameBuffer::new(width, height) {
        Err(error) => Err(error),
        Ok(frame) => {
            let regions = partition(width, height);
            Ok((frame, scratch_tiles(&regions)))
        },
    }
}

/// Computes every tile with `shader`, one tile after the other.
pub fn compute_tiles<F: Fn(usize, usize) -> Color>(tiles: &mut Vec<Tile>, shader: &F)
    requires
        forall|i: int| 0 <= i < old(tiles)@.len() ==> (#[trigger] old(tiles)@[i]).wf(),
        forall|i: int, x: usize, y: usize|
            0 <= i < old(tiles)@.len() && #[trigger] old(tiles)@[i].spec_region().contains(
                x as int,
                y as int,
            ) ==> shader.requires((x, y)),
    ensures
        regions_of(final(tiles)@) == regions_of(old(tiles)@),
        forall|i: int|
            0 <= i < final(tiles)@.len() ==> {
                &&& (#[trigger] final(tiles)@[i]).wf()
                &&& final(tiles)@[i].shaded_by(shader)
            },
{
    let mut i: usize = 0;
    while i < tiles.len()
        invariant
            i <= tiles@.len(),
            tiles@.len() == old(tiles)@.len(),
            forall|k: int|
                0 <= k < tiles@.len() ==> {
                    &&& (#[trigger] tiles@[k]).wf()
                    &&& tiles@[k].spec_region() == old(tiles)@[k].spec_region()
                },
            forall|k: int| 0 <= k < i ==> (#[trigger] tiles@[k]).shaded_by(shader),
            forall|k: int, x: usize, y: usize|
                0 <= k < old(tiles)@.len() && #[trigger] old(tiles)@[k].spec_region().contains(
                    x as int,
                    y as int,
                ) ==> shader.requires((x, y)),
        decreases tiles@.len() - i,
    {
        let ghost region = tiles@[i as int].spec_region();
        assert forall|x: usize, y: usize|
            region.contains(x as int, y as int) implies #[trigger] shader.requires((x, y)) by {
            assert(old(tiles)@[i as int].spec_region().contains(x as int, y as int));
        }
        tiles[i].fill(shader);
        i += 1;
    }
    assert(regions_of(tiles@) =~= regions_of(old(tiles)@));
}

/// Copies the scratch buffers of all tiles into the frame, in order. If a
/// tile reaches outside the frame, nothing is copied.
pub fn merge_all(frame: &mut FrameBuffer, tiles: &Vec<Tile>) -> (done: Result<(), FrameError>)
    requires
        old(frame).wf(),
        forall|i: int| 0 <= i < tiles@.len() ==> (#[trigger] tiles@[i]).wf(),
    ensures
        final(frame).wf(),
        final(frame).spec_width() == old(frame).spec_width(),
        final(frame).spec_height() == old(frame).spec_height(),
        match done {
            Ok(_) => {
                &&& regions_fit(regions_of(tiles@), old(frame).spec_width(), old(frame).spec_height())
                &&& final(frame)@ == merged(old(frame)@, tiles@)
            },
            Err(error) => {
                &&& error == FrameError::OutOfBounds
                &&& !regions_fit(regions_of(tiles@), old(frame).spec_width(), old(frame).spec_height())
                &&& final(frame)@ == old(frame)@
            },
        },
{
    let width = frame.width();
    let height = frame.height();
    let mut i: usize = 0;
    while i < tiles.len()
        invariant
            i <= tiles@.len(),
            *frame == *old(frame),
            frame.wf(),
            width == frame.spec_width(),
            height == frame.spec_height(),
            forall|k: int|
                0 <= k < i ==> (#[trigger] tiles@[k]).spec_region().spec_fits(width, height),
        decreases tiles@.len() - i,
    {
        if !tiles[i].region().fits(width, height) {
            assert(!regions_of(tiles@)[i as int].spec_fits(width, height));
            return Err(FrameError::OutOfBounds);
        }
        i += 1;
    }
    paste_all(frame, tiles);
    Ok(())
}

/// Copies the scratch buffers of tiles that all fit the frame into it, in
/// order.
fn paste_all(frame: &mut FrameBuffer, tiles: &Vec<Tile>)
    requires
        old(frame).wf(),
        regions_fit(regions_of(tiles@), old(frame).spec_width(), old(frame).spec_height()),
        forall|i: int| 0 <= i < tiles@.len() ==> (#[trigger] tiles@[i]).wf(),
    ensures
        final(frame).wf(),
        final(frame).spec_width() == old(frame).spec_width(),
        final(frame).spec_height() == old(frame).spec_height(),
        final(frame)@ == merged(old(frame)@, tiles@),
{
    let mut i: usize = 0;
    proof {
        let start = merged(frame@, tiles@.take(0));
        assert forall|y: int| 0 <= y < frame@.len() implies #[trigger] start[y] =~= frame@[y] by {
            assert forall|x: int| 0 <= x < frame@[y].len() implies start[y][x] == frame@[y][x] by {
                assert(painter(tiles@.take(0), x, y) is None);
            }
        }
        assert(frame@ =~= start);
    }
    while i < tiles.len()
        invariant
            i <= tiles@.len(),
            frame.wf(),
            frame.spec_width() == old(frame).spec_width(),
            frame.spec_height() == old(frame).spec_height(),
            regions_fit(regions_of(tiles@), frame.spec_width(), frame.spec_height()),
            forall|k: int| 0 <= k < tiles@.len() ==> (#[trigger] tiles@[k]).wf(),
            frame@ == merged(old(frame)@, tiles@.take(i as int)),
        decreases tiles@.len() - i,
    {
        proof {
            let next = tiles@.take(i + 1);
            assert(next.drop_last() =~= tiles@.take(i as int));
            assert(next.last() == tiles@[i as int]);
            merged_step(old(frame)@, next);
            assert(regions_of(tiles@)[i as int].spec_fits(frame.spec_width(), frame.spec_height()));
        }
        frame.paste(&tiles[i]);
        i += 1;
    }
    assert(tiles@.take(tiles@.len() as int) =~= tiles@);
}

/// True when each pixel of `frame` that some region of `regions` holds has
/// a color that `shader` returns for it.
pub open spec fn shaded_within<F: Fn(usize, usize) -> Color>(
    frame: FrameBuffer,
    regions: Seq<Region>,
    shader: &F,
) -> bool {
    forall|x: usize, y: usize|
        in_frame(x as int, y as int, frame.spec_width(), frame.spec_height()) && covered(
            regions,
            x as int,
            y as int,
        ) ==> shader.ensures((x, y), #[trigger] frame.at(x as int, y as int))
}

/// Merging tiles that were each computed with `shader` shades the pixels
/// that the tiles hold and leaves the others as they were.
pub proof fn merged_tiles_shade_their_pixels<F: Fn(usize, usize) -> Color>(
    frame: FrameBuffer,
    grid: Seq<Seq<Color>>,
    tiles: Seq<Tile>,
    shader: &F,
)
    requires
        frame.wf(),
        rectangular(grid, frame.spec_width(), frame.spec_height()),
        frame@ == merged(grid, tiles),
        forall|i: int| 0 <= i < tiles.len() ==> (#[trigger] tiles[i]).shaded_by(shader),
    ensures
        shaded_within(frame, regions_of(tiles), shader),
        forall|x: int, y: int|
            in_frame(x, y, frame.spec_width(), frame.spec_height()) && !covered(
                regions_of(tiles),
                x,
                y,
            ) ==> #[trigger] frame.at(x, y) == grid[y][x],
{
    assert forall|x: usize, y: usize|
        in_frame(x as int, y as int, frame.spec_width(), frame.spec_height()) && covered(
            regions_of(tiles),
            x as int,
            y as int,
        ) implies shader.ensures((x, y), #[trigger] frame.at(x as int, y as int)) by {
        painter_holds_pixel(tiles, x as int, y as int);
        let i = painter(tiles, x as int, y as int)->0;
        assert(tiles[i].shaded_by(shader));
        assert(frame.at(x as int, y as int) == tiles[i].at(x as int, y as int));
    }
    assert forall|x: int, y: int|
        in_frame(x, y, frame.spec_width(), frame.spec_height()) && !covered(
            regions_of(tiles),
            x,
            y,
        ) implies #[trigger] frame.at(x, y) == grid[y][x] by {
        painter_holds_pixel(tiles, x, y);
        assert(painter(tiles, x, y) is Some ==> regions_of(tiles)[painter(tiles, x, y)->0].contains(
            x,
            y,
        ));
    }
}

/// Where the regions hold every pixel of a frame, a frame that is shaded
/// within them is shaded as a whole.
pub proof fn shaded_within_a_cover<F: Fn(usize, usize) -> Color>(
    frame: FrameBuffer,
    regions: Seq<Region>,
    shader: &F,
)
    requires
        shaded_within(frame, regions, shader),
        forall|x: int, y: int|
            in_frame(x, y, frame.spec_width(), frame.spec_height()) ==> #[trigger] covered(
                regions,
                x,
                y,
            ),
    ensures
        frame.shaded_by(shader),
{
    assert forall|x: usize, y: usize|
        in_frame(
            x as int,
            y as int,
            frame.spec_width(),
            frame.spec_height(),
        ) implies shader.ensures((x, y), #[trigger] frame.at(x as int, y as int)) by {
        assert(covered(regions, x as int, y as int));
    }
}

/// Renders a frame tile by tile: each of `regions` is computed with `shader`
/// into a scratch buffer of its own, and the scratch buffers are then copied
/// into a black frame, in order. `shader` is handed the column and the row of
/// a pixel. A frame without columns or without rows is refused, and so is a
/// region that reaches outside the frame.
pub fn render_tiles<F: Fn(usize, usize) -> Color>(
    width: usize,
    height: usize,
    regions: &Vec<Region>,
    shader: &F,
) -> (made: Result<FrameBuffer, FrameError>)
    requires
        forall|x: usize, y: usize|
            in_frame(x as int, y as int, width, height) ==> #[trigger] shader.requires((x, y)),
    ensures
        match made {
            Ok(frame) => {
                &&& width > 0 && height > 0
                &&& regions_fit(regions@, width, height)
                &&& frame.wf()
                &&& frame.spec_width() == width
                &&& frame.spec_height() == height
                &&& shaded_within(frame, regions@, shader)
                &&& forall|x: int, y: int|
                    in_frame(x, y, width, height) && !covered(regions@, x, y)
                        ==> #[trigger] frame.at(x, y) == Color::spec_black()
            },
            Err(error) => if width == 0 || height == 0 {
                error == FrameError::ZeroDimension
            } else {
                error == FrameError::OutOfBounds && !regions_fit(regions@, width, height)
            },
        },
{
    match FrameBuffer::new(width, height) {
        Err(error) => Err(error),
        Ok(mut frame) => {
            let mut i: usize = 0;
            while i < regions.len()
                invariant
                    i <= regions@.len(),
                    width > 0 && height > 0,
                    forall|k: int|
                        0 <= k < i ==> (#[trigger] regions@[k]).spec_fits(width, height),
                decreases regions@.len() - i,
            {
                if !regions[i].fits(width, height) {
                    return Err(FrameError::OutOfBounds);
                }
                i += 1;
            }
            let mut tiles = scratch_tiles(regions);
            proof {
                assert forall|i: int, x: usize, y: usize|
                    0 <= i < tiles@.len() && #[trigger] tiles@[i].spec_region().contains(
                        x as int,
                        y as int,
                    ) implies shader.requires((x, y)) by {
                    assert(regions_of(tiles@)[i].spec_fits(width, height));
                    tiles@[i].spec_region().fits_means_pixels_in_frame(width, height);
                }
            }
            let ghost blank = frame@;
            compute_tiles(&mut tiles, shader);
            proof {
                assert forall|i: int| 0 <= i < tiles@.len() implies (#[trigger] tiles@[i])
                    .spec_region().spec_fits(width, height) by {
                    assert(regions_of(tiles@)[i].spec_fits(width, height));
                }
            }
            paste_all(&mut frame, &tiles);
            proof {
                merged_tiles_shade_their_pixels(frame, blank, tiles@, shader);
            }
            Ok(frame)
        },
    }
}

/// Renders a frame through its four quadrants: the frame is cut at half its
/// width and half its height, each quadrant is computed with `shader` into
/// a scratch buffer of its own, and the scratch buffers are then copied into
/// the frame. `shader` is handed the column and the row of a pixel. A frame
/// without columns or without rows is refused.
pub fn render_tiled<F: Fn(usize, usize) -> Color>(
    width: usize,
    height: usize,
    shader: &F,
) -> (made: Result<FrameBuffer, FrameError>)
    requires
        forall|x: usize, y: usize|
            in_frame(x as int, y as int, width, height) ==> #[trigger] shader.requires((x, y)),
    ensures
        match made {
            Ok(frame) => {
                &&& width > 0 && height > 0
                &&& frame.wf()
                &&& frame.spec_width() == width
                &&& frame.spec_height() == height
                &&& frame.shaded_by(shader)
            },
            Err(error) => error == FrameError::ZeroDimension && (width == 0 || height == 0),
        },
{
    let regions = partition(width, height);
    match render_tiles(width, height, &regions, shader) {
        Err(error) => Err(error),
        Ok(frame) => {
            proof {
                shaded_within_a_cover(frame, regions@, shader);
            }
            Ok(frame)
        },
    }
}

/// Renders a frame pixel by pixel, row after row, straight into the frame.
/// `shader` is handed the column and the row of a pixel. A frame without
/// columns or without rows is refused.
pub fn render_direct<F: Fn(usize, usize) -> Color>(
    width: usize,
    height: usize,
    shader: &F,
) -> (made: Result<FrameBuffer, FrameError>)
    requires
        forall|x: usize, y: usize|
            in_frame(x as int, y as int, width, height) ==> #[trigger] shader.requires((x, y)),
    ensures
        match made {
            Ok(frame) => {
                &&& width > 0 && height > 0
                &&& frame.wf()
                &&& frame.spec_width() == width
                &&& frame.spec_height() == height
                &&& frame.shaded_by(shader)
            },
            Err(error) => error == FrameError::ZeroDimension && (width == 0 || height == 0),
        },
{
    match FrameBuffer::new(width, height) {
        Err(error) => Err(error),
        Ok(mut frame) => {
            let mut y: usize = 0;
            while y < height
                invariant
                    y <= height,
                    frame.wf(),
                    frame.spec_width() == width,
                    frame.spec_height() == height,
                    forall|x: usize, y: usize|
                        in_frame(x as int, y as int, width, height) ==> #[trigger] shader.requires(
                            (x, y),
                        ),
                    forall|x2: usize, y2: usize|
                        in_frame(x2 as int, y2 as int, width, height) && y2 < y ==> shader.ensures(
                            (x2, y2),
                            #[trigger] frame.at(x2 as int, y2 as int),
                        ),
                decreases height - y,
            {
                let mut x: usize = 0;
                while x < width
                    invariant
                        x <= width,
                        y < height,
                        frame.wf(),
                        frame.spec_width() == width,
                        frame.spec_height() == height,
                        forall|x: usize, y: usize|
                            in_frame(x as int, y as int, width, height)
                                ==> #[trigger] shader.requires((x, y)),
                        forall|x2: usize, y2: usize|
                            in_frame(x2 as int, y2 as int, width, height) && (y2 < y || (y2 == y
                                && x2 < x)) ==> shader.ensures(
                                (x2, y2),
                                #[trigger] frame.at(x2 as int, y2 as int),
                            ),
                    decreases width - x,
                {
                    let color = shader(x, y);
                    let ghost prior = frame;
                    frame.put(x, y, color);
                    proof {
                        assert forall|x2: usize, y2: usize|
                            in_frame(x2 as int, y2 as int, width, height) && (y2 < y || (y2 == y
                                && x2 < x + 1)) implies shader.ensures(
                            (x2, y2),
                            #[trigger] frame.at(x2 as int, y2 as int),
                        ) by {
                            if !(x2 == x && y2 == y) {
                                assert(frame.at(x2 as int, y2 as int) == prior.at(
                                    x2 as int,
                                    y2 as int,
                                ));
                            }
                        }
                    }
                    x += 1;
                }
                y += 1;
            }
            Ok(frame)
        },
    }
}

/// True when `shader` can return only one color for each pixel.
pub open spec fn one_color_per_pixel<F: Fn(usize, usize) -> Color>(shader: &F) -> bool {
    forall|x: usize, y: usize, first: Color, second: Color|
        #![trigger shader.ensures((x, y), first), shader.ensures((x, y), second)]
        shader.ensures((x, y), first) && shader.ensures((x, y), second) ==> first == second
}

/// Tiled and direct rendering agree: two frames of the same dimensions that
/// are both shaded by a shader that returns one color per pixel are equal,
/// pixel for pixel, however each of them was computed.
pub proof fn tiled_matches_direct<F: Fn(usize, usize) -> Color>(
    tiled: FrameBuffer,
    direct: FrameBuffer,
    shader: &F,
)
    requires
        tiled.wf(),
        direct.wf(),
        tiled.spec_width() == direct.spec_width(),
        tiled.spec_height() == direct.spec_height(),
        tiled.shaded_by(shader),
        direct.shaded_by(shader),
        one_color_per_pixel(shader),
    ensures
        tiled@ == direct@,
{
    assert forall|y: int| 0 <= y < tiled@.len() implies #[trigger] tiled@[y] =~= direct@[y] by {
        assert forall|x: int| 0 <= x < tiled@[y].len() implies tiled@[y][x] == direct@[y][x] by {
            let column = x as usize;
            let row = y as usize;
            assert(in_frame(column as int, row as int, tiled.spec_width(), tiled.spec_height()));
            assert(shader.ensures((column, row), tiled.at(column as int, row as int)));
            assert(shader.ensures((column, row), direct.at(column as int, row as int)));
        }
    }
    assert(tiled@ =~= direct@);
}

} // verus!
