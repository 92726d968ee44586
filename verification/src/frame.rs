//! The frame buffer and the scratch buffers of its tiles.

use vstd::prelude::*;
use crate::color::Color;
use crate::tile::{in_frame, Region};

verus! {

/// Why a frame operation was refused.
#[derive(Clone, Copy, Debug, PartialEq, Eq, Structural)]
pub enum FrameError {
    /// A frame was asked for with no columns or no rows.
    ZeroDimension,
    /// A pixel or a tile reaches outside the frame.
    OutOfBounds,
}

/// True when `grid` has `height` rows of `width` cells each.
pub open spec fn rectangular(grid: Seq<Seq<Color>>, width: usize, height: usize) -> bool {
    &&& grid.len() == height
    &&& forall|y: int| 0 <= y < grid.len() ==> (#[trigger] grid[y]).len() == width
}

/// True when every cell of `grid` is `color`.
pub open spec fn uniform(grid: Seq<Seq<Color>>, color: Color) -> bool {
    forall|x: int, y: int|
        0 <= y < grid.len() && 0 <= x < grid[y].len() ==> #[trigger] grid[y][x] == color
}

/// The rows of a grid of cells, as sequences.
pub open spec fn grid_of(rows: Seq<Vec<Color>>) -> Seq<Seq<Color>> {
    Seq::new(rows.len(), |y: int| rows[y]@)
}

/// A grid of `height` rows of `width` cells, all of them `color`.
fn filled(width: usize, height: usize, color: Color) -> (rows: Vec<Vec<Color>>)
    ensures
        rectangular(grid_of(rows@), width, height),
        uniform(grid_of(rows@), color),
{
    let mut rows: Vec<Vec<Color>> = Vec::new();
    let mut y: usize = 0;
    while y < height
        invariant
            y <= height,
            rows@.len() == y,
            forall|i: int| 0 <= i < y ==> (#[trigger] rows@[i])@.len() == width,
            forall|i: int, j: int| 0 <= i < y && 0 <= j < width ==> #[trigger] rows@[i]@[j] == color,
        decreases height - y,
    {
        let mut row: Vec<Color> = Vec::new();
        let mut x: usize = 0;
        while x < width
            invariant
                x <= width,
                row@.len() == x,
                forall|j: int| 0 <= j < x ==> #[trigger] row@[j] == color,
            decreases width - x,
        {
            row.push(color);
            x += 1;
        }
        rows.push(row);
        y += 1;
    }
    rows
}

/// A copy of a grid of cells.
fn copied(rows: &Vec<Vec<Color>>) -> (copy: Vec<Vec<Color>>)
    ensures
        grid_of(copy@) == grid_of(rows@),
{
    let mut copy: Vec<Vec<Color>> = Vec::new();
    let mut y: usize = 0;
    while y < rows.len()
        invariant
            y <= rows@.len(),
            copy@.len() == y,
            forall|i: int| 0 <= i < y ==> (#[trigger] copy@[i])@ == rows@[i]@,
        decreases rows@.len() - y,
    {
        let mut row: Vec<Color> = Vec::new();
        let mut x: usize = 0;
        while x < rows[y].len()
            invariant
                y < rows@.len(),
                x <= rows@[y as int]@.len(),
                row@.len() == x,
                forall|j: int| 0 <= j < x ==> #[trigger] row@[j] == rows@[y as int]@[j],
            decreases rows@[y as int]@.len() - x,
        {
            row.push(rows[y][x]);
            x += 1;
        }
        assert(row@ =~= rows@[y as int]@);
        copy.push(row);
        y += 1;
    }
    assert(grid_of(copy@) =~= grid_of(rows@));
    copy
}

/// The scratch buffer of one tile: a grid of exactly the tile's size, which a
/// worker fills without touching the frame or any other tile.
#[derive(Debug, PartialEq, Eq)]
pub struct Tile {
    region: Region,
    cells: Vec<Vec<Color>>,
}

impl View for Tile {
    type V = Seq<Seq<Color>>;

    /// The rows of the buffer, top row first.
    closed spec fn view(&self) -> Seq<Seq<Color>> {
        grid_of(self.cells@)
    }
}

impl Clone for Tile {
    /// A tile for the same region with the same colors.
    fn clone(&self) -> (copy: Tile)
        ensures
            copy@ == self@,
            copy.spec_region() == self.spec_region(),
    {
        Tile { region: self.region, cells: copied(&self.cells) }
    }
}

impl Tile {
    /// The part of the frame that the tile stands for.
    pub closed spec fn spec_region(&self) -> Region {
        self.region
    }

    /// The buffer has as many rows and columns as the region.
    pub open spec fn wf(&self) -> bool {
        rectangular(self@, self.spec_region().spec_width(), self.spec_region().spec_height())
    }

    /// The color held for pixel `(x, y)` of the frame.
    pub open spec fn at(&self, x: int, y: int) -> Color
        recommends
            self.spec_region().contains(x, y),
    {
        self@[y - self.spec_region().y_start][x - self.spec_region().x_start]
    }

    /// Every pixel of the tile holds a color that `shader` returns for it.
    pub open spec fn shaded_by<F: Fn(usize, usize) -> Color>(&self, shader: &F) -> bool {
        forall|x: usize, y: usize|
            self.spec_region().contains(x as int, y as int) ==> shader.ensures(
                (x, y),
                #[trigger] self.at(x as int, y as int),
            )
    }

    /// A black scratch buffer for `region`.
    pub fn new(region: Region) -> (tile: Tile)
        ensures
            tile.wf(),
            tile.spec_region() == region,
            uniform(tile@, Color::spec_black()),
    {
        Tile { region, cells: filled(region.width(), region.height(), Color::black()) }
    }

    /// The part of the frame that the tile stands for.
    #[verifier::when_used_as_spec(spec_region)]
    pub fn region(&self) -> (region: Region)
        ensures
            region == self.spec_region(),
    {
        self.region
    }

    /// The color held for pixel `(x, y)` of the frame, if the tile has it.
    pub fn get(&self, x: usize, y: usize) -> (color: Option<Color>)
        requires
            self.wf(),
        ensures
            color == if self.spec_region().contains(x as int, y as int) {
                Some(self.at(x as int, y as int))
            } else {
                None
            },
    {
        if self.region.contains_pixel(x, y) {
            assert(self@[y - self.region.y_start] == self.cells@[y - self.region.y_start]@);
            Some(self.cells[y - self.region.y_start][x - self.region.x_start])
        } else {
            None
        }
    }

    /// Computes every pixel of the tile with `shader`, which is handed the
    /// pixel's column and row in the frame.
    pub fn fill<F: Fn(usize, usize) -> Color>(&mut self, shader: &F)
        requires
            old(self).wf(),
            forall|x: usize, y: usize|
                old(self).spec_region().contains(x as int, y as int) ==> #[trigger] shader.requires(
                    (x, y),
                ),
        ensures
            final(self).wf(),
            final(self).spec_region() == old(self).spec_region(),
            final(self).shaded_by(shader),
    {
        let region = self.region;
        let width = region.width();
        let height = region.height();
        let mut row: usize = 0;
        while row < height
            invariant
                row <= height,
                width == region.spec_width(),
                height == region.spec_height(),
                self.region == region,
                self.wf(),
                forall|x: usize, y: usize|
                    region.contains(x as int, y as int) ==> #[trigger] shader.requires((x, y)),
                forall|x: usize, y: usize|
                    region.contains(x as int, y as int) && y < region.y_start + row
                        ==> shader.ensures((x, y), #[trigger] self.at(x as int, y as int)),
            decreases height - row,
        {
            let y: usize = region.y_start + row;
            let mut column: usize = 0;
            while column < width
                invariant
                    column <= width,
                    row < height,
                    y == region.y_start + row,
                    width == region.spec_width(),
                    height == region.spec_height(),
                    self.region == region,
                    self.wf(),
                    forall|x: usize, y: usize|
                        region.contains(x as int, y as int) ==> #[trigger] shader.requires((x, y)),
                    forall|x: usize, y2: usize|
                        region.contains(x as int, y2 as int) && (y2 < y || (y2 == y && x
                            < region.x_start + column)) ==> shader.ensures(
                            (x, y2),
                            #[trigger] self.at(x as int, y2 as int),
                        ),
                decreases width - column,
            {
                let x: usize = region.x_start + column;
                let color = shader(x, y);
                let ghost prior = *self;
                let ghost before = self@;
                assert(before[row as int] == self.cells@[row as int]@);
                self.cells[row][column] = color;
                proof {
                    assert(self@ =~= before.update(
                        row as int,
                        before[row as int].update(column as int, color),
                    ));
                    assert forall|x2: usize, y2: usize|
                        region.contains(x2 as int, y2 as int) && (y2 < y || (y2 == y && x2
                            < region.x_start + column + 1)) implies shader.ensures(
                        (x2, y2),
                        #[trigger] self.at(x2 as int, y2 as int),
                    ) by {
                        if y2 == y && x2 == x {
                            assert(self.at(x2 as int, y2 as int) == color);
                        } else {
                            assert(self.at(x2 as int, y2 as int) == prior.at(
                                x2 as int,
                                y2 as int,
                            ));
                        }
                    }
                }
                column += 1;
            }
            row += 1;
        }
    }
}

/// `grid` with the cells of `tile`'s region replaced by the tile's colors.
pub open spec fn overlay(grid: Seq<Seq<Color>>, tile: Tile) -> Seq<Seq<Color>> {
    Seq::new(
        grid.len(),
        |y: int|
            Seq::new(
                grid[y].len(),
                |x: int|
                    if tile.spec_region().contains(x, y) {
                        tile.at(x, y)
                    } else {
                        grid[y][x]
                    },
            ),
    )
}

/// The canonical grid of colors of one frame. Its dimensions are set when it
/// is made and never change.
#[derive(Debug, PartialEq, Eq)]
pub struct FrameBuffer {
    width: usize,
    height: usize,
    rows: Vec<Vec<Color>>,
}

impl View for FrameBuffer {
    type V = Seq<Seq<Color>>;

    /// The rows of the frame, top row first.
    closed spec fn view(&self) -> Seq<Seq<Color>> {
        grid_of(self.rows@)
    }
}

impl Clone for FrameBuffer {
    /// A frame of the same dimensions with the same colors.
    fn clone(&self) -> (copy: FrameBuffer)
        ensures
            copy@ == self@,
            copy.spec_width() == self.spec_width(),
            copy.spec_height() == self.spec_height(),
    {
        FrameBuffer { width: self.width, height: self.height, rows: copied(&self.rows) }
    }
}

impl FrameBuffer {
    /// Number of columns of the frame.
    pub closed spec fn spec_width(&self) -> usize {
        self.width
    }

    /// Number of rows of the frame.
    pub closed spec fn spec_height(&self) -> usize {
        self.height
    }

    /// The frame has at least one pixel, and as many rows and columns as its
    /// dimensions say.
    pub open spec fn wf(&self) -> bool {
        &&& self.spec_width() > 0
        &&& self.spec_height() > 0
        &&& rectangular(self@, self.spec_width(), self.spec_height())
    }

    /// The color of pixel `(x, y)`.
    pub open spec fn at(&self, x: int, y: int) -> Color
        recommends
            in_frame(x, y, self.spec_width(), self.spec_height()),
    {
        self@[y][x]
    }

    /// Every pixel of the frame holds a color that `shader` returns for it.
    pub open spec fn shaded_by<F: Fn(usize, usize) -> Color>(&self, shader: &F) -> bool {
        forall|x: usize, y: usize|
            in_frame(x as int, y as int, self.spec_width(), self.spec_height())
                ==> shader.ensures((x, y), #[trigger] self.at(x as int, y as int))
    }

    /// A black frame of `width` columns and `height` rows. A frame without
    /// columns or without rows is refused.
    pub fn new(width: usize, height: usize) -> (made: Result<FrameBuffer, FrameError>)
        ensures
            match made {
                Ok(frame) => {
                    &&& width > 0 && height > 0
                    &&& frame.wf()
                    &&& frame.spec_width() == width
                    &&& frame.spec_height() == height
                    &&& uniform(frame@, Color::spec_black())
                },
                Err(error) => error == FrameError::ZeroDimension && (width == 0 || height == 0),
            },
    {
        if width == 0 || height == 0 {
            Err(FrameError::ZeroDimension)
        } else {
            Ok(FrameBuffer { width, height, rows: filled(width, height, Color::black()) })
        }
    }

    /// Number of columns of the frame.
    #[verifier::when_used_as_spec(spec_width)]
    pub fn width(&self) -> (columns: usize)
        ensures
            columns == self.spec_width(),
    {
        self.width
    }

    /// Number of rows of the frame.
    #[verifier::when_used_as_spec(spec_height)]
    pub fn height(&self) -> (rows: usize)
        ensures
            rows == self.spec_height(),
    {
        self.height
    }

    /// The color of pixel `(x, y)`, if the frame has that pixel.
    pub fn get(&self, x: usize, y: usize) -> (color: Option<Color>)
        requires
            self.wf(),
        ensures
            color == if in_frame(x as int, y as int, self.spec_width(), self.spec_height()) {
                Some(self.at(x as int, y as int))
            } else {
                None
            },
    {
        if x < self.width && y < self.height {
            assert(self@[y as int] == self.rows@[y as int]@);
            Some(self.rows[y][x])
        } else {
            None
        }
    }

    /// Sets pixel `(x, y)` to `color`. A pixel outside the frame is refused
    /// and the frame stays as it was.
    pub fn set(&mut self, x: usize, y: usize, color: Color) -> (done: Result<(), FrameError>)
        requires
            old(self).wf(),
        ensures
            final(self).wf(),
            final(self).spec_width() == old(self).spec_width(),
            final(self).spec_height() == old(self).spec_height(),
            match done {
                Ok(_) => {
                    &&& in_frame(x as int, y as int, old(self).spec_width(), old(self).spec_height())
                    &&& final(self)@ == old(self)@.update(
                        y as int,
                        old(self)@[y as int].update(x as int, color),
                    )
                },
                Err(error) => {
                    &&& error == FrameError::OutOfBounds
                    &&& !in_frame(x as int, y as int, old(self).spec_width(), old(self).spec_height())
                    &&& final(self)@ == old(self)@
                },
            },
    {
        if x < self.width && y < self.height {
            self.put(x, y, color);
            Ok(())
        } else {
            Err(FrameError::OutOfBounds)
        }
    }

    /// Sets pixel `(x, y)` of the frame to `color`.
    pub(crate) fn put(&mut self, x: usize, y: usize, color: Color)
        requires
            old(self).wf(),
            in_frame(x as int, y as int, old(self).spec_width(), old(self).spec_height()),
        ensures
            final(self).wf(),
            final(self).spec_width() == old(self).spec_width(),
            final(self).spec_height() == old(self).spec_height(),
            final(self)@ == old(self)@.update(
                y as int,
                old(self)@[y as int].update(x as int, color),
            ),
    {
        assert(self@[y as int] == self.rows@[y as int]@);
        self.rows[y][x] = color;
        assert(self@ =~= old(self)@.update(
            y as int,
            old(self)@[y as int].update(x as int, color),
        ));
    }

    /// Copies a tile's scratch buffer into the part of the frame that the
    /// tile stands for; every other pixel keeps its color. A tile that
    /// reaches outside the frame is refused and the frame stays as it was.
    pub fn merge(&mut self, tile: &Tile) -> (done: Result<(), FrameError>)
        requires
            old(self).wf(),
            tile.wf(),
        ensures
            final(self).wf(),
            final(self).spec_width() == old(self).spec_width(),
            final(self).spec_height() == old(self).spec_height(),
            match done {
                Ok(_) => {
                    &&& tile.spec_region().spec_fits(old(self).spec_width(), old(self).spec_height())
                    &&& final(self)@ == overlay(old(self)@, *tile)
                },
                Err(error) => {
                    &&& error == FrameError::OutOfBounds
                    &&& !tile.spec_region().spec_fits(old(self).spec_width(), old(self).spec_height())
                    &&& final(self)@ == old(self)@
                },
            },
    {
        if tile.region.fits(self.width, self.height) {
            self.paste(tile);
            Ok(())
        } else {
            Err(FrameError::OutOfBounds)
        }
    }

    /// Copies the scratch buffer of a tile that fits the frame into the part
    /// of the frame that the tile stands for.
    pub(crate) fn paste(&mut self, tile: &Tile)
        requires
            old(self).wf(),
            tile.wf(),
            tile.spec_region().spec_fits(old(self).spec_width(), old(self).spec_height()),
        ensures
            final(self).wf(),
            final(self).spec_width() == old(self).spec_width(),
            final(self).spec_height() == old(self).spec_height(),
            final(self)@ == overlay(old(self)@, *tile),
    {
        let region = tile.region;
        let width = region.width();
        let height = region.height();
        let mut row: usize = 0;
        while row < height
            invariant
                row <= height,
                width == region.spec_width(),
                height == region.spec_height(),
                region == tile.spec_region(),
                region.spec_fits(self.spec_width(), self.spec_height()),
                tile.wf(),
                self.wf(),
                self.spec_width() == old(self).spec_width(),
                self.spec_height() == old(self).spec_height(),
                forall|x: int, y: int|
                    in_frame(x, y, self.spec_width(), self.spec_height()) ==> #[trigger] self.at(
                        x,
                        y,
                    ) == if region.contains(x, y) && y < region.y_start + row {
                        tile.at(x, y)
                    } else {
                        old(self).at(x, y)
                    },
            decreases height - row,
        {
            let y: usize = region.y_start + row;
            let mut column: usize = 0;
            while column < width
                invariant
                    column <= width,
                    row < height,
                    y == region.y_start + row,
                    width == region.spec_width(),
                    height == region.spec_height(),
                    region == tile.spec_region(),
                    region.spec_fits(self.spec_width(), self.spec_height()),
                    tile.wf(),
                    self.wf(),
                    self.spec_width() == old(self).spec_width(),
                    self.spec_height() == old(self).spec_height(),
                    forall|x: int, y2: int|
                        in_frame(x, y2, self.spec_width(), self.spec_height())
                            ==> #[trigger] self.at(x, y2) == if region.contains(x, y2) && (y2 < y
                            || (y2 == y && x < region.x_start + column)) {
                            tile.at(x, y2)
                        } else {
                            old(self).at(x, y2)
                        },
                decreases width - column,
            {
                let x: usize = region.x_start + column;
                let ghost prior = *self;
                assert(tile@[row as int] == tile.cells@[row as int]@);
                assert(self@[y as int] == self.rows@[y as int]@);
                let color = tile.cells[row][column];
                self.rows[y][x] = color;
                proof {
                    assert(self@ =~= prior@.update(
                        y as int,
                        prior@[y as int].update(x as int, color),
                    ));
                    assert forall|x2: int, y2: int|
                        in_frame(
                            x2,
                            y2,
                            self.spec_width(),
                            self.spec_height(),
                        ) implies #[trigger] self.at(x2, y2) == if region.contains(x2, y2) && (y2
                        < y || (y2 == y && x2 < region.x_start + column + 1)) {
                        tile.at(x2, y2)
                    } else {
                        old(self).at(x2, y2)
                    } by {
                        if !(y2 == y && x2 == x) {
                            assert(self.at(x2, y2) == prior.at(x2, y2));
                        }
                    }
                }
                column += 1;
            }
            row += 1;
        }
        proof {
            assert forall|y: int| 0 <= y < self@.len() implies #[trigger] self@[y] =~= overlay(
                old(self)@,
                *tile,
            )[y] by {
                assert forall|x: int| 0 <= x < self@[y].len() implies self@[y][x] == overlay(
                    old(self)@,
                    *tile,
                )[y][x] by {
                    assert(in_frame(x, y, self.spec_width(), self.spec_height()));
                    assert(self.at(x, y) == self@[y][x]);
                }
            }
            assert(self@ =~= overlay(old(self)@, *tile));
        }
    }
}

} // verus!
