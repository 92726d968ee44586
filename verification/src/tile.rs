//! Rectangular regions of a frame and the partition of a frame into tiles.

use vstd::prelude::*;

verus! {

/// A rectangle of pixels: columns `x_start..x_end` of rows `y_start..y_end`.
/// As with a range, a start at or past its end makes the region empty.
#[derive(Clone, Copy, Debug, PartialEq, Eq, Structural)]
pub struct Region {
    pub y_start: usize,
    pub y_end: usize,
    pub x_start: usize,
    pub x_end: usize,
}

/// True when `(x, y)` is a pixel of a `width` by `height` frame.
pub open spec fn in_frame(x: int, y: int, width: usize, height: usize) -> bool {
    0 <= x < width && 0 <= y < height
}

impl Region {
    /// True when pixel `(x, y)` lies in the region.
    pub open spec fn contains(&self, x: int, y: int) -> bool {
        self.x_start <= x < self.x_end && self.y_start <= y < self.y_end
    }

    /// Number of columns of the region.
    pub open spec fn spec_width(&self) -> usize {
        if self.x_start <= self.x_end {
            (self.x_end - self.x_start) as usize
        } else {
            0
        }
    }

    /// Number of rows of the region.
    pub open spec fn spec_height(&self) -> usize {
        if self.y_start <= self.y_end {
            (self.y_end - self.y_start) as usize
        } else {
            0
        }
    }

    /// True when the region holds no pixel.
    pub open spec fn spec_is_empty(&self) -> bool {
        self.x_start >= self.x_end || self.y_start >= self.y_end
    }

    /// True when every pixel of the region is a pixel of a `width` by
    /// `height` frame.
    pub open spec fn spec_fits(&self, width: usize, height: usize) -> bool {
        self.spec_is_empty() || (self.x_end <= width && self.y_end <= height)
    }

    /// Tells whether pixel `(x, y)` lies in the region.
    pub fn contains_pixel(&self, x: usize, y: usize) -> (inside: bool)
        ensures
            inside == self.contains(x as int, y as int),
    {
        self.x_start <= x && x < self.x_end && self.y_start <= y && y < self.y_end
    }

    /// Number of columns of the region.
    #[verifier::when_used_as_spec(spec_width)]
    pub fn width(&self) -> (columns: usize)
        ensures
            columns == self.spec_width(),
    {
        if self.x_start <= self.x_end {
            self.x_end - self.x_start
        } else {
            0
        }
    }

    /// Number of rows of the region.
    #[verifier::when_used_as_spec(spec_height)]
    pub fn height(&self) -> (rows: usize)
        ensures
            rows == self.spec_height(),
    {
        if self.y_start <= self.y_end {
            self.y_end - self.y_start
        } else {
            0
        }
    }

    /// Tells whether the region holds no pixel.
    #[verifier::when_used_as_spec(spec_is_empty)]
    pub fn is_empty(&self) -> (empty: bool)
        ensures
            empty == self.spec_is_empty(),
    {
        self.x_start >= self.x_end || self.y_start >= self.y_end
    }

    /// Tells whether every pixel of the region is a pixel of a `width` by
    /// `height` frame.
    #[verifier::when_used_as_spec(spec_fits)]
    pub fn fits(&self, width: usize, height: usize) -> (inside: bool)
        ensures
            inside == self.spec_fits(width, height),
    {
        self.is_empty() || (self.x_end <= width && self.y_end <= height)
    }

    /// A region fits a frame exactly when each of its pixels is in the frame.
    pub proof fn fits_means_pixels_in_frame(&self, width: usize, height: usize)
        ensures
            self.spec_fits(width, height) <==> (forall|x: int, y: int| #[trigger]
                self.contains(x, y) ==> in_frame(x, y, width, height)),
    {
        if !self.spec_is_empty() {
            assert(self.contains(self.x_end - 1, self.y_end - 1));
        }
    }
}

/// True when some region of `tiles` holds pixel `(x, y)`.
pub open spec fn covered(tiles: Seq<Region>, x: int, y: int) -> bool {
    exists|i: int| 0 <= i < tiles.len() && #[trigger] tiles[i].contains(x, y)
}

/// True when every region of `regions` fits a `width` by `height` frame.
pub open spec fn regions_fit(regions: Seq<Region>, width: usize, height: usize) -> bool {
    forall|i: int| 0 <= i < regions.len() ==> (#[trigger] regions[i]).spec_fits(width, height)
}

/// True when `tiles` cut a `width` by `height` frame into pieces that do not
/// overlap: no tile reaches outside the frame, every pixel of the frame is
/// in some tile, and no pixel is in two tiles.
pub open spec fn exact_cover(tiles: Seq<Region>, width: usize, height: usize) -> bool {
    &&& regions_fit(tiles, width, height)
    &&& forall|x: int, y: int|
        in_frame(x, y, width, height) ==> #[trigger] covered(tiles, x, y)
    &&& forall|i: int, j: int, x: int, y: int|
        0 <= i < j < tiles.len() && #[trigger] tiles[i].contains(x, y)
            ==> !#[trigger] tiles[j].contains(x, y)
}

/// The four quadrants of a frame, top row first and left before right. Width
/// and height are each cut at their half, rounded down, so the right and the
/// bottom quadrants take the odd column and the odd row.
pub open spec fn quadrants(width: usize, height: usize) -> Seq<Region> {
    let x_mid = (width / 2) as usize;
    let y_mid = (height / 2) as usize;
    seq![
        Region { y_start: 0, y_end: y_mid, x_start: 0, x_end: x_mid },
        Region { y_start: 0, y_end: y_mid, x_start: x_mid, x_end: width },
        Region { y_start: y_mid, y_end: height, x_start: 0, x_end: x_mid },
        Region { y_start: y_mid, y_end: height, x_start: x_mid, x_end: width },
    ]
}

/// Every pixel of a frame lies in exactly one of its four quadrants, and the
/// quadrants hold no pixel outside the frame.
pub proof fn quadrants_cover_frame_once(width: usize, height: usize)
    ensures
        exact_cover(quadrants(width, height), width, height),
{
    let tiles = quadrants(width, height);
    let x_mid = (width / 2) as int;
    let y_mid = (height / 2) as int;
    assert forall|x: int, y: int| in_frame(x, y, width, height) implies #[trigger] covered(
        tiles,
        x,
        y,
    ) by {
        let i: int = if y < y_mid {
            if x < x_mid { 0 } else { 1 }
        } else {
            if x < x_mid { 2 } else { 3 }
        };
        assert(tiles[i].contains(x, y));
    }
}

/// Cuts a frame into its four quadrants.
pub fn partition(width: usize, height: usize) -> (tiles: Vec<Region>)
    ensures
        tiles@ == quadrants(width, height),
        exact_cover(tiles@, width, height),
{
    let x_mid: usize = width / 2;
    let y_mid: usize = height / 2;
    let mut tiles: Vec<Region> = Vec::new();
    tiles.push(Region { y_start: 0, y_end: y_mid, x_start: 0, x_end: x_mid });
    tiles.push(Region { y_start: 0, y_end: y_mid, x_start: x_mid, x_end: width });
    tiles.push(Region { y_start: y_mid, y_end: height, x_start: 0, x_end: x_mid });
    tiles.push(Region { y_start: y_mid, y_end: height, x_start: x_mid, x_end: width });
    proof {
        assert(tiles@ =~= quadrants(width, height));
        quadrants_cover_frame_once(width, height);
    }
    tiles
}

} // verus!
