use vstd::prelude::*;

verus! {

/// One coordinate of a tile on the map grid.
#[derive(Clone, Copy, Debug, PartialEq, Eq, Hash, PartialOrd, Ord, Structural)]
pub struct TilePos(pub i32);

/// The grid address of a tile. Tiles order by `x`, then by `y`.
#[derive(Clone, Copy, Debug, PartialEq, Eq, Hash, PartialOrd, Ord, Structural)]
pub struct Tile {
    pub x: TilePos,
    pub y: TilePos,
}

/// Largest distance from zero at which a tile can still carry a box around it.
pub const TILE_LIMIT: i32 = 2_000_000_000;

/// The tile with the given coordinates.
pub open spec fn tile_at(x: int, y: int) -> Tile {
    Tile { x: TilePos(x as i32), y: TilePos(y as i32) }
}

/// Half of the side length of a box, rounded down, for side lengths of at least one.
pub open spec fn box_half(side_length: int) -> int {
    if side_length <= 1 { 0 } else { (side_length - 1) / 2 }
}

/// Extra tile that a box of even side length gets on its lower and right edges.
pub open spec fn box_extra(side_length: int) -> int {
    if side_length <= 1 { 0 } else { (side_length - 1) % 2 }
}

/// Whether a tile is close enough to zero for boxes of small size around it.
pub open spec fn tile_in_range(t: Tile) -> bool {
    -TILE_LIMIT <= t.x.0 <= TILE_LIMIT && -TILE_LIMIT <= t.y.0 <= TILE_LIMIT
}

/// Number of columns walked by an iterator from `ul` to `lr`.
pub open spec fn span_width(ul: Tile, lr: Tile) -> int {
    if lr.x.0 >= ul.x.0 { lr.x.0 - ul.x.0 + 1 } else { 1 }
}

/// Number of rows walked by an iterator from `ul` to `lr`.
pub open spec fn span_height(ul: Tile, lr: Tile) -> int {
    if lr.y.0 >= ul.y.0 { lr.y.0 - ul.y.0 + 1 } else { 0 }
}

/// The tiles from `ul` to `lr`, row by row from the top, left to right in a row.
pub open spec fn span_tiles(ul: Tile, lr: Tile) -> Seq<Tile> {
    let w = span_width(ul, lr);
    Seq::new(
        (w * span_height(ul, lr)) as nat,
        |i: int| tile_at(ul.x.0 + i % w, ul.y.0 + i / w),
    )
}

/// The tiles of the box of the given side length around `center`.
pub open spec fn box_tiles(center: Tile, side_length: int) -> Seq<Tile> {
    let h = box_half(side_length);
    let e = box_extra(side_length);
    span_tiles(
        tile_at(center.x.0 - h, center.y.0 - h),
        tile_at(center.x.0 + h + e, center.y.0 + h + e),
    )
}

impl Tile {
    /// The tiles of the square box with the given side length around `center`.
    /// Where the side length is even, the box reaches one tile further right and down.
    /// A side length of one or less gives the center alone. The box must fit in the range of
    /// `i32`, with a row to spare below it.
    pub fn get_box(center: Tile, side_length: i32) -> (r: TileIterator)
        requires
            center.x.0 - box_half(side_length as int) >= i32::MIN,
            center.y.0 - box_half(side_length as int) >= i32::MIN,
            center.x.0 + box_half(side_length as int) + box_extra(side_length as int) <= i32::MAX,
            center.y.0 + box_half(side_length as int) + box_extra(side_length as int) < i32::MAX,
        ensures
            r.wf(),
            r.upper_left == tile_at(center.x.0 - box_half(side_length as int), center.y.0 - box_half(side_length as int)),
            r.lower_right == tile_at(
                center.x.0 + box_half(side_length as int) + box_extra(side_length as int),
                center.y.0 + box_half(side_length as int) + box_extra(side_length as int),
            ),
            r.remaining() == box_tiles(center, side_length as int),
    {
        let (half, extra): (i32, i32) = if side_length <= 1 {
            (0, 0)
        } else {
            ((side_length - 1) / 2, (side_length - 1) % 2)
        };
        let upper_left = Tile { x: TilePos(center.x.0 - half), y: TilePos(center.y.0 - half) };
        let lower_right = Tile {
            x: TilePos(center.x.0 + half + extra),
            y: TilePos(center.y.0 + half + extra),
        };
        TileIterator::new(upper_left, lower_right)
    }
}

/// Walks the tiles from an upper left to a lower right corner, row by row from the
/// top, left to right within a row.
pub struct TileIterator {
    pub upper_left: Tile,
    pub lower_right: Tile,
    pub x: TilePos,
    pub y: TilePos,
}

impl TileIterator {
    /// Whether the position lies within the walked rectangle, or one row below it.
    pub open spec fn wf(&self) -> bool {
        &&& self.lower_right.y.0 < i32::MAX
        &&& self.upper_left.x.0 <= self.x.0
        &&& self.x.0 <= self.upper_left.x.0 + span_width(self.upper_left, self.lower_right) - 1
        &&& self.upper_left.y.0 <= self.y.0
        &&& self.y.0 <= self.upper_left.y.0 + span_height(self.upper_left, self.lower_right)
        &&& (self.y.0 == self.upper_left.y.0 + span_height(self.upper_left, self.lower_right)
            ==> self.x.0 == self.upper_left.x.0)
    }

    /// How many tiles have been handed out.
    pub open spec fn walked(&self) -> int {
        (self.y.0 - self.upper_left.y.0) * span_width(self.upper_left, self.lower_right) + (
        self.x.0 - self.upper_left.x.0)
    }

    /// The tiles still to come.
    pub open spec fn remaining(&self) -> Seq<Tile> {
        span_tiles(self.upper_left, self.lower_right).skip(self.walked())
    }

    /// An iterator that starts at `upper_left`.
    pub fn new(upper_left: Tile, lower_right: Tile) -> (r: Self)
        requires
            lower_right.y.0 < i32::MAX,
        ensures
            r.wf(),
            r.upper_left == upper_left,
            r.lower_right == lower_right,
            r.x == upper_left.x,
            r.y == upper_left.y,
            r.remaining() == span_tiles(upper_left, lower_right),
    {
        let r = TileIterator { upper_left, lower_right, x: upper_left.x, y: upper_left.y };
        assert(r.walked() == 0) by {
            let w = span_width(upper_left, lower_right);
            assert(0 * w == 0) by (nonlinear_arith);
        }
        r
    }

    /// The next tile, or `None` once all rows are walked.
    pub fn next(&mut self) -> (r: Option<Tile>)
        requires
            old(self).wf(),
        ensures
            final(self).wf(),
            final(self).upper_left == old(self).upper_left,
            final(self).lower_right == old(self).lower_right,
            old(self).remaining().len() == 0 ==> r is None && *final(self) == *old(self),
            old(self).remaining().len() > 0 ==> r == Some(old(self).remaining()[0])
                && final(self).remaining() == old(self).remaining().skip(1),
    {
        proof {
            self.lemma_walked();
        }
        if self.y.0 > self.lower_right.y.0 {
            return None;
        }
        let result = Tile { x: self.x, y: self.y };
        if self.x.0 < self.lower_right.x.0 {
            self.x = TilePos(self.x.0 + 1);
        } else {
            self.x = self.upper_left.x;
            self.y = TilePos(self.y.0 + 1);
        }
        proof {
            self.lemma_walked();
            let w = span_width(self.upper_left, self.lower_right);
            let row = old(self).y.0 - self.upper_left.y.0;
            assert((row + 1) * w == row * w + w) by (nonlinear_arith);
            assert(self.walked() == old(self).walked() + 1);
            assert(final(self).remaining() =~= old(self).remaining().skip(1));
        }
        Some(result)
    }

    /// Relates the position to the number of tiles handed out.
    proof fn lemma_walked(&self)
        requires
            self.wf(),
        ensures
            0 <= self.walked() <= span_width(self.upper_left, self.lower_right) * span_height(
                self.upper_left,
                self.lower_right,
            ),
            self.y.0 <= self.lower_right.y.0 <==> self.walked() < span_width(
                self.upper_left,
                self.lower_right,
            ) * span_height(self.upper_left, self.lower_right),
            self.y.0 <= self.lower_right.y.0 ==> span_tiles(self.upper_left, self.lower_right)[self.walked()]
                == tile_at(self.x.0 as int, self.y.0 as int),
    {
        let w = span_width(self.upper_left, self.lower_right);
        let h = span_height(self.upper_left, self.lower_right);
        let row = self.y.0 - self.upper_left.y.0;
        let col = self.x.0 - self.upper_left.x.0;
        assert(0 <= row * w) by (nonlinear_arith)
            requires 0 <= row, 0 < w;
        assert(row * w + col <= w * h <==> row < h || (row == h && col == 0)) by (nonlinear_arith)
            requires 0 <= row <= h, 0 <= col < w;
        if row < h {
            assert(row * w + col < w * h) by (nonlinear_arith)
                requires 0 <= row < h, 0 <= col < w;
            vstd::arithmetic::div_mod::lemma_fundamental_div_mod_converse(row * w + col, w, row, col);
        } else {
            assert(row * w == w * h) by (nonlinear_arith)
                requires row == h;
        }
    }

    /// Every tile that is still to come, in order.
    pub fn collect_tiles(&mut self) -> (r: Vec<Tile>)
        requires
            old(self).wf(),
        ensures
            r@ == old(self).remaining(),
    {
        let mut r: Vec<Tile> = Vec::new();
        let ghost start = self.remaining();
        loop
            invariant
                self.wf(),
                self.upper_left == old(self).upper_left,
                self.lower_right == old(self).lower_right,
                start == old(self).remaining(),
                start == r@ + self.remaining(),
            decreases self.remaining().len(),
        {
            match self.next() {
                Some(t) => {
                    r.push(t);
                    assert(start =~= r@ + self.remaining());
                },
                None => {
                    assert(r@ =~= start);
                    return r;
                },
            }
        }
    }
}

} // verus!
