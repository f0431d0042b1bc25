use vstd::prelude::*;
use crate::constants::{NUMBER_OF_TILES_X, NUMBER_OF_TILES_Y, SCREEN_HEIGHT, SCREEN_WIDTH};
use crate::tile::{span_tiles, tile_at, Tile, TileIterator, TilePos};

verus! {

/// A longitude or latitude, in millionths of a degree.
#[derive(Clone, Copy, Debug, PartialEq, Eq, Hash, PartialOrd, Ord, Structural)]
pub struct Degree(pub i64);

/// Western edge of the default view.
pub const JAPAN_LEFT: i64 = 127_590_000;
/// Eastern edge of the default view.
pub const JAPAN_RIGHT: i64 = 145_770_000;
/// Northern edge of the default view.
pub const JAPAN_TOP: i64 = 46_500_000;
/// Southern edge of the default view.
pub const JAPAN_BOTTOM: i64 = 25_900_000;
/// Longitude of the left edge of tile column zero.
pub const JAPAN_CENTER_LONG: i64 = 137_710_620;
/// Latitude of the top edge of tile row zero.
pub const JAPAN_CENTER_LAT: i64 = 36_035_645;

/// The width of a view can be no less than this.
pub const MIN_ZOOM: i64 = 10_000;
/// The width of a view can be no greater than this.
pub const MAX_ZOOM: i64 = 80_000_000;
/// The height of a view can be no greater than this.
pub const MAX_HEIGHT: i64 = 1_000_000_000;

/// Bound on every corner of a view.
pub const FRAME_LIMIT: i64 = 1_000_000_000_000;
/// Bound on every coordinate that the map handles.
pub const COORD_LIMIT: i64 = 2_000_000_000_000;

/// Scroll amounts, in thousandths, are clamped to this magnitude.
pub const SCROLL_DIFF_MAX: i32 = 30_000;

/// A point on the map.
#[derive(Clone, Copy, Debug, PartialEq, Eq, Structural)]
pub struct MapCoord {
    pub long: Degree,
    pub lat: Degree,
}

impl MapCoord {
    /// Whether the coordinate lies within the range the map handles.
    pub open spec fn wf(&self) -> bool {
        -COORD_LIMIT <= self.long.0 <= COORD_LIMIT && -COORD_LIMIT <= self.lat.0 <= COORD_LIMIT
    }
}

/// Division of `a` by a positive `b`, rounded toward zero.
pub open spec fn trunc_div(a: int, b: int) -> int {
    if a >= 0 { a / b } else { -((-a) / b) }
}

/// `v` limited to the range of `i32`.
pub open spec fn clamp_i32(v: int) -> int {
    if v > i32::MAX { i32::MAX as int } else if v < i32::MIN { i32::MIN as int } else { v }
}

/// Division rounded toward zero, on values whose magnitude stays well inside `i128`.
pub fn div_trunc(a: i128, b: i128) -> (r: i128)
    requires
        b > 0,
        -0x100_0000_0000_0000_0000_0000_0000_0000 < a < 0x100_0000_0000_0000_0000_0000_0000_0000,
    ensures
        r == trunc_div(a as int, b as int),
{
    if a >= 0 {
        a / b
    } else {
        let n: i128 = -a;
        -(n / b)
    }
}

proof fn lemma_trunc_div_monotonic(a: int, b: int, d: int)
    requires
        a <= b,
        d > 0,
    ensures
        trunc_div(a, d) <= trunc_div(b, d),
{
    if a >= 0 {
        vstd::arithmetic::div_mod::lemma_div_is_ordered(a, b, d);
    } else if b >= 0 {
        vstd::arithmetic::div_mod::lemma_div_pos_is_pos(-a, d);
        vstd::arithmetic::div_mod::lemma_div_pos_is_pos(b, d);
    } else {
        vstd::arithmetic::div_mod::lemma_div_is_ordered(-b, -a, d);
    }
}

proof fn lemma_trunc_div_bound(a: int, b: int, m: int)
    requires
        b > 0,
        -m <= a <= m,
    ensures
        -m <= trunc_div(a, b) <= m,
{
    if a >= 0 {
        vstd::arithmetic::div_mod::lemma_div_is_ordered_by_denominator(a, 1, b);
        vstd::arithmetic::div_mod::lemma_div_pos_is_pos(a, b);
    } else {
        vstd::arithmetic::div_mod::lemma_div_is_ordered_by_denominator(-a, 1, b);
        vstd::arithmetic::div_mod::lemma_div_pos_is_pos(-a, b);
    }
}

proof fn lemma_trunc_div_neg(a: int, b: int)
    requires
        b > 0,
    ensures
        trunc_div(-a, b) == -trunc_div(a, b),
{
}

/// The tile index of a point `offset` from the origin, with `tiles` tiles over `extent`.
pub open spec fn tile_index(offset: int, tiles: int, extent: int) -> int {
    clamp_i32(trunc_div(offset * tiles, extent))
}

/// A rectangle of the map: the part on screen.
#[derive(Clone, Copy, Debug, PartialEq, Eq, Structural)]
pub struct MapFrame {
    pub upper_left: MapCoord,
    pub lower_right: MapCoord,
}

impl MapFrame {
    /// Extent from west to east.
    pub open spec fn width_spec(&self) -> int {
        self.lower_right.long.0 - self.upper_left.long.0
    }

    /// Extent from north to south.
    pub open spec fn height_spec(&self) -> int {
        self.upper_left.lat.0 - self.lower_right.lat.0
    }

    /// Corners within bounds, width within the zoom limits and a positive height.
    pub open spec fn wf(&self) -> bool {
        &&& -FRAME_LIMIT <= self.upper_left.long.0 <= FRAME_LIMIT
        &&& -FRAME_LIMIT <= self.upper_left.lat.0 <= FRAME_LIMIT
        &&& -FRAME_LIMIT <= self.lower_right.long.0 <= FRAME_LIMIT
        &&& -FRAME_LIMIT <= self.lower_right.lat.0 <= FRAME_LIMIT
        &&& MIN_ZOOM <= self.width_spec() <= MAX_ZOOM
        &&& 0 < self.height_spec() <= MAX_HEIGHT
    }

    /// The tile that holds `coord` in this frame.
    pub open spec fn tile_of(&self, coord: MapCoord) -> Tile {
        tile_at(
            tile_index(coord.long.0 - JAPAN_CENTER_LONG, NUMBER_OF_TILES_X as int, self.width_spec()),
            tile_index(JAPAN_CENTER_LAT - coord.lat.0, NUMBER_OF_TILES_Y as int, self.height_spec()),
        )
    }

    /// The view that fits most of Japan.
    pub open spec fn default_spec() -> MapFrame {
        MapFrame {
            upper_left: MapCoord { long: Degree(JAPAN_LEFT), lat: Degree(JAPAN_TOP) },
            lower_right: MapCoord { long: Degree(JAPAN_RIGHT), lat: Degree(JAPAN_BOTTOM) },
        }
    }

    /// The view that fits most of Japan.
    pub fn default_frame() -> (r: MapFrame)
        ensures
            r == Self::default_spec(),
            r.wf(),
    {
        MapFrame {
            upper_left: MapCoord { long: Degree(JAPAN_LEFT), lat: Degree(JAPAN_TOP) },
            lower_right: MapCoord { long: Degree(JAPAN_RIGHT), lat: Degree(JAPAN_BOTTOM) },
        }
    }

    /// How many degrees of longitude and latitude one screen pixel spans, rounded down.
    pub fn get_degrees_per_pixel(&self) -> (r: (Degree, Degree))
        requires
            self.wf(),
        ensures
            r.0.0 == self.width_spec() / SCREEN_WIDTH as int,
            r.1.0 == self.height_spec() / SCREEN_HEIGHT as int,
    {
        (Degree(self.width().0 / SCREEN_WIDTH as i64), Degree(self.height().0 / SCREEN_HEIGHT as i64))
    }

    pub fn width(&self) -> (r: Degree)
        requires
            self.wf(),
        ensures
            r.0 == self.width_spec(),
    {
        Degree(self.lower_right.long.0 - self.upper_left.long.0)
    }

    pub fn height(&self) -> (r: Degree)
        requires
            self.wf(),
        ensures
            r.0 == self.height_spec(),
    {
        Degree(self.upper_left.lat.0 - self.lower_right.lat.0)
    }

    /// The tile that contains the given map coordinate. Offsets are measured from a fixed
    /// origin, divided by the extent of one tile and rounded toward zero; they saturate at the
    /// bounds of `i32`.
    pub fn get_tile(&self, coord: MapCoord) -> (r: Tile)
        requires
            self.wf(),
            coord.wf(),
        ensures
            r == self.tile_of(coord),
    {
        let dx: i128 = (coord.long.0 - JAPAN_CENTER_LONG) as i128;
        let dy: i128 = (JAPAN_CENTER_LAT - coord.lat.0) as i128;
        proof {
            assert(-COORD_LIMIT * 400 <= dx * 200 <= COORD_LIMIT * 400) by (nonlinear_arith)
                requires -COORD_LIMIT * 2 <= dx <= COORD_LIMIT * 2;
            assert(-COORD_LIMIT * 400 <= dy * 150 <= COORD_LIMIT * 400) by (nonlinear_arith)
                requires -COORD_LIMIT * 2 <= dy <= COORD_LIMIT * 2;
        }
        let off_x: i128 = dx * NUMBER_OF_TILES_X as i128;
        let off_y: i128 = dy * NUMBER_OF_TILES_Y as i128;
        let tx = div_trunc(off_x, self.width().0 as i128);
        let ty = div_trunc(off_y, self.height().0 as i128);
        Tile { x: TilePos(saturate_i32(tx)), y: TilePos(saturate_i32(ty)) }
    }

    /// The tiles on screen, row by row from the top.
    pub fn visible_tiles(&self) -> (r: TileIterator)
        requires
            self.wf(),
            self.tile_of(self.lower_right).y.0 < i32::MAX,
        ensures
            r.wf(),
            r.remaining() == span_tiles(self.tile_of(self.upper_left), self.tile_of(self.lower_right)),
    {
        let upper_left = self.get_tile(self.upper_left);
        let lower_right = self.get_tile(self.lower_right);
        TileIterator::new(upper_left, lower_right)
    }

    /// The map coordinate of a screen pixel: the corner of the frame moved by the pixel
    /// offset, scaled from screen size to frame size and rounded toward zero.
    pub fn get_map_coord(&self, pixel_x: i16, pixel_y: i16) -> (r: MapCoord)
        requires
            self.wf(),
        ensures
            r.wf(),
            r.long.0 == self.upper_left.long.0 + trunc_div(self.width_spec() * pixel_x, SCREEN_WIDTH as int),
            r.lat.0 == self.upper_left.lat.0 - trunc_div(self.height_spec() * pixel_y, SCREEN_HEIGHT as int),
    {
        let w = self.width().0 as i128;
        let h = self.height().0 as i128;
        proof {
            assert(-MAX_ZOOM * 32768 <= w * pixel_x <= MAX_ZOOM * 32768) by (nonlinear_arith)
                requires 0 < w <= MAX_ZOOM, -32768 <= pixel_x <= 32767;
            assert(-MAX_HEIGHT * 32768 <= h * pixel_y <= MAX_HEIGHT * 32768) by (nonlinear_arith)
                requires 0 < h <= MAX_HEIGHT, -32768 <= pixel_y <= 32767;
            lemma_trunc_div_bound(w * pixel_x, SCREEN_WIDTH as int, MAX_ZOOM * 32768);
            lemma_trunc_div_bound(h * pixel_y, SCREEN_HEIGHT as int, MAX_HEIGHT * 32768);
        }
        let dx = div_trunc(w * pixel_x as i128, SCREEN_WIDTH as i128);
        let dy = div_trunc(h * pixel_y as i128, SCREEN_HEIGHT as i128);
        MapCoord {
            long: Degree(self.upper_left.long.0 + dx as i64),
            lat: Degree(self.upper_left.lat.0 - dy as i64),
        }
    }

    /// Fraction, in millionths, by which the bounds are widened for the visibility test.
    pub open spec fn margin_spec(&self) -> int {
        if self.height_spec() < 50_000 { 150_000 - self.height_spec() } else { 0 }
    }

    /// Whether `coord` lies in the frame widened by its margin on each side.
    pub open spec fn is_visible_spec(&self, coord: MapCoord) -> bool {
        let mx = self.width_spec() * self.margin_spec() / 1_000_000;
        let my = self.height_spec() * self.margin_spec() / 1_000_000;
        &&& self.upper_left.long.0 - mx <= coord.long.0
        &&& coord.long.0 <= self.lower_right.long.0 + mx
        &&& coord.lat.0 <= self.upper_left.lat.0 + my
        &&& self.lower_right.lat.0 - my <= coord.lat.0
    }

    /// Whether `coord` is inside the frame, widened when zoomed in closely so that things just
    /// off screen are still drawn. The margin is none for a height of 0.05 degrees or more, else
    /// `0.10 + (0.05 - height)` of the frame's size.
    pub fn is_visible(&self, coord: MapCoord) -> (r: bool)
        requires
            self.wf(),
            coord.wf(),
        ensures
            r == self.is_visible_spec(coord),
    {
        let h = self.height().0;
        let w = self.width().0;
        let margin: i64 = if h < 50_000 { 150_000 - h } else { 0 };
        proof {
            assert(0 <= w * margin <= MAX_ZOOM * 150_000) by (nonlinear_arith)
                requires 0 < w <= MAX_ZOOM, 0 <= margin <= 150_000;
            assert(0 <= h * margin <= 50_000 * 150_000) by (nonlinear_arith)
                requires 0 < h, 0 <= margin <= 150_000, margin > 0 ==> h < 50_000;
        }
        let mx = w * margin / 1_000_000;
        let my = h * margin / 1_000_000;
        self.upper_left.long.0 - mx <= coord.long.0 && coord.long.0 <= self.lower_right.long.0 + mx
            && coord.lat.0 <= self.upper_left.lat.0 + my && self.lower_right.lat.0 - my <= coord.lat.0
    }

    /// Side length, in tiles, of a station at this zoom level.
    pub open spec fn station_width_spec(&self) -> int {
        let h = self.height_spec();
        if h < 20_000 {
            5
        } else if h < 50_000 {
            4
        } else if h < 100_000 {
            3
        } else if h < 300_000 {
            2
        } else {
            1
        }
    }

    /// How many tiles (on one side) to use to draw a station.
    pub fn station_width(&self) -> (r: i32)
        requires
            self.wf(),
        ensures
            r == self.station_width_spec(),
            1 <= r <= 5,
    {
        let h = self.height().0;
        if h < 20_000 {
            5
        } else if h < 50_000 {
            4
        } else if h < 100_000 {
            3
        } else if h < 300_000 {
            2
        } else {
            1
        }
    }

    /// Side length, in tiles, of a piece of track at this zoom level.
    pub open spec fn track_width_spec(&self) -> int {
        if self.height_spec() < 60_000 { 2 } else { 1 }
    }

    /// How many tiles (on one side) to use to draw a track piece.
    pub fn track_width(&self) -> (r: i32)
        requires
            self.wf(),
        ensures
            r == self.track_width_spec(),
            1 <= r <= 2,
    {
        if self.height().0 < 60_000 {
            2
        } else {
            1
        }
    }

    /// Brightness (0 to 9) of station names at this zoom level.
    pub open spec fn font_level_spec(&self) -> int {
        let h = self.height_spec();
        if h < 15_000 {
            9
        } else if h < 17_500 {
            8
        } else if h < 20_000 {
            7
        } else if h < 25_000 {
            6
        } else if h < 30_000 {
            5
        } else if h < 35_000 {
            4
        } else if h < 40_000 {
            3
        } else if h < 45_000 {
            2
        } else if h < 50_000 {
            1
        } else {
            0
        }
    }

    /// How bright/emphasized (0-9) station names should be at the current zoom level.
    pub fn font_level(&self) -> (r: usize)
        requires
            self.wf(),
        ensures
            r == self.font_level_spec(),
            r <= 9,
    {
        let h = self.height().0;
        if h < 15_000 {
            9
        } else if h < 17_500 {
            8
        } else if h < 20_000 {
            7
        } else if h < 25_000 {
            6
        } else if h < 30_000 {
            5
        } else if h < 35_000 {
            4
        } else if h < 40_000 {
            3
        } else if h < 45_000 {
            2
        } else if h < 50_000 {
            1
        } else {
            0
        }
    }
}

impl Default for MapFrame {
    /// The view that fits most of Japan.
    fn default() -> (r: MapFrame)
        ensures
            r == MapFrame::default_spec(),
    {
        MapFrame::default_frame()
    }
}

/// `v` limited to the range of `i32`.
pub fn saturate_i32(v: i128) -> (r: i32)
    ensures
        r == clamp_i32(v as int),
{
    if v > i32::MAX as i128 {
        i32::MAX
    } else if v < i32::MIN as i128 {
        i32::MIN
    } else {
        v as i32
    }
}


impl MapCoord {
    /// Squared distance to `other`, measured in degree space.
    pub open spec fn distance_sq(&self, other: MapCoord) -> int {
        let dl = self.long.0 - other.long.0;
        let dt = self.lat.0 - other.lat.0;
        dl * dl + dt * dt
    }

    /// The straight-line distance to `other` in degree space, rounded down.
    pub fn distance_to(&self, other: &MapCoord) -> (r: Degree)
        requires
            self.wf(),
            other.wf(),
        ensures
            r.0 >= 0,
            r.0 * r.0 <= self.distance_sq(*other) < (r.0 + 1) * (r.0 + 1),
    {
        let dl: i128 = self.long.0 as i128 - other.long.0 as i128;
        let dt: i128 = self.lat.0 as i128 - other.lat.0 as i128;
        let al: u128 = if dl >= 0 { dl as u128 } else { (-dl) as u128 };
        let at: u128 = if dt >= 0 { dt as u128 } else { (-dt) as u128 };
        proof {
            assert(al * al <= 16_000_000_000_000_000_000_000_000) by (nonlinear_arith)
                requires al <= 4_000_000_000_000;
            assert(at * at <= 16_000_000_000_000_000_000_000_000) by (nonlinear_arith)
                requires at <= 4_000_000_000_000;
            assert(al * al == dl * dl) by (nonlinear_arith)
                requires al == dl || al == -dl;
            assert(at * at == dt * dt) by (nonlinear_arith)
                requires at == dt || at == -dt;
        }
        let root = isqrt(al * al + at * at);
        Degree(root as i64)
    }
}

/// The integer square root of `n`: the largest `r` with `r * r <= n`.
pub fn isqrt(n: u128) -> (r: u64)
    requires
        n <= 0x1_0000_0000_0000_0000_0000_0000,
    ensures
        r <= 0x1_0000_0000_0000,
        r * r <= n < (r + 1) * (r + 1),
{
    let mut lo: u128 = 0;
    let mut hi: u128 = 0x1_0000_0000_0001;
    assert(n < hi * hi) by (nonlinear_arith)
        requires n <= 0x1_0000_0000_0000_0000_0000_0000, hi == 0x1_0000_0000_0001;
    while lo + 1 < hi
        invariant
            lo < hi <= 0x1_0000_0000_0001,
            lo * lo <= n,
            n < hi * hi,
        decreases hi - lo,
    {
        let mid: u128 = lo + (hi - lo) / 2;
        assert(lo < mid < hi);
        assert(mid * mid <= 0x1_0000_0000_0002_0000_0000_0001) by (nonlinear_arith)
            requires mid <= 0x1_0000_0000_0001;
        if mid * mid <= n {
            lo = mid;
        } else {
            hi = mid;
        }
    }
    assert(lo <= 0x1_0000_0000_0000) by (nonlinear_arith)
        requires lo * lo <= n, n <= 0x1_0000_0000_0000_0000_0000_0000;
    lo as u64
}

/// How much the side lengths of the frame change for a scroll amount, in thousandths of the
/// current size: one of three steps each way, by which third of the clamped range the amount
/// falls in. Scrolling up (or not at all) zooms in.
pub open spec fn zoom_ratio_spec(scroll_diff: int) -> int {
    let clamped = if scroll_diff > SCROLL_DIFF_MAX {
        SCROLL_DIFF_MAX as int
    } else if scroll_diff < -SCROLL_DIFF_MAX {
        -SCROLL_DIFF_MAX as int
    } else {
        scroll_diff
    };
    let magnitude = if clamped >= 0 { clamped } else { -clamped };
    let offset = if magnitude < 9_900 { 100int } else if magnitude < 19_800 { 200int } else { 300int };
    if clamped >= 0 { 1000 - offset } else { 1000 + offset }
}

/// The ratio, in thousandths, by which the frame's side lengths change for a scroll amount
/// given in thousandths. For example 1100 means that a frame 10 degrees wide becomes 11
/// degrees wide.
pub fn zoom_ratio(scroll_diff: i32) -> (r: u32)
    ensures
        r == zoom_ratio_spec(scroll_diff as int),
        700 <= r <= 1300,
{
    let mut clamped = scroll_diff;
    if clamped > SCROLL_DIFF_MAX {
        clamped = SCROLL_DIFF_MAX;
    } else if clamped < -SCROLL_DIFF_MAX {
        clamped = -SCROLL_DIFF_MAX;
    }
    let magnitude: i32 = if clamped >= 0 { clamped } else { -clamped };
    let offset: u32 = if magnitude < 9_900 {
        100
    } else if magnitude < 19_800 {
        200
    } else {
        300
    };
    if clamped >= 0 {
        1000 - offset
    } else {
        1000 + offset
    }
}

/// The frame with the given corners.
pub open spec fn frame_of(ul_long: int, ul_lat: int, lr_long: int, lr_lat: int) -> MapFrame {
    MapFrame {
        upper_left: MapCoord { long: Degree(ul_long as i64), lat: Degree(ul_lat as i64) },
        lower_right: MapCoord { long: Degree(lr_long as i64), lat: Degree(lr_lat as i64) },
    }
}

/// Whether four corner values make a well-formed frame.
pub open spec fn corners_ok(ul_long: int, ul_lat: int, lr_long: int, lr_lat: int) -> bool {
    &&& -FRAME_LIMIT <= ul_long <= FRAME_LIMIT
    &&& -FRAME_LIMIT <= ul_lat <= FRAME_LIMIT
    &&& -FRAME_LIMIT <= lr_long <= FRAME_LIMIT
    &&& -FRAME_LIMIT <= lr_lat <= FRAME_LIMIT
    &&& MIN_ZOOM <= lr_long - ul_long <= MAX_ZOOM
    &&& 0 < ul_lat - lr_lat <= MAX_HEIGHT
}

impl MapFrame {
    /// The frame after zooming at screen cell (`mouse_x`, `mouse_y`) by `scroll_diff`: each side
    /// length changes by the zoom ratio, the change split between the two opposite edges in
    /// proportion to where the cell lies on screen, so that the point under it stays in place.
    /// `None` where the result would not be a well-formed frame.
    pub open spec fn zoom_spec(&self, mouse_x: int, mouse_y: int, scroll_diff: int) -> Option<MapFrame> {
        let r = zoom_ratio_spec(scroll_diff);
        let ax = trunc_div(self.width_spec() * (r - 1000), 1000);
        let lm = trunc_div(ax * mouse_x, SCREEN_WIDTH as int);
        let ay = trunc_div(self.height_spec() * (r - 1000), 1000);
        let tm = trunc_div(ay * mouse_y, SCREEN_HEIGHT as int);
        let ul_long = self.upper_left.long.0 - lm;
        let lr_long = self.lower_right.long.0 + ax - lm;
        let ul_lat = self.upper_left.lat.0 + tm;
        let lr_lat = self.lower_right.lat.0 - (ay - tm);
        if corners_ok(ul_long, ul_lat, lr_long, lr_lat) {
            Some(frame_of(ul_long, ul_lat, lr_long, lr_lat))
        } else {
            None
        }
    }

    /// See `zoom_spec`.
    pub fn zoomed(&self, mouse_x: isize, mouse_y: isize, scroll_diff: i32) -> (r: Option<MapFrame>)
        requires
            self.wf(),
        ensures
            r == self.zoom_spec(mouse_x as int, mouse_y as int, scroll_diff as int),
            r matches Some(g) ==> g.wf() && MIN_ZOOM <= g.width_spec() <= MAX_ZOOM,
    {
        let ratio = zoom_ratio(scroll_diff) as i128;
        let w = self.width().0 as i128;
        let h = self.height().0 as i128;
        proof {
            assert(-MAX_ZOOM * 300 <= w * (ratio - 1000) <= MAX_ZOOM * 300) by (nonlinear_arith)
                requires 0 < w <= MAX_ZOOM, -300 <= ratio - 1000 <= 300;
            assert(-MAX_HEIGHT * 300 <= h * (ratio - 1000) <= MAX_HEIGHT * 300) by (nonlinear_arith)
                requires 0 < h <= MAX_HEIGHT, -300 <= ratio - 1000 <= 300;
            lemma_trunc_div_bound(w * (ratio - 1000), 1000, MAX_ZOOM * 300);
            lemma_trunc_div_bound(h * (ratio - 1000), 1000, MAX_HEIGHT * 300);
        }
        let ax = div_trunc(w * (ratio - 1000), 1000);
        let ay = div_trunc(h * (ratio - 1000), 1000);
        let mx = mouse_x as i128;
        let my = mouse_y as i128;
        proof {
            let b: int = 0x8000_0000_0000_0000;
            assert(-MAX_ZOOM * 300 * b <= ax * mx <= MAX_ZOOM * 300 * b) by (nonlinear_arith)
                requires -MAX_ZOOM * 300 <= ax <= MAX_ZOOM * 300, -b <= mx <= b;
            assert(-MAX_HEIGHT * 300 * b <= ay * my <= MAX_HEIGHT * 300 * b) by (nonlinear_arith)
                requires -MAX_HEIGHT * 300 <= ay <= MAX_HEIGHT * 300, -b <= my <= b;
            lemma_trunc_div_bound(ax * mx, SCREEN_WIDTH as int, MAX_ZOOM * 300 * b);
            lemma_trunc_div_bound(ay * my, SCREEN_HEIGHT as int, MAX_HEIGHT * 300 * b);
        }
        let lm = div_trunc(ax * mx, SCREEN_WIDTH as i128);
        let tm = div_trunc(ay * my, SCREEN_HEIGHT as i128);
        let ul_long: i128 = self.upper_left.long.0 as i128 - lm;
        let lr_long: i128 = self.lower_right.long.0 as i128 + ax - lm;
        let ul_lat: i128 = self.upper_left.lat.0 as i128 + tm;
        let lr_lat: i128 = self.lower_right.lat.0 as i128 - (ay - tm);
        if corners_fit(ul_long, ul_lat, lr_long, lr_lat) {
            Some(
                MapFrame {
                    upper_left: MapCoord { long: Degree(ul_long as i64), lat: Degree(ul_lat as i64) },
                    lower_right: MapCoord { long: Degree(lr_long as i64), lat: Degree(lr_lat as i64) },
                },
            )
        } else {
            None
        }
    }

    /// The frame moved by (`diff_x`, `diff_y`) screen pixels, converted to degrees at the
    /// current scale and rounded toward zero: a move right shows what lies further west.
    /// `None` where a corner would leave the bounds of the map.
    pub open spec fn pan_spec(&self, diff_x: int, diff_y: int) -> Option<MapFrame> {
        let sx = trunc_div(diff_x * self.width_spec(), SCREEN_WIDTH as int);
        let sy = trunc_div(diff_y * self.height_spec(), SCREEN_HEIGHT as int);
        let ul_long = self.upper_left.long.0 - sx;
        let lr_long = self.lower_right.long.0 - sx;
        let ul_lat = self.upper_left.lat.0 + sy;
        let lr_lat = self.lower_right.lat.0 + sy;
        if corners_ok(ul_long, ul_lat, lr_long, lr_lat) {
            Some(frame_of(ul_long, ul_lat, lr_long, lr_lat))
        } else {
            None
        }
    }

    /// See `pan_spec`.
    pub fn panned(&self, diff_x: isize, diff_y: isize) -> (r: Option<MapFrame>)
        requires
            self.wf(),
        ensures
            r == self.pan_spec(diff_x as int, diff_y as int),
            r matches Some(g) ==> g.wf() && g.width_spec() == self.width_spec()
                && g.height_spec() == self.height_spec(),
    {
        let w = self.width().0 as i128;
        let h = self.height().0 as i128;
        let dx = diff_x as i128;
        let dy = diff_y as i128;
        proof {
            let b: int = 0x8000_0000_0000_0000;
            assert(-MAX_ZOOM * b <= dx * w <= MAX_ZOOM * b) by (nonlinear_arith)
                requires 0 < w <= MAX_ZOOM, -b <= dx <= b;
            assert(-MAX_HEIGHT * b <= dy * h <= MAX_HEIGHT * b) by (nonlinear_arith)
                requires 0 < h <= MAX_HEIGHT, -b <= dy <= b;
            lemma_trunc_div_bound(dx * w, SCREEN_WIDTH as int, MAX_ZOOM * b);
            lemma_trunc_div_bound(dy * h, SCREEN_HEIGHT as int, MAX_HEIGHT * b);
        }
        let sx = div_trunc(dx * w, SCREEN_WIDTH as i128);
        let sy = div_trunc(dy * h, SCREEN_HEIGHT as i128);
        let ul_long: i128 = self.upper_left.long.0 as i128 - sx;
        let lr_long: i128 = self.lower_right.long.0 as i128 - sx;
        let ul_lat: i128 = self.upper_left.lat.0 as i128 + sy;
        let lr_lat: i128 = self.lower_right.lat.0 as i128 + sy;
        if corners_fit(ul_long, ul_lat, lr_long, lr_lat) {
            Some(
                MapFrame {
                    upper_left: MapCoord { long: Degree(ul_long as i64), lat: Degree(ul_lat as i64) },
                    lower_right: MapCoord { long: Degree(lr_long as i64), lat: Degree(lr_lat as i64) },
                },
            )
        } else {
            None
        }
    }
}

/// Whether four corner values make a well-formed frame.
fn corners_fit(ul_long: i128, ul_lat: i128, lr_long: i128, lr_lat: i128) -> (r: bool)
    requires
        -0x100_0000_0000_0000_0000_0000_0000_0000 < ul_long < 0x100_0000_0000_0000_0000_0000_0000_0000,
        -0x100_0000_0000_0000_0000_0000_0000_0000 < ul_lat < 0x100_0000_0000_0000_0000_0000_0000_0000,
        -0x100_0000_0000_0000_0000_0000_0000_0000 < lr_long < 0x100_0000_0000_0000_0000_0000_0000_0000,
        -0x100_0000_0000_0000_0000_0000_0000_0000 < lr_lat < 0x100_0000_0000_0000_0000_0000_0000_0000,
    ensures
        r == corners_ok(ul_long as int, ul_lat as int, lr_long as int, lr_lat as int),
{
    let lim = FRAME_LIMIT as i128;
    -lim <= ul_long && ul_long <= lim && -lim <= ul_lat && ul_lat <= lim && -lim <= lr_long
        && lr_long <= lim && -lim <= lr_lat && lr_lat <= lim && MIN_ZOOM as i128 <= lr_long - ul_long
        && lr_long - ul_long <= MAX_ZOOM as i128 && 0 < ul_lat - lr_lat && ul_lat - lr_lat
        <= MAX_HEIGHT as i128
}

/// Moving east never moves a point to a tile further left, and moving north never moves
/// it to a lower tile.
pub proof fn lemma_tile_monotonic(frame: MapFrame, a: MapCoord, b: MapCoord)
    requires
        frame.wf(),
    ensures
        a.long.0 <= b.long.0 ==> frame.tile_of(a).x.0 <= frame.tile_of(b).x.0,
        a.lat.0 >= b.lat.0 ==> frame.tile_of(a).y.0 <= frame.tile_of(b).y.0,
{
    let w = frame.width_spec();
    let h = frame.height_spec();
    if a.long.0 <= b.long.0 {
        let oa = (a.long.0 - JAPAN_CENTER_LONG) * 200;
        let ob = (b.long.0 - JAPAN_CENTER_LONG) * 200;
        lemma_trunc_div_monotonic(oa, ob, w);
    }
    if a.lat.0 >= b.lat.0 {
        let oa = (JAPAN_CENTER_LAT - a.lat.0) * 150;
        let ob = (JAPAN_CENTER_LAT - b.lat.0) * 150;
        lemma_trunc_div_monotonic(oa, ob, h);
    }
}

/// Zooming never yields a frame whose width lies outside the zoom limits; a refused zoom
/// leaves nothing to apply.
pub proof fn lemma_zoom_keeps_width(frame: MapFrame, mouse_x: int, mouse_y: int, scroll_diff: int)
    requires
        frame.wf(),
    ensures
        frame.zoom_spec(mouse_x, mouse_y, scroll_diff) matches Some(g) ==> MIN_ZOOM <= g.width_spec() <= MAX_ZOOM,
{
}

/// Panning and then panning back by the negated amounts restores the frame exactly.
pub proof fn lemma_pan_inverse(frame: MapFrame, diff_x: int, diff_y: int)
    requires
        frame.wf(),
        frame.pan_spec(diff_x, diff_y) is Some,
    ensures
        frame.pan_spec(diff_x, diff_y)->0.pan_spec(-diff_x, -diff_y) == Some(frame),
{
    let g = frame.pan_spec(diff_x, diff_y)->0;
    let w = frame.width_spec();
    let h = frame.height_spec();
    assert(g.width_spec() == w);
    assert(g.height_spec() == h);
    assert((-diff_x) * w == -(diff_x * w)) by (nonlinear_arith);
    assert((-diff_y) * h == -(diff_y * h)) by (nonlinear_arith);
    lemma_trunc_div_neg(diff_x * w, 200);
    lemma_trunc_div_neg(diff_y * h, 150);
}

/// In the default frame the visible tiles are exactly one per screen pixel.
pub proof fn lemma_default_covers_screen()
    ensures
        ({
            let f = MapFrame::default_spec();
            span_tiles(f.tile_of(f.upper_left), f.tile_of(f.lower_right)).len()
                == SCREEN_WIDTH as int * SCREEN_HEIGHT as int
        }),
{
    let f = MapFrame::default_spec();
    assert(f.width_spec() == 18_180_000);
    assert(f.height_spec() == 20_600_000);
    vstd::arithmetic::div_mod::lemma_fundamental_div_mod_converse(2_024_124_000, 18_180_000, 111, 6_144_000);
    vstd::arithmetic::div_mod::lemma_fundamental_div_mod_converse(1_611_876_000, 18_180_000, 88, 12_036_000);
    vstd::arithmetic::div_mod::lemma_fundamental_div_mod_converse(1_569_653_250, 20_600_000, 76, 4_053_250);
    vstd::arithmetic::div_mod::lemma_fundamental_div_mod_converse(1_520_346_750, 20_600_000, 73, 16_546_750);
    assert(f.tile_of(f.upper_left) == tile_at(-111, -76));
    assert(f.tile_of(f.lower_right) == tile_at(88, 73));
    assert(200int * 150 == 30000) by (nonlinear_arith);
}

} // verus!
