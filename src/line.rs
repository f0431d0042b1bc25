use vstd::prelude::*;
use crate::tile::{Tile, TilePos};

verus! {

/// Largest difference in either coordinate between the two ends of a rasterized line.
pub const LINE_LIMIT: i32 = 1_000_000;

/// The cells that line_drawing's supercover walk visits from (`ax`, `ay`) to (`bx`, `by`).
pub uninterp spec fn supercover_of(ax: int, ay: int, bx: int, by: int) -> Seq<(i32, i32)>;

/// Whether two cells touch at a side or a corner.
pub open spec fn adjacent8(p: (i32, i32), q: (i32, i32)) -> bool {
    &&& p != q
    &&& -1 <= q.0 - p.0 <= 1
    &&& -1 <= q.1 - p.1 <= 1
}

/// The sign of `d`: -1, 0 or 1.
pub open spec fn sign(d: int) -> int {
    if d > 0 { 1 } else if d < 0 { -1 } else { 0 }
}

/// Whether the step from `p` to `q` moves each coordinate by nothing or by one toward `b`
/// (as seen from `a`).
pub open spec fn steps_toward(p: (i32, i32), q: (i32, i32), a: (i32, i32), b: (i32, i32)) -> bool {
    &&& (q.0 - p.0 == 0 || q.0 - p.0 == sign(b.0 - a.0))
    &&& (q.1 - p.1 == 0 || q.1 - p.1 == sign(b.1 - a.1))
}

/// Whether every step of a walk moves toward `b`, from `a`.
pub open spec fn monotone_walk(s: Seq<(i32, i32)>, a: (i32, i32), b: (i32, i32)) -> bool {
    forall|i: int| 0 <= i < s.len() - 1 ==> #[trigger] steps_toward(s[i], s[i + 1], a, b)
}

/// Whether a walk of cells starts at `a`, ends at `b` and moves to a touching cell each step.
pub open spec fn connected_walk(s: Seq<(i32, i32)>, a: (i32, i32), b: (i32, i32)) -> bool {
    &&& s.len() >= 1
    &&& s[0] == a
    &&& s.last() == b
    &&& forall|i: int| 0 <= i < s.len() - 1 ==> #[trigger] adjacent8(s[i], s[i + 1])
}

/// Whether a cell lies strictly inside the range of `i32` in both coordinates, so that the
/// walk can step once past it.
pub open spec fn cell_inside(p: (i32, i32)) -> bool {
    i32::MIN < p.0 < i32::MAX && i32::MIN < p.1 < i32::MAX
}

/// Whether two ends can be joined by a rasterized line: they are close enough, and neither
/// lies on the edge of the range of `i32`.
pub open spec fn line_fits(a: Tile, b: Tile) -> bool {
    &&& -LINE_LIMIT <= b.x.0 - a.x.0 <= LINE_LIMIT
    &&& -LINE_LIMIT <= b.y.0 - a.y.0 <= LINE_LIMIT
    &&& cell_inside((a.x.0, a.y.0))
    &&& cell_inside((b.x.0, b.y.0))
}

/// Whether every comparison of the walk between two ends is exact in `f32`: the product of
/// the two extents is below 2^20, so distinct step ratios differ by more than their rounding.
pub open spec fn exact_walk(a: (i32, i32), b: (i32, i32)) -> bool {
    let dx = if b.0 >= a.0 { b.0 - a.0 } else { a.0 - b.0 };
    let dy = if b.1 >= a.1 { b.1 - a.1 } else { a.1 - b.1 };
    dx * dy < 0x10_0000
}

/// Whether two ends can be joined by a rasterized line.
pub fn line_fits_exec(a: Tile, b: Tile) -> (r: bool)
    ensures
        r == line_fits(a, b),
{
    let lim = LINE_LIMIT as i64;
    let dx = b.x.0 as i64 - a.x.0 as i64;
    let dy = b.y.0 as i64 - a.y.0 as i64;
    -lim <= dx && dx <= lim && -lim <= dy && dy <= lim && i32::MIN < a.x.0 && a.x.0 < i32::MAX
        && i32::MIN < a.y.0 && a.y.0 < i32::MAX && i32::MIN < b.x.0 && b.x.0 < i32::MAX && i32::MIN < b.y.0
        && b.y.0 < i32::MAX
}

/// The tile with the coordinates of a cell.
pub open spec fn cell_tile(p: (i32, i32)) -> Tile {
    Tile { x: TilePos(p.0), y: TilePos(p.1) }
}

/// The tiles of the supercover line from `a` to `b`.
pub open spec fn line_tiles_spec(a: Tile, b: Tile) -> Seq<Tile> {
    supercover_of(a.x.0 as int, a.y.0 as int, b.x.0 as int, b.y.0 as int).map_values(|p: (i32, i32)| cell_tile(p))
}

/// Relies on line_drawing::Supercover: the walk starts at `a`, moves each coordinate by
/// nothing or by its sign toward `b` per step, and stops after emitting `b`. The bound on the
/// distance keeps its floating-point step counters exact; after the last cell it steps once
/// more, which the distance from the edges of `i32` keeps from overflowing. Each step compares
/// `(0.5 + ix) / nx` with `(0.5 + iy) / ny`; where the product of the extents is below 2^20,
/// distinct ratios differ by more than 2^-21, well above the rounding of either, so every
/// comparison is decided as in exact arithmetic, where walking from `b` visits the same cells
/// in reverse.
#[verifier::external_body]
fn supercover(a: (i32, i32), b: (i32, i32)) -> (r: Vec<(i32, i32)>)
    requires
        -LINE_LIMIT <= b.0 - a.0 <= LINE_LIMIT,
        -LINE_LIMIT <= b.1 - a.1 <= LINE_LIMIT,
        cell_inside(a),
        cell_inside(b),
    ensures
        r@ == supercover_of(a.0 as int, a.1 as int, b.0 as int, b.1 as int),
        connected_walk(r@, a, b),
        monotone_walk(r@, a, b),
        exact_walk(a, b) ==> supercover_of(b.0 as int, b.1 as int, a.0 as int, a.1 as int) == r@.reverse(),
{
    line_drawing::Supercover::new(a, b).collect()
}

/// Every tile that the straight segment from `a` to `b` passes through, in order from `a`
/// to `b`: it holds both ends, each tile touches the one before it at a side or corner, and
/// each step moves toward `b`. On lines short enough for exact comparisons, swapping the
/// ends reverses the result.
pub fn line_tiles(a: Tile, b: Tile) -> (r: Vec<Tile>)
    requires
        line_fits(a, b),
    ensures
        r@ == line_tiles_spec(a, b),
        r@.len() >= 1,
        r@[0] == a,
        r@.last() == b,
        forall|i: int|
            0 <= i < r@.len() - 1 ==> #[trigger] adjacent8((r@[i].x.0, r@[i].y.0), (r@[i + 1].x.0, r@[i + 1].y.0)),
        forall|i: int|
            0 <= i < r@.len() - 1 ==> #[trigger] steps_toward(
                (r@[i].x.0, r@[i].y.0),
                (r@[i + 1].x.0, r@[i + 1].y.0),
                (a.x.0, a.y.0),
                (b.x.0, b.y.0),
            ),
        a == b ==> r@ == seq![a],
        exact_walk((a.x.0, a.y.0), (b.x.0, b.y.0)) ==> line_tiles_spec(b, a) == r@.reverse(),
{
    let cells = supercover((a.x.0, a.y.0), (b.x.0, b.y.0));
    let mut r: Vec<Tile> = Vec::new();
    let mut i: usize = 0;
    while i < cells.len()
        invariant
            i <= cells@.len(),
            r@ == cells@.take(i as int).map_values(|p: (i32, i32)| cell_tile(p)),
        decreases cells@.len() - i,
    {
        let p = cells[i];
        r.push(Tile { x: TilePos(p.0), y: TilePos(p.1) });
        i += 1;
        assert(r@ =~= cells@.take(i as int).map_values(|p: (i32, i32)| cell_tile(p)));
    }
    assert(cells@.take(i as int) =~= cells@);
    assert forall|j: int| 0 <= j < r@.len() - 1 implies #[trigger] adjacent8(
        (r@[j].x.0, r@[j].y.0),
        (r@[j + 1].x.0, r@[j + 1].y.0),
    ) by {
        assert(adjacent8(cells@[j], cells@[j + 1]));
    }
    assert forall|j: int| 0 <= j < r@.len() - 1 implies #[trigger] steps_toward(
        (r@[j].x.0, r@[j].y.0),
        (r@[j + 1].x.0, r@[j + 1].y.0),
        (a.x.0, a.y.0),
        (b.x.0, b.y.0),
    ) by {
        assert(steps_toward(cells@[j], cells@[j + 1], (a.x.0, a.y.0), (b.x.0, b.y.0)));
    }
    proof {
        if a == b && r@.len() > 1 {
            let z: int = 0;
            assert(cells@.len() > 1);
            assert(adjacent8(cells@[z], cells@[z + 1]));
            assert(steps_toward(cells@[z], cells@[z + 1], (a.x.0, a.y.0), (b.x.0, b.y.0)));
        }
        if a == b {
            assert(r@ =~= seq![a]);
        }
        if exact_walk((a.x.0, a.y.0), (b.x.0, b.y.0)) {
            assert(line_tiles_spec(b, a) =~= r@.reverse());
        }
    }
    r
}

} // verus!
