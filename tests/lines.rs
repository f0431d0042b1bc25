use station_map::line::line_tiles;
use station_map::tile::{Tile, TilePos};

fn tile(x: i32, y: i32) -> Tile {
    Tile { x: TilePos(x), y: TilePos(y) }
}

fn adjacent(a: Tile, b: Tile) -> bool {
    a != b && (a.x.0 - b.x.0).abs() <= 1 && (a.y.0 - b.y.0).abs() <= 1
}

#[test]
fn line_holds_both_ends_and_has_no_gaps() {
    for (a, b) in [
        (tile(0, 0), tile(5, 2)),
        (tile(3, -4), tile(-6, 1)),
        (tile(0, 0), tile(0, 0)),
        (tile(2, 2), tile(2, 9)),
        (tile(-1, 5), tile(7, 5)),
    ] {
        let line = line_tiles(a, b);
        assert_eq!(line[0], a);
        assert_eq!(*line.last().unwrap(), b);
        for w in line.windows(2) {
            assert!(adjacent(w[0], w[1]));
        }
    }
}

#[test]
fn line_reversed_is_the_reverse_line() {
    for (a, b) in [(tile(0, 0), tile(5, 2)), (tile(3, -4), tile(-6, 1)), (tile(0, 0), tile(4, 4))] {
        let mut forward = line_tiles(a, b);
        forward.reverse();
        assert_eq!(forward, line_tiles(b, a));
    }
}

#[test]
fn line_with_equal_ends_is_one_tile() {
    assert_eq!(line_tiles(tile(4, -2), tile(4, -2)), vec![tile(4, -2)]);
}

#[test]
fn line_steps_move_toward_the_end() {
    let (a, b) = (tile(7, 1), tile(-3, 5));
    let line = line_tiles(a, b);
    for w in line.windows(2) {
        assert!(w[1].x.0 - w[0].x.0 == 0 || w[1].x.0 - w[0].x.0 == -1);
        assert!(w[1].y.0 - w[0].y.0 == 0 || w[1].y.0 - w[0].y.0 == 1);
    }
}

#[test]
fn diagonal_line_steps_diagonally() {
    assert_eq!(
        line_tiles(tile(0, 0), tile(3, 3)),
        vec![tile(0, 0), tile(1, 1), tile(2, 2), tile(3, 3)]
    );
    assert_eq!(line_tiles(tile(0, 0), tile(2, 0)), vec![tile(0, 0), tile(1, 0), tile(2, 0)]);
}
