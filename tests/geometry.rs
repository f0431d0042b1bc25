use station_map::map::{
    zoom_ratio, Degree, MapCoord, MapFrame, JAPAN_CENTER_LAT, JAPAN_CENTER_LONG, MAX_ZOOM, MIN_ZOOM,
};
use station_map::tile::{Tile, TileIterator, TilePos};

fn tile(x: i32, y: i32) -> Tile {
    Tile { x: TilePos(x), y: TilePos(y) }
}

fn coord(long: i64, lat: i64) -> MapCoord {
    MapCoord { long: Degree(long), lat: Degree(lat) }
}

fn all(mut it: TileIterator) -> Vec<Tile> {
    it.collect_tiles()
}

#[test]
fn box_of_side_one_is_the_center() {
    assert_eq!(all(Tile::get_box(tile(3, 4), 1)), vec![tile(3, 4)]);
    assert_eq!(all(Tile::get_box(tile(3, 4), 0)), vec![tile(3, 4)]);
    assert_eq!(all(Tile::get_box(tile(3, 4), -2)), vec![tile(3, 4)]);
}

#[test]
fn box_of_even_side_leans_right_and_down() {
    assert_eq!(
        all(Tile::get_box(tile(0, 0), 2)),
        vec![tile(0, 0), tile(1, 0), tile(0, 1), tile(1, 1)]
    );
}

#[test]
fn box_of_odd_side_is_centered() {
    let tiles = all(Tile::get_box(tile(10, -5), 3));
    assert_eq!(tiles.len(), 9);
    assert_eq!(tiles[0], tile(9, -6));
    assert_eq!(tiles[4], tile(10, -5));
    assert_eq!(tiles[8], tile(11, -4));
    assert_eq!(all(Tile::get_box(tile(0, 0), 5)).len(), 25);
    assert_eq!(all(Tile::get_box(tile(0, 0), 4)).len(), 16);
}

#[test]
fn iterator_walks_rows_then_stops() {
    let mut it = TileIterator::new(tile(0, 0), tile(2, 1));
    let mut seen = Vec::new();
    while let Some(t) = it.next() {
        seen.push(t);
    }
    assert_eq!(
        seen,
        vec![tile(0, 0), tile(1, 0), tile(2, 0), tile(0, 1), tile(1, 1), tile(2, 1)]
    );
    assert_eq!(it.next(), None);
}

#[test]
fn default_frame_has_one_tile_per_pixel() {
    let f = MapFrame::default_frame();
    assert_eq!(f.get_tile(f.upper_left), tile(-111, -76));
    assert_eq!(f.get_tile(f.lower_right), tile(88, 73));
    assert_eq!(all(f.visible_tiles()).len(), 200 * 150);
}

#[test]
fn origin_maps_to_tile_zero() {
    let f = MapFrame::default_frame();
    assert_eq!(f.get_tile(coord(JAPAN_CENTER_LONG, JAPAN_CENTER_LAT)), tile(0, 0));
    // 18.18 degrees over 200 tiles: 90_900 millionths per tile, rounded toward zero.
    assert_eq!(f.get_tile(coord(JAPAN_CENTER_LONG + 90_900, JAPAN_CENTER_LAT)), tile(1, 0));
    assert_eq!(f.get_tile(coord(JAPAN_CENTER_LONG + 90_899, JAPAN_CENTER_LAT)), tile(0, 0));
    assert_eq!(f.get_tile(coord(JAPAN_CENTER_LONG - 90_899, JAPAN_CENTER_LAT)), tile(0, 0));
    assert_eq!(f.get_tile(coord(JAPAN_CENTER_LONG - 90_900, JAPAN_CENTER_LAT)), tile(-1, 0));
}

#[test]
fn tiles_are_monotonic_in_each_axis() {
    let f = MapFrame::default_frame();
    let mut last_x = i32::MIN;
    let mut last_y = i32::MIN;
    for step in 0..200i64 {
        let t = f.get_tile(coord(120_000_000 + step * 150_000, 50_000_000 - step * 150_000));
        assert!(t.x.0 >= last_x);
        assert!(t.y.0 >= last_y);
        last_x = t.x.0;
        last_y = t.y.0;
    }
}

#[test]
fn far_coordinates_saturate() {
    let f = MapFrame { upper_left: coord(0, MIN_ZOOM), lower_right: coord(MIN_ZOOM, 0) };
    let t = f.get_tile(coord(1_900_000_000_000, -1_900_000_000_000));
    assert_eq!(t, tile(i32::MAX, i32::MAX));
    let t = f.get_tile(coord(-1_900_000_000_000, 1_900_000_000_000));
    assert_eq!(t, tile(i32::MIN, i32::MIN));
    let d = MapFrame::default_frame().get_tile(coord(1_900_000_000_000, 0));
    assert_eq!(d.x.0, 20_900_575);
}

#[test]
fn pixels_map_to_coordinates() {
    let f = MapFrame::default_frame();
    assert_eq!(f.get_map_coord(0, 0), f.upper_left);
    let c = f.get_map_coord(100, 75);
    assert_eq!(c.long.0, 127_590_000 + 9_090_000);
    assert_eq!(c.lat.0, 46_500_000 - 10_300_000);
}

#[test]
fn zoom_ratio_steps() {
    assert_eq!(zoom_ratio(0), 900);
    assert_eq!(zoom_ratio(5_000), 900);
    assert_eq!(zoom_ratio(9_899), 900);
    assert_eq!(zoom_ratio(9_900), 800);
    assert_eq!(zoom_ratio(19_800), 700);
    assert_eq!(zoom_ratio(90_000), 700);
    assert_eq!(zoom_ratio(-5_000), 1100);
    assert_eq!(zoom_ratio(-15_000), 1200);
    assert_eq!(zoom_ratio(-90_000), 1300);
}

#[test]
fn zoom_keeps_the_cursor_anchored() {
    let f = MapFrame::default_frame();
    let g = f.zoomed(0, 0, 1_000).unwrap();
    assert_eq!(g.upper_left, f.upper_left);
    assert_eq!(g.lower_right.long.0 - g.upper_left.long.0, 16_362_000);
    assert_eq!(g.upper_left.lat.0 - g.lower_right.lat.0, 18_540_000);
    let h = f.zoomed(200, 150, 1_000).unwrap();
    assert_eq!(h.lower_right, f.lower_right);
}

#[test]
fn zoom_out_of_limits_is_refused() {
    let mut f = MapFrame::default_frame();
    let mut refused = false;
    for _ in 0..40 {
        match f.zoomed(100, 75, -30_000) {
            Some(g) => {
                assert!(g.lower_right.long.0 - g.upper_left.long.0 <= MAX_ZOOM);
                f = g;
            }
            None => {
                refused = true;
                break;
            }
        }
    }
    assert!(refused);
    let mut f = MapFrame::default_frame();
    let mut refused = false;
    for _ in 0..80 {
        match f.zoomed(100, 75, 30_000) {
            Some(g) => {
                assert!(g.lower_right.long.0 - g.upper_left.long.0 >= MIN_ZOOM);
                f = g;
            }
            None => {
                refused = true;
                break;
            }
        }
    }
    assert!(refused);
}

#[test]
fn pan_then_inverse_pan_restores_the_frame() {
    let f = MapFrame::default_frame();
    let g = f.panned(13, -7).unwrap();
    assert_ne!(g, f);
    assert_eq!(g.panned(-13, 7).unwrap(), f);
    // One pixel is 90_900 millionths of a degree wide; a move right shows what lies west.
    let h = f.panned(1, 0).unwrap();
    assert_eq!(h.upper_left.long.0, f.upper_left.long.0 - 90_900);
    assert!(f.panned(isize::MAX, 0).is_none());
}

#[test]
fn visibility_margin_grows_when_zoomed_in() {
    let f = MapFrame::default_frame();
    assert!(f.is_visible(coord(130_000_000, 30_000_000)));
    assert!(!f.is_visible(coord(127_589_999, 30_000_000)));
    let close = MapFrame {
        upper_left: coord(135_000_000, 35_040_000),
        lower_right: coord(135_040_000, 35_000_000),
    };
    // Height 0.04 degrees: margin 0.11 of the size, 4_400 millionths.
    assert!(close.is_visible(coord(134_995_600, 35_020_000)));
    assert!(!close.is_visible(coord(134_995_599, 35_020_000)));
}

#[test]
fn widths_and_font_levels_follow_the_height() {
    let mut f = MapFrame::default_frame();
    assert_eq!(f.station_width(), 1);
    assert_eq!(f.track_width(), 1);
    assert_eq!(f.font_level(), 0);
    f.upper_left.lat = Degree(f.lower_right.lat.0 + 10_000);
    assert_eq!(f.station_width(), 5);
    assert_eq!(f.track_width(), 2);
    assert_eq!(f.font_level(), 9);
    f.upper_left.lat = Degree(f.lower_right.lat.0 + 42_000);
    assert_eq!(f.station_width(), 4);
    assert_eq!(f.font_level(), 2);
    f.upper_left.lat = Degree(f.lower_right.lat.0 + 200_000);
    assert_eq!(f.station_width(), 2);
    assert_eq!(f.track_width(), 1);
}

#[test]
fn distance_is_euclidean_in_degrees() {
    let a = coord(0, 0);
    let b = coord(3_000_000, 4_000_000);
    assert_eq!(a.distance_to(&b), Degree(5_000_000));
    assert_eq!(a.distance_to(&coord(1, 1)), Degree(1));
    assert_eq!(a.distance_to(&a), Degree(0));
}

#[test]
fn degrees_per_pixel_of_default_frame() {
    let f = MapFrame::default_frame();
    assert_eq!(f.get_degrees_per_pixel(), (Degree(90_900), Degree(137_333)));
    assert_eq!(f.width(), Degree(18_180_000));
    assert_eq!(f.height(), Degree(20_600_000));
    assert_eq!(MapFrame::default(), f);
}
