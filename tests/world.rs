use station_map::data::{Connection, Network, Station, StationId};
use station_map::effect::SpawnDraw;
use station_map::map::{Degree, MapCoord};
use station_map::popularity::PopularityStore;
use station_map::tile::{Tile, TilePos};
use station_map::world::{label_color_index, labels_shown, TileStatus, World, BACKGROUND_COLOR, STATION_COLOR, TRACK_COLOR};

fn station(id: u32, name: &str, long: i64, lat: i64) -> Station {
    Station { id: StationId(id), name: name.to_string(), coord: MapCoord { long: Degree(long), lat: Degree(lat) } }
}

fn tile(x: i32, y: i32) -> Tile {
    Tile { x: TilePos(x), y: TilePos(y) }
}

fn two_station_world() -> World {
    let stations = vec![station(7, "West", 135_000_000, 35_000_000), station(8, "East", 136_000_000, 35_000_000)];
    let links = vec![Connection { station_id_1: StationId(7), station_id_2: StationId(8) }];
    let mut w = World::new(Network::new(stations, &links).unwrap());
    w.init();
    w
}

#[test]
fn linked_stations_have_track_between_them() {
    let w = two_station_world();
    assert_eq!(w.status_at(tile(-29, 7)), Some(TileStatus::Station(0)));
    assert_eq!(w.status_at(tile(-18, 7)), Some(TileStatus::Station(1)));
    let mut tracks = 0;
    for x in -28..-18 {
        if w.status_at(tile(x, 7)) == Some(TileStatus::Track) {
            tracks += 1;
        }
    }
    assert_eq!(tracks, 10);
    assert_eq!(w.status_at(tile(0, 0)), None);
}

#[test]
fn stations_outrank_track_and_labels_outrank_nothing() {
    let mut w = two_station_world();
    for _ in 0..6 {
        assert!(w.zoom(82, 84, 30_000));
    }
    let frame = w.frame();
    let west = frame.get_tile(w.network().station(0).coord);
    assert_eq!(w.status_at(west), Some(TileStatus::Station(0)));
    let labels = vec![(west, 1usize), (tile(west.x.0 + 1, west.y.0), 1), (tile(5_000, 5_000), 1), (tile(5_000, 5_000), 0)];
    let before_right = w.status_at(tile(west.x.0 + 1, west.y.0));
    w.apply_labels(&labels);
    assert_eq!(w.status_at(west), Some(TileStatus::Station(0)));
    assert_eq!(w.status_at(tile(west.x.0 + 1, west.y.0)), before_right);
    // The last name on a free tile decides its ramp: station id 7, 7 mod 3 = 1.
    assert_eq!(w.status_at(tile(5_000, 5_000)), Some(TileStatus::Font(1)));
}

#[test]
fn label_requests_are_sorted_stations_on_screen() {
    let w = two_station_world();
    let requests = w.label_requests();
    assert_eq!(requests, vec![(tile(-29, 7), 0), (tile(-18, 7), 1)]);
    assert_eq!(label_color_index(StationId(7)), 1);
    assert_eq!(label_color_index(StationId(9)), 0);
}

#[test]
fn inspect_names_the_station_under_the_pointer() {
    let w = two_station_world();
    let frame = w.frame();
    let mut found = Vec::new();
    for y in 0..150i16 {
        for x in 0..200i16 {
            if let Some(s) = w.inspect(x, y) {
                found.push(s);
                let expected = if s == 0 { tile(-29, 7) } else { tile(-18, 7) };
                assert_eq!(frame.get_tile(frame.get_map_coord(x, y)), expected);
            }
        }
    }
    assert_eq!(found, vec![0, 1]);
}

#[test]
fn draw_colors_pixels_by_priority() {
    let w = two_station_world();
    let buffer = w.draw();
    assert_eq!(buffer.len(), 200 * 150 * 4);
    let frame = w.frame();
    let mut stations = 0;
    let mut tracks = 0;
    for p in 0..200 * 150 {
        let px = &buffer[p * 4..p * 4 + 4];
        assert_eq!(px[3], 0xff);
        let t = frame.get_tile(frame.get_map_coord((p % 200) as i16, (p / 200) as i16));
        let expected = match w.status_at(t) {
            Some(TileStatus::Station(_)) | Some(TileStatus::StationShadow) => STATION_COLOR,
            Some(TileStatus::Track) => TRACK_COLOR,
            _ => BACKGROUND_COLOR,
        };
        assert_eq!(&px[0..3], &expected[..]);
        if expected == STATION_COLOR {
            stations += 1;
        }
        if expected == TRACK_COLOR {
            tracks += 1;
        }
    }
    assert_eq!(stations, 2);
    assert_eq!(tracks, 10);
}

#[test]
fn rebuilding_gives_the_same_map() {
    let mut w = two_station_world();
    let before = w.draw();
    w.update_base_map();
    assert_eq!(w.draw(), before);
}

#[test]
fn steps_follow_elapsed_time() {
    let mut w = two_station_world();
    assert_eq!(w.update(10_000_000), 0);
    assert_eq!(w.update(10_000_000), 1);
    assert_eq!(w.update(16_666_667 * 3), 3);
}

#[test]
fn world_step_runs_effects() {
    let mut w = two_station_world();
    let store = PopularityStore::new(2);
    let draw = SpawnDraw {
        roll: 10,
        blink_station: 1,
        blink_frames: 600,
        train_start: 0,
        train_end: 1,
        degrees_per_move: Degree(100_000),
    };
    let arrivals = w.step(&store, draw);
    assert!(arrivals.is_empty());
    let quiet = SpawnDraw { roll: 999_999, ..draw };
    let mut all = Vec::new();
    for _ in 0..20 {
        all.extend(w.step(&store, quiet));
    }
    assert_eq!(all, vec![1]);
}

#[test]
fn pan_back_and_forth_rebuilds_the_same_map() {
    let mut w = two_station_world();
    let before = w.draw();
    assert!(w.pan(17, -9));
    assert_ne!(w.draw(), before);
    assert!(w.pan(-17, 9));
    assert_eq!(w.draw(), before);
}

#[test]
fn labels_show_from_half_a_degree_down() {
    let mut w = two_station_world();
    assert!(!labels_shown(&w.frame()));
    while w.frame().upper_left.lat.0 - w.frame().lower_right.lat.0 > 500_000 {
        assert!(w.zoom(82, 84, 30_000));
    }
    assert!(labels_shown(&w.frame()));
}
