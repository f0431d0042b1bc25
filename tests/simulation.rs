use station_map::data::{Connection, Network, Station, StationId};
use station_map::effect::{train_rate, Effect, EffectManager, SpawnDraw, StationBlink, Train};
use station_map::map::{Degree, MapCoord};
use station_map::popularity::{PopularityStore, MAX_STATION_POPULARITY};

fn station(id: u32, name: &str, long: i64, lat: i64) -> Station {
    Station { id: StationId(id), name: name.to_string(), coord: MapCoord { long: Degree(long), lat: Degree(lat) } }
}

fn link(a: u32, b: u32) -> Connection {
    Connection { station_id_1: StationId(a), station_id_2: StationId(b) }
}

fn line_network() -> Network {
    let stations = vec![
        station(10, "A", 135_000_000, 35_000_000),
        station(20, "B", 135_003_000, 35_004_000),
        station(30, "C", 135_006_000, 35_008_000),
        station(40, "D", 140_000_000, 40_000_000),
    ];
    Network::new(stations, &vec![link(10, 20), link(20, 30)]).unwrap()
}

fn quiet_draw() -> SpawnDraw {
    SpawnDraw {
        roll: 999_999,
        blink_station: 0,
        blink_frames: 600,
        train_start: 0,
        train_end: 0,
        degrees_per_move: Degree(1_000),
    }
}

#[test]
fn network_rejects_unknown_and_duplicate_ids() {
    let stations = vec![station(1, "A", 0, 0), station(2, "B", 1, 1)];
    assert!(Network::new(stations.clone(), &vec![link(1, 3)]).is_none());
    let dup = vec![station(1, "A", 0, 0), station(1, "B", 1, 1)];
    assert!(Network::new(dup, &vec![]).is_none());
    let far = vec![station(1, "A", 3_000_000_000_000, 0)];
    assert!(Network::new(far, &vec![]).is_none());
    let n = Network::new(stations, &vec![link(1, 2)]).unwrap();
    assert_eq!(n.len(), 2);
    assert_eq!(n.index_of(StationId(2)), Some(1));
    assert_eq!(n.index_of(StationId(5)), None);
    assert_eq!(n.linked(0), vec![1]);
    assert_eq!(n.linked(1), vec![0]);
}

#[test]
fn popularity_decays_above_the_ceiling() {
    let mut store = PopularityStore::new(3);
    assert_eq!(store.weight(0), 1);
    assert_eq!(store.weight(7), 1);
    for _ in 0..20 {
        store.increment(0);
    }
    store.increment(1);
    assert_eq!(store.weight(0), 20);
    assert_eq!(store.weight(1), 1);
    store.increment(0);
    assert_eq!(store.weight(0), 10);
    assert_eq!(store.weight(1), 0);
    assert_eq!(store.weight(2), 1);
}

#[test]
fn popularity_never_exceeds_the_ceiling() {
    let mut store = PopularityStore::new(4);
    for k in 0..500usize {
        store.increment((k * 7) % 4);
        for i in 0..4 {
            assert!(store.weight(i) <= MAX_STATION_POPULARITY);
        }
    }
}

#[test]
fn route_search_prefers_existing_links() {
    let n = line_network();
    let store = PopularityStore::new(n.len());
    let found = station_map::route::find_route(&n, &store, 0, 2).unwrap();
    assert_eq!(found, vec![0, 1, 2]);
    assert!(station_map::route::find_route(&n, &store, 0, 3).is_none());
    assert_eq!(n.successors(1, &store).len(), 2);
}

#[test]
fn train_follows_its_route_and_reports_arrivals() {
    let n = line_network();
    let store = PopularityStore::new(n.len());
    let mut t = Train::new(&n, &store, 0, 2, Degree(1_000)).unwrap();
    assert_eq!(t.track_sections.len(), 2);
    assert_eq!(t.track_sections[0].length, Degree(5_000));
    assert_eq!(t.track_sections[0].start_station_id, StationId(10));
    assert_eq!(t.track_sections[1].end_station_id, StationId(30));
    let mut arrivals = Vec::new();
    let mut last_index = 0;
    while t.is_valid() {
        let before = t.current_section_index;
        if let Some(s) = t.update() {
            arrivals.push(s);
        }
        assert!(t.current_section_index >= last_index);
        assert_eq!(t.current_line_progress.0 == 0, t.current_section_index == before + 1);
        last_index = t.current_section_index;
    }
    assert_eq!(arrivals, vec![1, 2]);
    assert_eq!(t.priority(), 1);
}

#[test]
fn train_with_no_route_is_not_made() {
    let n = line_network();
    let store = PopularityStore::new(n.len());
    assert!(Train::new(&n, &store, 0, 3, Degree(1_000)).is_none());
    let same = Train::new(&n, &store, 1, 1, Degree(1_000)).unwrap();
    assert!(!same.is_valid());
    assert!(same.track_sections.is_empty());
}

#[test]
fn blink_with_no_frames_is_removed_unseen() {
    let n = line_network();
    let store = PopularityStore::new(n.len());
    let mut m = EffectManager::new();
    let blink = StationBlink::new(n.station(0).coord, 0);
    assert!(!blink.is_valid());
    m.push(Effect::StationBlink(blink));
    let arrivals = m.update(&n, &store, quiet_draw());
    assert!(arrivals.is_empty());
    assert!(m.effects.is_empty());
}

#[test]
fn blink_counts_down_and_blinks() {
    let n = line_network();
    let mut b = StationBlink::new(n.station(0).coord, 2);
    assert_eq!(b.priority(), 2);
    let frame = station_map::map::MapFrame::default_frame();
    assert_eq!(b.get_colors(&frame).len(), 1);
    b.remaining_frames = 70;
    assert!(b.get_colors(&frame).is_empty());
    b.remaining_frames = 1;
    b.update();
    assert!(!b.is_valid());
    b.update();
    assert_eq!(b.remaining_frames, 0);
    assert!(b.get_colors(&frame).is_empty());
}

#[test]
fn manager_spawns_by_roll() {
    let n = line_network();
    let store = PopularityStore::new(n.len());
    let mut m = EffectManager::new();
    let mut draw = quiet_draw();
    m.update(&n, &store, draw);
    assert!(m.effects.is_empty());
    draw.roll = 500;
    draw.train_start = 0;
    draw.train_end = 2;
    m.update(&n, &store, draw);
    assert_eq!(m.effects.len(), 2);
    assert!(matches!(m.effects[0], Effect::StationBlink(_)));
    assert!(matches!(m.effects[1], Effect::Train(_)));
    draw.roll = 100_000;
    draw.train_end = 3;
    m.update(&n, &store, draw);
    assert_eq!(m.effects.len(), 2);
}

#[test]
fn manager_reports_arrivals() {
    let n = line_network();
    let store = PopularityStore::new(n.len());
    let mut m = EffectManager::new();
    m.push(Effect::Train(Train::new(&n, &store, 2, 0, Degree(2_500)).unwrap()));
    let mut all = Vec::new();
    for _ in 0..10 {
        all.extend(m.update(&n, &store, quiet_draw()));
    }
    assert_eq!(all, vec![1, 0]);
    assert!(m.effects.is_empty());
}

#[test]
fn train_rate_has_a_floor() {
    assert_eq!(train_rate(0), Degree(500));
    assert_eq!(train_rate(1_500), Degree(2_000));
}

#[test]
fn train_far_off_screen_draws_nothing() {
    let stations = vec![
        station(1, "Far", 1_900_000_000_000, 0),
        station(2, "Farther", 1_900_000_000_100, 0),
    ];
    let n = Network::new(stations, &vec![link(1, 2)]).unwrap();
    let store = PopularityStore::new(n.len());
    let t = Train::new(&n, &store, 0, 1, Degree(10)).unwrap();
    let frame = station_map::map::MapFrame {
        upper_left: MapCoord { long: Degree(0), lat: Degree(10_000) },
        lower_right: MapCoord { long: Degree(10_000), lat: Degree(0) },
    };
    assert!(t.get_colors(&frame).is_empty());
}
