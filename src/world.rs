use vstd::prelude::*;
use std::collections::HashMap;
use crate::data::Network;
use crate::effect::{Effect, EffectManager, SpawnDraw, draw_fits, loadable_coords};
use crate::line::{line_fits, line_tiles, line_tiles_spec};
use crate::map::{MapCoord, MapFrame};
use crate::popularity::PopularityStore;
use crate::tile::{box_extra, box_half, box_tiles, tile_in_range, Tile, TILE_LIMIT};

verus! {

broadcast use vstd::std_specs::hash::group_hash_axioms;

/// What the base map holds at a tile. A tile that holds nothing is absent from the map.
#[derive(Clone, Copy, Debug, PartialEq, Eq, Structural)]
pub enum TileStatus {
    /// Part of a station name; holds the index of the color ramp to draw it with.
    Font(usize),
    /// The center tile of a station; holds the station's place in the network.
    Station(usize),
    /// A tile of a station's square other than its center.
    StationShadow,
    Track,
}

/// Whether a status belongs to a station's square.
pub open spec fn is_station_status(s: TileStatus) -> bool {
    s is Station || s is StationShadow
}

/// The key of a tile in the base map.
pub open spec fn key_of(t: Tile) -> u64 {
    ((t.x.0 as int + 0x8000_0000) * 0x1_0000_0000 + (t.y.0 as int + 0x8000_0000)) as u64
}

/// The key of a tile in the base map.
pub fn tile_key(t: Tile) -> (r: u64)
    ensures
        r == key_of(t),
{
    let x = (t.x.0 as i64 + 0x8000_0000) as u64;
    let y = (t.y.0 as i64 + 0x8000_0000) as u64;
    assert(x * 0x1_0000_0000 + y < 0x1_0000_0000 * 0x1_0000_0000) by (nonlinear_arith)
        requires 0 <= x < 0x1_0000_0000, 0 <= y < 0x1_0000_0000;
    x * 0x1_0000_0000 + y
}

/// Whether station `s` gets a square in the base map of `frame`: it is visible (with the
/// margin) and its tile is within range.
pub open spec fn stamped(network: &Network, frame: MapFrame, s: int) -> bool {
    let c = network.stations_view()[s].coord;
    frame.is_visible_spec(c) && tile_in_range(frame.tile_of(c))
}

/// Whether key `k` lies in the square of one of the first `upto` stations.
pub open spec fn station_claims(network: &Network, frame: MapFrame, k: u64, upto: int) -> bool {
    exists|s: int, m: int|
        0 <= s < upto && stamped(network, frame, s) && 0 <= m < box_tiles(
            frame.tile_of(network.stations_view()[s].coord),
            frame.station_width_spec(),
        ).len() && key_of(
            #[trigger] box_tiles(frame.tile_of(network.stations_view()[s].coord), frame.station_width_spec())[m],
        ) == k
}

/// The claims of the first `upto + 1` stations are those of the first `upto`, plus the square
/// of station `upto` where it is stamped.
proof fn lemma_claims_step(network: &Network, frame: MapFrame, k: u64, upto: int)
    requires
        0 <= upto,
    ensures
        station_claims(network, frame, k, upto + 1) <==> (station_claims(network, frame, k, upto) || (stamped(
            network,
            frame,
            upto,
        ) && exists|q: int|
            0 <= q < box_tiles(frame.tile_of(network.stations_view()[upto].coord), frame.station_width_spec()).len()
                && key_of(
                #[trigger] box_tiles(frame.tile_of(network.stations_view()[upto].coord), frame.station_width_spec())[q],
            ) == k)),
{
    if station_claims(network, frame, k, upto + 1) {
        let (s, q) = choose|s: int, q: int|
            0 <= s < upto + 1 && stamped(network, frame, s) && 0 <= q < box_tiles(
                frame.tile_of(network.stations_view()[s].coord),
                frame.station_width_spec(),
            ).len() && key_of(
                #[trigger] box_tiles(frame.tile_of(network.stations_view()[s].coord), frame.station_width_spec())[q],
            ) == k;
        if s < upto {
            assert(station_claims(network, frame, k, upto));
        }
    }
    if station_claims(network, frame, k, upto) {
        let (s, q) = choose|s: int, q: int|
            0 <= s < upto && stamped(network, frame, s) && 0 <= q < box_tiles(
                frame.tile_of(network.stations_view()[s].coord),
                frame.station_width_spec(),
            ).len() && key_of(
                #[trigger] box_tiles(frame.tile_of(network.stations_view()[s].coord), frame.station_width_spec())[q],
            ) == k;
        assert(station_claims(network, frame, k, upto + 1));
    }
}

/// Whether some tile of the first `p` tiles of `line` is in range and carries, in its square
/// of side `track_width`, the tile with key `k`.
pub open spec fn line_prefix_claims(line: Seq<Tile>, track_width: int, k: u64, p: int) -> bool {
    exists|pj: int, q: int|
        0 <= pj < p && tile_in_range(line[pj]) && 0 <= q < box_tiles(line[pj], track_width).len() && key_of(
            #[trigger] box_tiles(line[pj], track_width)[q],
        ) == k
}

/// Whether the track drawn from tile `a` to tile `b` covers the tile with key `k`.
pub open spec fn line_claims(a: Tile, b: Tile, track_width: int, k: u64) -> bool {
    line_fits(a, b) && line_prefix_claims(line_tiles_spec(a, b), track_width, k, line_tiles_spec(a, b).len() as int)
}

/// Whether key `k` lies on the track of a link of one of the first `upto` stations.
pub open spec fn track_claims(network: &Network, frame: MapFrame, k: u64, upto: int) -> bool {
    exists|s: int, j: int|
        0 <= s < upto && stamped(network, frame, s) && 0 <= j < network.stations_view().len()
            && network.adjacent(s, j) && #[trigger] line_claims(
            frame.tile_of(network.stations_view()[s].coord),
            frame.tile_of(network.stations_view()[j].coord),
            frame.track_width_spec(),
            k,
        )
}

/// Whether `m` holds exactly a station or shadow tile on each key that `claimed` accepts, a
/// track tile on each other key that `on_track` accepts, and nothing else.
pub open spec fn layout_exact(m: Map<u64, TileStatus>, claimed: spec_fn(u64) -> bool, on_track: spec_fn(u64) -> bool) -> bool {
    &&& forall|k: u64| #[trigger] m.contains_key(k) <==> (claimed(k) || on_track(k))
    &&& forall|k: u64| #[trigger] m.contains_key(k) ==> (is_station_status(m[k]) <==> claimed(k))
    &&& forall|k: u64| #[trigger] m.contains_key(k) ==> (is_station_status(m[k]) || m[k] is Track)
}

/// Whether every station tile of `m` is the center tile of the station it names.
pub open spec fn centers_ok(m: Map<u64, TileStatus>, network: &Network, frame: MapFrame) -> bool {
    forall|k: u64|
        #[trigger] m.contains_key(k) && m[k] is Station ==> {
            let s = m[k]->Station_0;
            &&& s < network.stations_view().len()
            &&& key_of(frame.tile_of(network.stations_view()[s as int].coord)) == k
        }
}

/// Whether the square of station `s` covers key `k`.
pub open spec fn square_covers(network: &Network, frame: MapFrame, s: int, k: u64) -> bool {
    exists|q: int|
        0 <= q < box_tiles(frame.tile_of(network.stations_view()[s].coord), frame.station_width_spec()).len()
            && key_of(#[trigger] box_tiles(frame.tile_of(network.stations_view()[s].coord), frame.station_width_spec())[q])
            == k
}

/// The last of the first `upto` stations whose square is stamped over key `k`.
pub open spec fn owner(network: &Network, frame: MapFrame, k: u64, upto: int) -> Option<int>
    decreases upto,
{
    if upto <= 0 {
        None
    } else if stamped(network, frame, upto - 1) && square_covers(network, frame, upto - 1, k) {
        Some(upto - 1)
    } else {
        owner(network, frame, k, upto - 1)
    }
}

/// What the square of station `s` leaves at key `k`: the station at its center, its shadow
/// elsewhere.
pub open spec fn square_status(network: &Network, frame: MapFrame, s: int, k: u64) -> TileStatus {
    if key_of(frame.tile_of(network.stations_view()[s].coord)) == k {
        TileStatus::Station(s as usize)
    } else {
        TileStatus::StationShadow
    }
}

/// Whether each station or shadow tile of `m` holds what the last square stamped over it
/// leaves there, among the squares of the first `upto` stations.
pub open spec fn statuses_exact(m: Map<u64, TileStatus>, network: &Network, frame: MapFrame, upto: int) -> bool {
    forall|k: u64|
        #[trigger] m.contains_key(k) && is_station_status(m[k]) ==> owner(network, frame, k, upto) is Some
            && m[k] == square_status(network, frame, owner(network, frame, k, upto)->0, k)
}

/// The base map of a view is determined by the network and the frame alone: two maps that
/// both are the exact rebuild for them are equal, whatever was there before.
pub proof fn lemma_base_map_determined(
    m1: Map<u64, TileStatus>,
    m2: Map<u64, TileStatus>,
    network: &Network,
    frame: MapFrame,
)
    requires
        base_exact(m1, network, frame, network.stations_view().len() as int),
        statuses_exact(m1, network, frame, network.stations_view().len() as int),
        base_exact(m2, network, frame, network.stations_view().len() as int),
        statuses_exact(m2, network, frame, network.stations_view().len() as int),
    ensures
        m1 == m2,
{
    let n = network.stations_view().len() as int;
    assert forall|k: u64| #[trigger] m1.contains_key(k) <==> m2.contains_key(k) by {
        assert(m1.contains_key(k) <==> (station_claims(network, frame, k, n) || track_claims(network, frame, k, n)));
        assert(m2.contains_key(k) <==> (station_claims(network, frame, k, n) || track_claims(network, frame, k, n)));
    }
    assert forall|k: u64| #[trigger] m1.contains_key(k) implies m1[k] == m2[k] by {
        assert(m1.contains_key(k) ==> (is_station_status(m1[k]) <==> station_claims(network, frame, k, n)));
        assert(m2.contains_key(k) ==> (is_station_status(m2[k]) <==> station_claims(network, frame, k, n)));
        assert(m1.contains_key(k) ==> (is_station_status(m1[k]) || m1[k] is Track));
        assert(m2.contains_key(k) ==> (is_station_status(m2[k]) || m2[k] is Track));
    }
    assert(m1 =~= m2);
}

/// Color index of the last of the first `upto` labels placed on key `k`.
pub open spec fn last_label(labels: Seq<(Tile, usize)>, k: u64, upto: int) -> Option<usize>
    decreases upto,
{
    if upto <= 0 {
        None
    } else if key_of(labels[upto - 1].0) == k {
        Some(labels[upto - 1].1)
    } else {
        last_label(labels, k, upto - 1)
    }
}

/// Stamping track on a key that holds no station leaves every station entry of `start` in place.
proof fn lemma_track_keeps_stations(start: Map<u64, TileStatus>, m0: Map<u64, TileStatus>, m1: Map<u64, TileStatus>, k: u64)
    requires
        forall|k2: u64|
            #![trigger m0.contains_key(k2)]
            start.contains_key(k2) && is_station_status(start[k2]) ==> (m0.contains_key(k2) && m0[k2] == start[k2]),
        m1 == m0 || (m1 == m0.insert(k, TileStatus::Track) && !(m0.contains_key(k) && is_station_status(m0[k]))),
    ensures
        forall|k2: u64|
            #![trigger m1.contains_key(k2)]
            start.contains_key(k2) && is_station_status(start[k2]) ==> (m1.contains_key(k2) && m1[k2] == start[k2]),
{
    if m1 != m0 {
        assert forall|k2: u64| start.contains_key(k2) && is_station_status(start[k2]) implies (#[trigger] m1.contains_key(k2)
            && m1[k2] == start[k2]) by {
            assert(m0.contains_key(k2));
            if k2 == k {
                assert(is_station_status(m0[k]));
            }
        }
    } else {
        assert forall|k2: u64| start.contains_key(k2) && is_station_status(start[k2]) implies (#[trigger] m1.contains_key(k2)
            && m1[k2] == start[k2]) by {
            assert(m0.contains_key(k2));
        }
    }
}

/// The owner of a key is a stamped station, one of those counted.
proof fn lemma_owner_stamped(network: &Network, frame: MapFrame, k: u64, upto: int)
    ensures
        owner(network, frame, k, upto) matches Some(s) ==> 0 <= s < upto && stamped(network, frame, s),
    decreases upto,
{
    if upto > 0 {
        lemma_owner_stamped(network, frame, k, upto - 1);
    }
}

/// In a rebuilt base map, a station tile names a station that is visible (with the margin)
/// and has this tile as its own.
pub proof fn lemma_station_tile_visible(m: Map<u64, TileStatus>, network: &Network, frame: MapFrame, k: u64)
    requires
        network.wf(),
        statuses_exact(m, network, frame, network.stations_view().len() as int),
        m.contains_key(k),
        m[k] is Station,
    ensures
        (m[k]->Station_0 as int) < network.stations_view().len(),
        frame.is_visible_spec(network.stations_view()[m[k]->Station_0 as int].coord),
        key_of(frame.tile_of(network.stations_view()[m[k]->Station_0 as int].coord)) == k,
{
    let n = network.stations_view().len() as int;
    network.lemma_wf();
    lemma_owner_stamped(network, frame, k, n);
    assert(is_station_status(m[k]));
    let o = owner(network, frame, k, n)->0;
    assert(m[k] == square_status(network, frame, o, k));
    assert(key_of(frame.tile_of(network.stations_view()[o].coord)) == k);
    assert(m[k]->Station_0 as int == o);
}

/// A square of track width holds its center tile first.
proof fn lemma_track_square_center(c: Tile, track_width: int)
    requires
        track_width == 1 || track_width == 2,
        tile_in_range(c),
    ensures
        box_tiles(c, track_width).len() > 0,
        box_tiles(c, track_width)[0] == c,
{
    let e = box_extra(track_width);
    assert(box_half(track_width) == 0);
    assert(0 <= e <= 1);
    let w = e + 1;
    assert(w * w > 0) by (nonlinear_arith)
        requires w >= 1;
    assert(0int % w == 0 && 0int / w == 0) by (nonlinear_arith)
        requires w >= 1;
}

/// In a rebuilt base map, every tile on the line between a stamped station and a station
/// linked to it holds track, unless a station square claims it.
pub proof fn lemma_track_between(m: Map<u64, TileStatus>, network: &Network, frame: MapFrame, s: int, j: int, p: int)
    requires
        frame.wf(),
        base_exact(m, network, frame, network.stations_view().len() as int),
        0 <= s < network.stations_view().len(),
        0 <= j < network.stations_view().len(),
        stamped(network, frame, s),
        network.adjacent(s, j),
        line_fits(frame.tile_of(network.stations_view()[s].coord), frame.tile_of(network.stations_view()[j].coord)),
        0 <= p < line_tiles_spec(
            frame.tile_of(network.stations_view()[s].coord),
            frame.tile_of(network.stations_view()[j].coord),
        ).len(),
        tile_in_range(
            line_tiles_spec(
                frame.tile_of(network.stations_view()[s].coord),
                frame.tile_of(network.stations_view()[j].coord),
            )[p],
        ),
        !station_claims(
            network,
            frame,
            key_of(
                line_tiles_spec(
                    frame.tile_of(network.stations_view()[s].coord),
                    frame.tile_of(network.stations_view()[j].coord),
                )[p],
            ),
            network.stations_view().len() as int,
        ),
    ensures
        ({
            let k = key_of(
                line_tiles_spec(
                    frame.tile_of(network.stations_view()[s].coord),
                    frame.tile_of(network.stations_view()[j].coord),
                )[p],
            );
            m.contains_key(k) && m[k] == TileStatus::Track
        }),
{
    let n = network.stations_view().len() as int;
    let a = frame.tile_of(network.stations_view()[s].coord);
    let b = frame.tile_of(network.stations_view()[j].coord);
    let line = line_tiles_spec(a, b);
    let tw = frame.track_width_spec();
    let k = key_of(line[p]);
    lemma_track_square_center(line[p], tw);
    assert(key_of(box_tiles(line[p], tw)[0]) == k);
    assert(line_prefix_claims(line, tw, k, line.len() as int));
    assert(line_claims(a, b, tw, k));
    assert(track_claims(network, frame, k, n));
    assert(m.contains_key(k) <==> (station_claims(network, frame, k, n) || track_claims(network, frame, k, n)));
    assert(m.contains_key(k) ==> (is_station_status(m[k]) <==> station_claims(network, frame, k, n)));
    assert(m.contains_key(k) ==> (is_station_status(m[k]) || m[k] is Track));
}

/// Distinct tiles have distinct keys.
proof fn lemma_key_injective(a: Tile, b: Tile)
    ensures
        key_of(a) == key_of(b) ==> a == b,
{
    let xa = a.x.0 as int + 0x8000_0000;
    let ya = a.y.0 as int + 0x8000_0000;
    let xb = b.x.0 as int + 0x8000_0000;
    let yb = b.y.0 as int + 0x8000_0000;
    assert(0 <= xa * 0x1_0000_0000 + ya < 0x1_0000_0000 * 0x1_0000_0000) by (nonlinear_arith)
        requires 0 <= xa < 0x1_0000_0000, 0 <= ya < 0x1_0000_0000;
    assert(0 <= xb * 0x1_0000_0000 + yb < 0x1_0000_0000 * 0x1_0000_0000) by (nonlinear_arith)
        requires 0 <= xb < 0x1_0000_0000, 0 <= yb < 0x1_0000_0000;
    if key_of(a) == key_of(b) {
        let k = xa * 0x1_0000_0000 + ya;
        vstd::arithmetic::div_mod::lemma_fundamental_div_mod_converse(k, 0x1_0000_0000, xa, ya);
        vstd::arithmetic::div_mod::lemma_fundamental_div_mod_converse(k, 0x1_0000_0000, xb, yb);
    }
}

/// Whether `m` is the base map made from the squares and tracks of the first `upto` stations.
pub open spec fn base_exact(m: Map<u64, TileStatus>, network: &Network, frame: MapFrame, upto: int) -> bool {
    layout_exact(
        m,
        |k: u64| station_claims(network, frame, k, upto),
        |k: u64| track_claims(network, frame, k, upto),
    )
}

/// The tracks of the first `upto + 1` stations are those of the first `upto`, plus those of
/// the links of station `upto` where it is stamped.
proof fn lemma_tracks_step(network: &Network, frame: MapFrame, k: u64, upto: int)
    requires
        0 <= upto,
    ensures
        track_claims(network, frame, k, upto + 1) <==> (track_claims(network, frame, k, upto) || (stamped(
            network,
            frame,
            upto,
        ) && exists|j: int|
            0 <= j < network.stations_view().len() && network.adjacent(upto, j) && #[trigger] line_claims(
                frame.tile_of(network.stations_view()[upto].coord),
                frame.tile_of(network.stations_view()[j].coord),
                frame.track_width_spec(),
                k,
            ))),
{
    if track_claims(network, frame, k, upto + 1) {
        let (s, j) = choose|s: int, j: int|
            0 <= s < upto + 1 && stamped(network, frame, s) && 0 <= j < network.stations_view().len()
                && network.adjacent(s, j) && #[trigger] line_claims(
                frame.tile_of(network.stations_view()[s].coord),
                frame.tile_of(network.stations_view()[j].coord),
                frame.track_width_spec(),
                k,
            );
        if s < upto {
            assert(track_claims(network, frame, k, upto));
        }
    }
    if track_claims(network, frame, k, upto) {
        let (s, j) = choose|s: int, j: int|
            0 <= s < upto && stamped(network, frame, s) && 0 <= j < network.stations_view().len()
                && network.adjacent(s, j) && #[trigger] line_claims(
                frame.tile_of(network.stations_view()[s].coord),
                frame.tile_of(network.stations_view()[j].coord),
                frame.track_width_spec(),
                k,
            );
        assert(track_claims(network, frame, k, upto + 1));
    }
}

/// The claims of the first `p + 1` tiles of a line are those of the first `p`, plus the square
/// of tile `p` where it is in range.
proof fn lemma_prefix_step(line: Seq<Tile>, track_width: int, k: u64, p: int)
    requires
        0 <= p < line.len(),
    ensures
        line_prefix_claims(line, track_width, k, p + 1) <==> (line_prefix_claims(line, track_width, k, p) || (
        tile_in_range(line[p]) && exists|q: int|
            0 <= q < box_tiles(line[p], track_width).len() && key_of(#[trigger] box_tiles(line[p], track_width)[q]) == k)),
{
    if line_prefix_claims(line, track_width, k, p + 1) {
        let (pj, q) = choose|pj: int, q: int|
            0 <= pj < p + 1 && tile_in_range(line[pj]) && 0 <= q < box_tiles(line[pj], track_width).len() && key_of(
                #[trigger] box_tiles(line[pj], track_width)[q],
            ) == k;
        if pj < p {
            assert(line_prefix_claims(line, track_width, k, p));
        }
    }
    if line_prefix_claims(line, track_width, k, p) {
        let (pj, q) = choose|pj: int, q: int|
            0 <= pj < p && tile_in_range(line[pj]) && 0 <= q < box_tiles(line[pj], track_width).len() && key_of(
                #[trigger] box_tiles(line[pj], track_width)[q],
            ) == k;
        assert(line_prefix_claims(line, track_width, k, p + 1));
    }
}

/// The application state: the network, the view, the active effects and the base map.
pub struct World {
    network: Network,
    map_frame: MapFrame,
    effect_manager: EffectManager,
    base_map: HashMap<u64, TileStatus>,
    dt: u64,
}

impl World {
    pub closed spec fn network_view(&self) -> &Network {
        &self.network
    }

    pub closed spec fn frame_view(&self) -> MapFrame {
        self.map_frame
    }

    pub closed spec fn base_map_view(&self) -> Map<u64, TileStatus> {
        self.base_map@
    }

    /// Time not yet simulated, in nanoseconds.
    pub closed spec fn pending_view(&self) -> int {
        self.dt as int
    }

    pub closed spec fn effects_view(&self) -> Seq<crate::effect::Effect> {
        self.effect_manager.effects@
    }

    pub closed spec fn wf(&self) -> bool {
        &&& self.network.wf()
        &&& self.map_frame.wf()
        &&& self.effect_manager.wf()
    }

    /// A well-formed world has a well-formed network and frame.
    pub proof fn lemma_wf(&self)
        requires
            self.wf(),
        ensures
            self.network_view().wf(),
            self.frame_view().wf(),
    {
    }

    /// A world over `network`, showing the default view, with no effects and an empty base map.
    pub fn new(network: Network) -> (r: World)
        requires
            network.wf(),
        ensures
            r.wf(),
            *r.network_view() == network,
            r.frame_view() == MapFrame::default_spec(),
            r.base_map_view().len() == 0,
            r.effects_view().len() == 0,
    {
        World {
            network,
            map_frame: MapFrame::default_frame(),
            effect_manager: EffectManager::new(),
            base_map: HashMap::new(),
            dt: 0,
        }
    }

    /// The current view.
    pub fn frame(&self) -> (r: MapFrame)
        ensures
            r == self.frame_view(),
    {
        self.map_frame
    }

    /// The network shown.
    pub fn network(&self) -> (r: &Network)
        ensures
            r == self.network_view(),
    {
        &self.network
    }

    /// What the base map holds at `tile`.
    pub fn status_at(&self, tile: Tile) -> (r: Option<TileStatus>)
        ensures
            r == (if self.base_map_view().contains_key(key_of(tile)) {
                Some(self.base_map_view()[key_of(tile)])
            } else {
                None
            }),
    {
        match self.base_map.get(&tile_key(tile)) {
            Some(s) => Some(*s),
            None => None,
        }
    }

    /// Builds the base map for the initial view; see `update_base_map`.
    pub fn init(&mut self)
        requires
            old(self).wf(),
        ensures
            final(self).wf(),
            final(self).network_view() == old(self).network_view(),
            final(self).frame_view() == old(self).frame_view(),
            final(self).effects_view() == old(self).effects_view(),
            base_exact(
                final(self).base_map_view(),
                final(self).network_view(),
                final(self).frame_view(),
                final(self).network_view().stations_view().len() as int,
            ),
            centers_ok(final(self).base_map_view(), final(self).network_view(), final(self).frame_view()),
            statuses_exact(
                final(self).base_map_view(),
                final(self).network_view(),
                final(self).frame_view(),
                final(self).network_view().stations_view().len() as int,
            ),
    {
        self.update_base_map();
    }

    /// Builds the base map of stations and tracks: every visible station gets a square of
    /// tiles sized for the zoom level, its center tile marked with the station, the rest as
    /// its shadow; every link of such a station is rasterized and each tile of the line gets a
    /// track-sized square of track, which never replaces a station's tile. Lines longer than
    /// the rasterizer's limit, and tiles too far out to carry a square, are left out.
    pub fn update_base_map(&mut self)
        requires
            old(self).wf(),
        ensures
            final(self).wf(),
            final(self).network_view() == old(self).network_view(),
            final(self).frame_view() == old(self).frame_view(),
            final(self).effects_view() == old(self).effects_view(),
            base_exact(
                final(self).base_map_view(),
                final(self).network_view(),
                final(self).frame_view(),
                final(self).network_view().stations_view().len() as int,
            ),
            centers_ok(final(self).base_map_view(), final(self).network_view(), final(self).frame_view()),
            statuses_exact(
                final(self).base_map_view(),
                final(self).network_view(),
                final(self).frame_view(),
                final(self).network_view().stations_view().len() as int,
            ),
    {
        self.base_map.clear();
        let station_width = self.map_frame.station_width();
        let track_width = self.map_frame.track_width();
        let n = self.network.len();
        proof {
            self.network.lemma_wf();
            assert(base_exact(self.base_map@, &self.network, self.map_frame, 0));
        }
        let mut i: usize = 0;
        while i < n
            invariant
                self.wf(),
                self.network == old(self).network,
                self.map_frame == old(self).map_frame,
                self.effect_manager == old(self).effect_manager,
                centers_ok(self.base_map@, &self.network, self.map_frame),
                n == self.network.stations_view().len(),
                station_width == self.map_frame.station_width_spec(),
                track_width == self.map_frame.track_width_spec(),
                i <= n,
                base_exact(self.base_map@, &self.network, self.map_frame, i as int),
                statuses_exact(self.base_map@, &self.network, self.map_frame, i as int),
            decreases n - i,
        {
            self.stamp_station(i, station_width, track_width);
            i += 1;
        }
    }

    /// Stamps the square of station `i` and the tracks of its links.
    fn stamp_station(&mut self, i: usize, station_width: i32, track_width: i32)
        requires
            old(self).wf(),
            i < old(self).network.stations_view().len(),
            station_width == old(self).map_frame.station_width_spec(),
            track_width == old(self).map_frame.track_width_spec(),
            base_exact(old(self).base_map@, &old(self).network, old(self).map_frame, i as int),
            centers_ok(old(self).base_map@, &old(self).network, old(self).map_frame),
            statuses_exact(old(self).base_map@, &old(self).network, old(self).map_frame, i as int),
        ensures
            centers_ok(final(self).base_map@, &final(self).network, final(self).map_frame),
            statuses_exact(final(self).base_map@, &final(self).network, final(self).map_frame, i + 1),
            final(self).wf(),
            final(self).network == old(self).network,
            final(self).map_frame == old(self).map_frame,
            final(self).effect_manager == old(self).effect_manager,
            base_exact(final(self).base_map@, &final(self).network, final(self).map_frame, i + 1),
    {
        proof {
            self.network.lemma_wf();
        }
        let frame = self.map_frame;
        let coord = self.network.station(i).coord;
        let station_tile = frame.get_tile(coord);
        let ghost upto = i as int;
        let ghost net = self.network;
        let ghost s_old = |k: u64| station_claims(&net, frame, k, upto);
        let ghost s_new = |k: u64| station_claims(&net, frame, k, upto + 1);
        let ghost t_old = |k: u64| track_claims(&net, frame, k, upto);
        let ghost t_new = |k: u64| track_claims(&net, frame, k, upto + 1);
        if !frame.is_visible(coord) || !in_range(station_tile) {
            proof {
                assert forall|k: u64| #[trigger] s_new(k) == s_old(k) by {
                    lemma_claims_step(&net, frame, k, upto);
                }
                assert forall|k: u64| #[trigger] t_new(k) == t_old(k) by {
                    lemma_tracks_step(&net, frame, k, upto);
                }
                let m = self.base_map@;
                assert forall|k: u64| #[trigger] m.contains_key(k) <==> (s_new(k) || t_new(k)) by {
                    assert(m.contains_key(k) <==> (s_old(k) || t_old(k)));
                }
                assert forall|k: u64| #[trigger] m.contains_key(k) implies (is_station_status(m[k]) <==> s_new(k)) by {
                    assert(m.contains_key(k) ==> (is_station_status(m[k]) <==> s_old(k)));
                }
                assert forall|k: u64| #[trigger] owner(&net, frame, k, upto + 1) == owner(&net, frame, k, upto) by {}
            }
            return;
        }
        let mut it = Tile::get_box(station_tile, station_width);
        let square = it.collect_tiles();
        let mut m: usize = 0;
        while m < square.len()
            invariant
                self.wf(),
                self.network == net,
                net == old(self).network,
                self.map_frame == frame,
                self.effect_manager == old(self).effect_manager,
                centers_ok(self.base_map@, &self.network, self.map_frame),
                upto == i,
                upto < net.stations_view().len(),
                coord == net.stations_view()[upto].coord,
                station_tile == frame.tile_of(coord),
                square@ == box_tiles(station_tile, station_width as int),
                m <= square@.len(),
                layout_exact(
                    self.base_map@,
                    |k: u64| s_old(k) || exists|q: int| 0 <= q < m && key_of(#[trigger] square@[q]) == k,
                    t_old,
                ),
                forall|k: u64|
                    #[trigger] self.base_map@.contains_key(k) && is_station_status(self.base_map@[k]) ==> (if exists|q: int|
                        0 <= q < m && key_of(#[trigger] square@[q]) == k {
                        self.base_map@[k] == square_status(&net, frame, upto, k)
                    } else {
                        owner(&net, frame, k, upto) is Some && self.base_map@[k] == square_status(
                            &net,
                            frame,
                            owner(&net, frame, k, upto)->0,
                            k,
                        )
                    }),
            decreases square@.len() - m,
        {
            let t = square[m];
            let status = if t == station_tile {
                TileStatus::Station(i)
            } else {
                TileStatus::StationShadow
            };
            let ghost m0 = self.base_map@;
            let k = tile_key(t);
            self.base_map.insert(k, status);
            m += 1;
            proof {
                let c_old = |k2: u64| s_old(k2) || exists|q: int| 0 <= q < m - 1 && key_of(#[trigger] square@[q]) == k2;
                let c_new = |k2: u64| s_old(k2) || exists|q: int| 0 <= q < m && key_of(#[trigger] square@[q]) == k2;
                assert forall|k2: u64| #[trigger] c_new(k2) == (c_old(k2) || k2 == k) by {
                    if k2 == k {
                        assert(key_of(square@[m - 1]) == k2);
                    }
                    if exists|q: int| 0 <= q < m && key_of(#[trigger] square@[q]) == k2 {
                        let q = choose|q: int| 0 <= q < m && key_of(#[trigger] square@[q]) == k2;
                        if q < m - 1 {
                            assert(c_old(k2));
                        }
                    }
                }
                assert(layout_exact(m0, c_old, t_old));
                let m1 = self.base_map@;
                assert forall|k2: u64| #[trigger] m1.contains_key(k2) <==> (c_new(k2) || t_old(k2)) by {
                    assert(m0.contains_key(k2) <==> (c_old(k2) || t_old(k2)));
                }
                assert forall|k2: u64| #[trigger] m1.contains_key(k2) implies (is_station_status(m1[k2]) <==> c_new(k2)) by {
                    assert(m0.contains_key(k2) ==> (is_station_status(m0[k2]) <==> c_old(k2)));
                }
                assert forall|k2: u64| #[trigger] m1.contains_key(k2) implies (is_station_status(m1[k2]) || m1[k2] is Track) by {
                    assert(m0.contains_key(k2) ==> (is_station_status(m0[k2]) || m0[k2] is Track));
                }
                if t != station_tile {
                    lemma_key_injective(t, station_tile);
                }
                assert(status == square_status(&net, frame, upto, k));
                assert forall|k2: u64|
                    #[trigger] m1.contains_key(k2) && is_station_status(m1[k2]) implies (if exists|q: int|
                        0 <= q < m && key_of(#[trigger] square@[q]) == k2 {
                        m1[k2] == square_status(&net, frame, upto, k2)
                    } else {
                        owner(&net, frame, k2, upto) is Some && m1[k2] == square_status(
                            &net,
                            frame,
                            owner(&net, frame, k2, upto)->0,
                            k2,
                        )
                    }) by {
                    if k2 == k {
                        assert(key_of(square@[m - 1]) == k2);
                    } else {
                        assert(m0.contains_key(k2) && is_station_status(m0[k2]));
                        if exists|q: int| 0 <= q < m && key_of(#[trigger] square@[q]) == k2 {
                            let q = choose|q: int| 0 <= q < m && key_of(#[trigger] square@[q]) == k2;
                            assert(q < m - 1);
                        }
                    }
                }
            }
        }
        proof {
            let c_end = |k2: u64| s_old(k2) || exists|q: int| 0 <= q < square@.len() && key_of(#[trigger] square@[q]) == k2;
            assert forall|k2: u64| #[trigger] s_new(k2) == c_end(k2) by {
                lemma_claims_step(&net, frame, k2, upto);
            }
            let m1 = self.base_map@;
            assert(layout_exact(m1, c_end, t_old));
            assert forall|k2: u64| #[trigger] m1.contains_key(k2) <==> (s_new(k2) || t_old(k2)) by {
                assert(m1.contains_key(k2) <==> (c_end(k2) || t_old(k2)));
            }
            assert forall|k2: u64| #[trigger] m1.contains_key(k2) implies (is_station_status(m1[k2]) <==> s_new(k2)) by {
                assert(m1.contains_key(k2) ==> (is_station_status(m1[k2]) <==> c_end(k2)));
            }
            assert forall|k2: u64| #[trigger] m1.contains_key(k2) && is_station_status(m1[k2]) implies owner(
                &net,
                frame,
                k2,
                upto + 1,
            ) is Some && m1[k2] == square_status(&net, frame, owner(&net, frame, k2, upto + 1)->0, k2) by {
                if exists|q: int| 0 <= q < square@.len() && key_of(#[trigger] square@[q]) == k2 {
                    let q = choose|q: int| 0 <= q < square@.len() && key_of(#[trigger] square@[q]) == k2;
                    assert(key_of(box_tiles(frame.tile_of(net.stations_view()[upto].coord), frame.station_width_spec())[q]) == k2);
                    assert(square_covers(&net, frame, upto, k2));
                } else {
                    if square_covers(&net, frame, upto, k2) {
                        let q = choose|q: int|
                            0 <= q < box_tiles(frame.tile_of(net.stations_view()[upto].coord), frame.station_width_spec()).len()
                                && key_of(#[trigger] box_tiles(frame.tile_of(net.stations_view()[upto].coord), frame.station_width_spec())[q])
                                == k2;
                        assert(key_of(square@[q]) == k2);
                    }
                }
            }
        }
        let others = self.network.linked(i);
        let ghost tw = track_width as int;
        let mut o: usize = 0;
        while o < others.len()
            invariant
                self.wf(),
                self.network == net,
                net == old(self).network,
                self.map_frame == frame,
                self.effect_manager == old(self).effect_manager,
                centers_ok(self.base_map@, &self.network, self.map_frame),
                upto == i,
                upto < net.stations_view().len(),
                tw == track_width,
                track_width == frame.track_width_spec(),
                station_tile == frame.tile_of(coord),
                coord == net.stations_view()[upto].coord,
                forall|q: int| 0 <= q < others@.len() ==> (#[trigger] others@[q] as int) < net.stations_view().len(),
                loadable_coords(&net),
                o <= others@.len(),
                statuses_exact(self.base_map@, &net, frame, upto + 1),
                layout_exact(
                    self.base_map@,
                    s_new,
                    |k: u64|
                        t_old(k) || exists|q: int|
                            0 <= q < o && #[trigger] line_claims(
                                station_tile,
                                frame.tile_of(net.stations_view()[others@[q] as int].coord),
                                tw,
                                k,
                            ),
                ),
            decreases others@.len() - o,
        {
            let other = others[o];
            let other_tile = frame.get_tile(self.network.station(other).coord);
            let ghost t_here = |k: u64|
                t_old(k) || exists|q: int|
                    0 <= q < o && #[trigger] line_claims(
                        station_tile,
                        frame.tile_of(net.stations_view()[others@[q] as int].coord),
                        tw,
                        k,
                    );
            self.stamp_track(station_tile, other_tile, track_width, Ghost(s_new), Ghost(t_here));
            o += 1;
            proof {
                let t_after = |k: u64| t_here(k) || line_claims(station_tile, other_tile, track_width as int, k);
                let t_next = |k: u64|
                    t_old(k) || exists|q: int|
                        0 <= q < o && #[trigger] line_claims(
                            station_tile,
                            frame.tile_of(net.stations_view()[others@[q] as int].coord),
                            tw,
                            k,
                        );
                assert forall|k: u64| #[trigger] t_next(k) == t_after(k) by {
                    if exists|q: int|
                        0 <= q < o && #[trigger] line_claims(
                            station_tile,
                            frame.tile_of(net.stations_view()[others@[q] as int].coord),
                            tw,
                            k,
                        ) {
                        let q = choose|q: int|
                            0 <= q < o && #[trigger] line_claims(
                                station_tile,
                                frame.tile_of(net.stations_view()[others@[q] as int].coord),
                                tw,
                                k,
                            );
                        if q < o - 1 {
                            assert(t_here(k));
                        }
                    }
                    if line_claims(station_tile, other_tile, track_width as int, k) {
                        assert(line_claims(
                            station_tile,
                            frame.tile_of(net.stations_view()[others@[o - 1] as int].coord),
                            tw,
                            k,
                        ));
                    }
                }
                let m1 = self.base_map@;
                assert forall|k: u64| #[trigger] m1.contains_key(k) <==> (s_new(k) || t_next(k)) by {
                    assert(m1.contains_key(k) <==> (s_new(k) || t_after(k)));
                }
            }
        }
        proof {
            let t_end = |k: u64|
                t_old(k) || exists|q: int|
                    0 <= q < others@.len() && #[trigger] line_claims(
                        station_tile,
                        frame.tile_of(net.stations_view()[others@[q] as int].coord),
                        tw,
                        k,
                    );
            assert forall|k: u64| #[trigger] t_new(k) == t_end(k) by {
                lemma_tracks_step(&net, frame, k, upto);
                assert(stamped(&net, frame, upto));
                if exists|j: int|
                    0 <= j < net.stations_view().len() && net.adjacent(upto, j) && #[trigger] line_claims(
                        frame.tile_of(net.stations_view()[upto].coord),
                        frame.tile_of(net.stations_view()[j].coord),
                        frame.track_width_spec(),
                        k,
                    ) {
                    let j = choose|j: int|
                        0 <= j < net.stations_view().len() && net.adjacent(upto, j) && #[trigger] line_claims(
                            frame.tile_of(net.stations_view()[upto].coord),
                            frame.tile_of(net.stations_view()[j].coord),
                            frame.track_width_spec(),
                            k,
                        );
                    assert(others@.contains(j as usize));
                    let q = choose|q: int| 0 <= q < others@.len() && others@[q] == j as usize;
                    assert(line_claims(
                        station_tile,
                        frame.tile_of(net.stations_view()[others@[q] as int].coord),
                        tw,
                        k,
                    ));
                }
                if exists|q: int|
                    0 <= q < others@.len() && #[trigger] line_claims(
                        station_tile,
                        frame.tile_of(net.stations_view()[others@[q] as int].coord),
                        tw,
                        k,
                    ) {
                    let q = choose|q: int|
                        0 <= q < others@.len() && #[trigger] line_claims(
                            station_tile,
                            frame.tile_of(net.stations_view()[others@[q] as int].coord),
                            tw,
                            k,
                        );
                    let j = others@[q] as int;
                    assert(others@.contains(j as usize));
                    assert(net.adjacent(upto, j));
                }
            }
            let m1 = self.base_map@;
            assert forall|k: u64| #[trigger] m1.contains_key(k) <==> (s_new(k) || t_new(k)) by {
                assert(m1.contains_key(k) <==> (s_new(k) || t_end(k)));
            }
        }
    }

    /// Stamps track along the line from `a` to `b`, leaving station squares alone.
    fn stamp_track(
        &mut self,
        a: Tile,
        b: Tile,
        track_width: i32,
        claimed: Ghost<spec_fn(u64) -> bool>,
        on_track: Ghost<spec_fn(u64) -> bool>,
    )
        requires
            old(self).wf(),
            track_width <= 100,
            layout_exact(old(self).base_map@, claimed@, on_track@),
            centers_ok(old(self).base_map@, &old(self).network, old(self).map_frame),
        ensures
            centers_ok(final(self).base_map@, &final(self).network, final(self).map_frame),
            forall|k: u64|
                old(self).base_map@.contains_key(k) && is_station_status(old(self).base_map@[k])
                    ==> #[trigger] final(self).base_map@.contains_key(k) && final(self).base_map@[k] == old(self).base_map@[k],
            final(self).wf(),
            final(self).network == old(self).network,
            final(self).map_frame == old(self).map_frame,
            final(self).effect_manager == old(self).effect_manager,
            layout_exact(
                final(self).base_map@,
                claimed@,
                |k: u64| on_track@(k) || line_claims(a, b, track_width as int, k),
            ),
    {
        if !crate::line::line_fits_exec(a, b) {
            proof {
                let t2 = |k: u64| on_track@(k) || line_claims(a, b, track_width as int, k);
                assert forall|k: u64| #[trigger] t2(k) == on_track@(k) by {}
            }
            return;
        }
        let ghost start = self.base_map@;
        let line = line_tiles(a, b);
        let ghost tw = track_width as int;
        let mut p: usize = 0;
        while p < line.len()
            invariant
                self.wf(),
                self.network == old(self).network,
                self.map_frame == old(self).map_frame,
                self.effect_manager == old(self).effect_manager,
                centers_ok(self.base_map@, &self.network, self.map_frame),
                tw == track_width,
                track_width <= 100,
                start == old(self).base_map@,
                forall|k: u64|
                    start.contains_key(k) && is_station_status(start[k]) ==> #[trigger] self.base_map@.contains_key(k)
                        && self.base_map@[k] == start[k],
                line@ == line_tiles_spec(a, b),
                line_fits(a, b),
                p <= line@.len(),
                layout_exact(
                    self.base_map@,
                    claimed@,
                    |k: u64| on_track@(k) || line_prefix_claims(line@, tw, k, p as int),
                ),
            decreases line@.len() - p,
        {
            let inner = line[p];
            let ghost before_p = p as int;
            if in_range(inner) {
                let mut it = Tile::get_box(inner, track_width);
                let square = it.collect_tiles();
                let mut q: usize = 0;
                while q < square.len()
                    invariant
                        self.wf(),
                        self.network == old(self).network,
                        self.map_frame == old(self).map_frame,
                        self.effect_manager == old(self).effect_manager,
                        centers_ok(self.base_map@, &self.network, self.map_frame),
                        before_p == p,
                        start == old(self).base_map@,
                        forall|k: u64|
                            start.contains_key(k) && is_station_status(start[k]) ==> #[trigger] self.base_map@.contains_key(k)
                                && self.base_map@[k] == start[k],
                        p < line@.len(),
                        square@ == box_tiles(line@[before_p], tw),
                        q <= square@.len(),
                        layout_exact(
                            self.base_map@,
                            claimed@,
                            |k: u64|
                                on_track@(k) || line_prefix_claims(line@, tw, k, before_p) || exists|q2: int|
                                    0 <= q2 < q && key_of(#[trigger] square@[q2]) == k,
                        ),
                    decreases square@.len() - q,
                {
                    let k = tile_key(square[q]);
                    let taken = match self.base_map.get(&k) {
                        Some(TileStatus::Station(_)) => true,
                        Some(TileStatus::StationShadow) => true,
                        _ => false,
                    };
                    let ghost m0 = self.base_map@;
                    if !taken {
                        self.base_map.insert(k, TileStatus::Track);
                    }
                    q += 1;
                    proof {
                        lemma_track_keeps_stations(start, m0, self.base_map@, k);
                        let t_old = |k2: u64|
                            on_track@(k2) || line_prefix_claims(line@, tw, k2, before_p) || exists|q2: int|
                                0 <= q2 < q - 1 && key_of(#[trigger] square@[q2]) == k2;
                        let t_new = |k2: u64|
                            on_track@(k2) || line_prefix_claims(line@, tw, k2, before_p) || exists|q2: int|
                                0 <= q2 < q && key_of(#[trigger] square@[q2]) == k2;
                        assert forall|k2: u64| #[trigger] t_new(k2) == (t_old(k2) || k2 == k) by {
                            if k2 == k {
                                assert(key_of(square@[q - 1]) == k2);
                            }
                            if exists|q2: int| 0 <= q2 < q && key_of(#[trigger] square@[q2]) == k2 {
                                let q2 = choose|q2: int| 0 <= q2 < q && key_of(#[trigger] square@[q2]) == k2;
                                if q2 < q - 1 {
                                    assert(t_old(k2));
                                }
                            }
                        }
                        assert(layout_exact(m0, claimed@, t_old));
                        assert forall|k2: u64| #[trigger] self.base_map@.contains_key(k2) <==> (claimed@(k2) || t_new(k2)) by {
                            assert(m0.contains_key(k2) <==> (claimed@(k2) || t_old(k2)));
                        }
                        assert forall|k2: u64| #[trigger] self.base_map@.contains_key(k2) implies (is_station_status(self.base_map@[k2]) <==> claimed@(k2)) by {
                            assert(m0.contains_key(k2) <==> (claimed@(k2) || t_old(k2)));
                            if k2 == k && !taken {
                                if claimed@(k2) {
                                    assert(m0.contains_key(k2));
                                }
                            }
                        }
                        assert forall|k2: u64| #[trigger] self.base_map@.contains_key(k2) implies (is_station_status(self.base_map@[k2]) || self.base_map@[k2] is Track) by {
                            assert(m0.contains_key(k2) <==> (claimed@(k2) || t_old(k2)));
                        }
                    }
                }
                proof {
                    let t_loop = |k2: u64|
                        on_track@(k2) || line_prefix_claims(line@, tw, k2, before_p) || exists|q2: int|
                            0 <= q2 < square@.len() && key_of(#[trigger] square@[q2]) == k2;
                    let t_next = |k2: u64| on_track@(k2) || line_prefix_claims(line@, tw, k2, before_p + 1);
                    assert forall|k2: u64| #[trigger] t_next(k2) == t_loop(k2) by {
                        lemma_prefix_step(line@, tw, k2, before_p);
                    }
                    let m1 = self.base_map@;
                    assert(layout_exact(m1, claimed@, t_loop));
                    assert forall|k2: u64| #[trigger] m1.contains_key(k2) <==> (claimed@(k2) || t_next(k2)) by {
                        assert(m1.contains_key(k2) <==> (claimed@(k2) || t_loop(k2)));
                    }
                }
            } else {
                proof {
                    let t_now = |k2: u64| on_track@(k2) || line_prefix_claims(line@, tw, k2, before_p);
                    let t_next = |k2: u64| on_track@(k2) || line_prefix_claims(line@, tw, k2, before_p + 1);
                    assert forall|k2: u64| #[trigger] t_next(k2) == t_now(k2) by {
                        lemma_prefix_step(line@, tw, k2, before_p);
                    }
                    let m1 = self.base_map@;
                    assert forall|k2: u64| #[trigger] m1.contains_key(k2) <==> (claimed@(k2) || t_next(k2)) by {
                        assert(m1.contains_key(k2) <==> (claimed@(k2) || t_now(k2)));
                    }
                }
            }
            assert forall|k: u64|
                start.contains_key(k) && is_station_status(start[k]) implies #[trigger] self.base_map@.contains_key(k)
                    && self.base_map@[k] == start[k] by {
                assert(start.contains_key(k) && is_station_status(start[k]));
            }
            p += 1;
        }
        proof {
            let t_end = |k2: u64| on_track@(k2) || line_prefix_claims(line@, tw, k2, line@.len() as int);
            let t2 = |k2: u64| on_track@(k2) || line_claims(a, b, track_width as int, k2);
            assert forall|k2: u64| #[trigger] t2(k2) == t_end(k2) by {}
            let m1 = self.base_map@;
            assert forall|k2: u64| #[trigger] m1.contains_key(k2) <==> (claimed@(k2) || t2(k2)) by {
                assert(m1.contains_key(k2) <==> (claimed@(k2) || t_end(k2)));
            }
        }
    }
}

/// Whether `c` lies within the frame itself, without a margin.
pub open spec fn strictly_inside(frame: MapFrame, c: MapCoord) -> bool {
    &&& frame.upper_left.long.0 <= c.long.0 <= frame.lower_right.long.0
    &&& frame.lower_right.lat.0 <= c.lat.0 <= frame.upper_left.lat.0
}

/// Whether station `s` gets a name: its tile holds it, and it lies within the frame itself.
pub open spec fn named_station(m: Map<u64, TileStatus>, network: &Network, frame: MapFrame, s: int) -> bool {
    let c = network.stations_view()[s].coord;
    let k = key_of(frame.tile_of(c));
    &&& m.contains_key(k)
    &&& m[k] == TileStatus::Station(s as usize)
    &&& strictly_inside(frame, c)
}

/// Tile order: by column, then by row.
pub open spec fn tile_lt(a: Tile, b: Tile) -> bool {
    a.x.0 < b.x.0 || (a.x.0 == b.x.0 && a.y.0 < b.y.0)
}

fn tile_less(a: Tile, b: Tile) -> (r: bool)
    ensures
        r == tile_lt(a, b),
{
    a.x.0 < b.x.0 || (a.x.0 == b.x.0 && a.y.0 < b.y.0)
}

/// Index of the color ramp that names of station `s` of `network` are drawn with.
pub open spec fn label_color(network: &Network, s: int) -> usize {
    (network.stations_view()[s].id.0 % 3) as usize
}

/// Whether station names are drawn in `frame`: only from a height of half a degree down.
pub open spec fn labels_shown_spec(frame: MapFrame) -> bool {
    frame.height_spec() <= 500_000
}

/// Whether station names are drawn in `frame`.
pub fn labels_shown(frame: &MapFrame) -> (r: bool)
    requires
        frame.wf(),
    ensures
        r == labels_shown_spec(*frame),
{
    frame.height().0 <= 500_000
}

/// Index of the color ramp that names of station `id` are drawn with.
pub fn label_color_index(id: crate::data::StationId) -> (r: usize)
    ensures
        r == id.0 % 3,
{
    (id.0 % 3) as usize
}

/// Proof that in a base map built from station squares and tracks, every tile in the square
/// of a stamped station holds that station or its shadow, never track.
pub proof fn lemma_station_outranks_track(m: Map<u64, TileStatus>, network: &Network, frame: MapFrame, k: u64)
    requires
        base_exact(m, network, frame, network.stations_view().len() as int),
        station_claims(network, frame, k, network.stations_view().len() as int),
    ensures
        m.contains_key(k),
        m[k] is Station || m[k] is StationShadow,
{
    let n = network.stations_view().len() as int;
    assert(m.contains_key(k) <==> (station_claims(network, frame, k, n) || track_claims(network, frame, k, n)));
    assert(m.contains_key(k) ==> (is_station_status(m[k]) <==> station_claims(network, frame, k, n)));
}

impl World {
    /// The stations to name, each with its tile, sorted by tile: every station whose own
    /// tile holds it and which lies within the frame itself. Tiles hold one station each, so
    /// no two entries share a tile.
    pub fn label_requests(&self) -> (r: Vec<(Tile, usize)>)
        requires
            self.wf(),
        ensures
            forall|a: int, b: int| 0 <= a < b < r@.len() ==> tile_lt(#[trigger] r@[a].0, #[trigger] r@[b].0),
            forall|a: int|
                0 <= a < r@.len() ==> {
                    &&& (#[trigger] r@[a]).1 < self.network_view().stations_view().len()
                    &&& named_station(self.base_map_view(), self.network_view(), self.frame_view(), r@[a].1 as int)
                    &&& r@[a].0 == self.frame_view().tile_of(self.network_view().stations_view()[r@[a].1 as int].coord)
                },
            forall|s: int|
                0 <= s < self.network_view().stations_view().len() && named_station(
                    self.base_map_view(),
                    self.network_view(),
                    self.frame_view(),
                    s,
                ) ==> exists|a: int| 0 <= a < r@.len() && (#[trigger] r@[a]).1 == s,
    {
        proof {
            self.network.lemma_wf();
        }
        let frame = self.map_frame;
        let n = self.network.len();
        let mut r: Vec<(Tile, usize)> = Vec::new();
        let mut i: usize = 0;
        while i < n
            invariant
                self.wf(),
                frame == self.map_frame,
                n == self.network.stations_view().len(),
                loadable_coords(&self.network),
                i <= n,
                forall|a: int, b: int| 0 <= a < b < r@.len() ==> tile_lt(#[trigger] r@[a].0, #[trigger] r@[b].0),
                forall|a: int|
                    0 <= a < r@.len() ==> {
                        &&& (#[trigger] r@[a]).1 < i
                        &&& named_station(self.base_map@, &self.network, frame, r@[a].1 as int)
                        &&& r@[a].0 == frame.tile_of(self.network.stations_view()[r@[a].1 as int].coord)
                    },
                forall|s: int|
                    0 <= s < i && named_station(self.base_map@, &self.network, frame, s) ==> exists|a: int|
                        0 <= a < r@.len() && (#[trigger] r@[a]).1 == s,
            decreases n - i,
        {
            let c = self.network.station(i).coord;
            let t = frame.get_tile(c);
            let inside = frame.upper_left.long.0 <= c.long.0 && c.long.0 <= frame.lower_right.long.0
                && frame.lower_right.lat.0 <= c.lat.0 && c.lat.0 <= frame.upper_left.lat.0;
            let holds = match self.base_map.get(&tile_key(t)) {
                Some(TileStatus::Station(s)) => *s == i,
                _ => false,
            };
            if inside && holds {
                let mut pos: usize = 0;
                while pos < r.len() && tile_less(r[pos].0, t)
                    invariant
                        pos <= r@.len(),
                        forall|a: int| 0 <= a < pos ==> tile_lt(#[trigger] r@[a].0, t),
                    decreases r@.len() - pos,
                {
                    pos += 1;
                }
                proof {
                    assert forall|a: int| pos <= a < r@.len() implies tile_lt(t, #[trigger] r@[a].0) by {
                        if a > pos {
                            assert(tile_lt(r@[pos as int].0, r@[a].0));
                        }
                        if r@[a].0 == t {
                            assert(self.base_map@[key_of(t)] == TileStatus::Station(r@[a].1));
                        }
                    }
                }
                let ghost before = r@;
                r.insert(pos, (t, i));
                proof {
                    assert forall|a: int| 0 <= a < r@.len() implies (#[trigger] r@[a]).1 < i + 1 && named_station(
                        self.base_map@,
                        &self.network,
                        frame,
                        r@[a].1 as int,
                    ) && r@[a].0 == frame.tile_of(self.network.stations_view()[r@[a].1 as int].coord) by {
                        if a < pos {
                            assert(r@[a] == before[a]);
                        } else if a > pos {
                            assert(r@[a] == before[a - 1]);
                        }
                    }
                    assert forall|a: int, b: int| 0 <= a < b < r@.len() implies tile_lt(#[trigger] r@[a].0, #[trigger] r@[b].0) by {
                        if b < pos {
                            assert(tile_lt(before[a].0, before[b].0));
                        } else if a < pos && b == pos {
                        } else if a < pos {
                            assert(r@[b] == before[b - 1]);
                            assert(tile_lt(before[a].0, t));
                        } else if a == pos {
                            assert(r@[b] == before[b - 1]);
                        } else {
                            assert(r@[a] == before[a - 1]);
                            assert(r@[b] == before[b - 1]);
                            assert(tile_lt(before[a - 1].0, before[b - 1].0));
                        }
                    }
                    assert forall|s: int|
                        0 <= s < i + 1 && named_station(self.base_map@, &self.network, frame, s) implies exists|a: int|
                        0 <= a < r@.len() && (#[trigger] r@[a]).1 == s by {
                        if s == i {
                            assert(r@[pos as int].1 == s);
                        } else {
                            let a = choose|a: int| 0 <= a < before.len() && (#[trigger] before[a]).1 == s;
                            if a < pos {
                                assert(r@[a] == before[a]);
                            } else {
                                assert(r@[a + 1] == before[a]);
                            }
                        }
                    }
                }
            }
            i += 1;
        }
        r
    }

    /// Marks name tiles, each given with the station it names: a tile gets the color ramp of
    /// the last station named on it (its identity modulo 3), unless it already holds a
    /// station, its shadow or track.
    pub fn apply_labels(&mut self, labels: &Vec<(Tile, usize)>)
        requires
            old(self).wf(),
            forall|a: int| 0 <= a < labels@.len() ==> (#[trigger] labels@[a]).1 < old(self).network_view().stations_view().len(),
        ensures
            final(self).wf(),
            final(self).network_view() == old(self).network_view(),
            final(self).frame_view() == old(self).frame_view(),
            final(self).effects_view() == old(self).effects_view(),
            forall|k: u64|
                old(self).base_map_view().contains_key(k) && !(old(self).base_map_view()[k] is Font)
                    ==> #[trigger] final(self).base_map_view().contains_key(k)
                    && final(self).base_map_view()[k] == old(self).base_map_view()[k],
            forall|k: u64|
                #[trigger] final(self).base_map_view().contains_key(k) ==> old(self).base_map_view().contains_key(k)
                    || final(self).base_map_view()[k] is Font,
            forall|a: int|
                0 <= a < labels@.len() ==> #[trigger] final(self).base_map_view().contains_key(key_of(labels@[a].0)),
            forall|k: u64|
                (!old(self).base_map_view().contains_key(k) || old(self).base_map_view()[k] is Font) && #[trigger] last_label(
                    labels@,
                    k,
                    labels@.len() as int,
                ) is Some ==> final(self).base_map_view().contains_key(k) && final(self).base_map_view()[k]
                    == TileStatus::Font(label_color(final(self).network_view(), last_label(labels@, k, labels@.len() as int)->0 as int)),
    {
        let ghost start = self.base_map@;
        let mut i: usize = 0;
        while i < labels.len()
            invariant
                self.wf(),
                self.network == old(self).network,
                self.map_frame == old(self).map_frame,
                self.effect_manager == old(self).effect_manager,
                start == old(self).base_map@,
                i <= labels@.len(),
                forall|k: u64|
                    start.contains_key(k) && !(start[k] is Font) ==> #[trigger] self.base_map@.contains_key(k)
                        && self.base_map@[k] == start[k],
                forall|k: u64| #[trigger] self.base_map@.contains_key(k) ==> start.contains_key(k) || self.base_map@[k] is Font,
                forall|a: int| 0 <= a < i ==> #[trigger] self.base_map@.contains_key(key_of(labels@[a].0)),
                forall|k: u64|
                    (!start.contains_key(k) || start[k] is Font) && #[trigger] self.base_map@.contains_key(k) ==> self.base_map@[k] is Font,
                forall|k: u64|
                    (!start.contains_key(k) || start[k] is Font) && #[trigger] last_label(labels@, k, i as int) is Some
                        ==> self.base_map@.contains_key(k) && self.base_map@[k] == TileStatus::Font(
                        label_color(&self.network, last_label(labels@, k, i as int)->0 as int),
                    ),
                forall|a: int| 0 <= a < labels@.len() ==> (#[trigger] labels@[a]).1 < self.network.stations_view().len(),
            decreases labels@.len() - i,
        {
            let (t, station) = labels[i];
            let index = label_color_index(self.network.station(station).id);
            let k = tile_key(t);
            let taken = match self.base_map.get(&k) {
                Some(TileStatus::Font(_)) => false,
                Some(_) => true,
                None => false,
            };
            let ghost m0 = self.base_map@;
            if !taken {
                self.base_map.insert(k, TileStatus::Font(index));
            }
            i += 1;
            proof {
                assert forall|k2: u64|
                    (!start.contains_key(k2) || start[k2] is Font) && #[trigger] last_label(labels@, k2, i as int) is Some
                        implies self.base_map@.contains_key(k2) && self.base_map@[k2] == TileStatus::Font(
                        label_color(&self.network, last_label(labels@, k2, i as int)->0 as int),
                    ) by {
                    if k2 != k {
                        assert(last_label(labels@, k2, i as int) == last_label(labels@, k2, i - 1));
                    } else {
                        assert(last_label(labels@, k2, i as int) == Some(station));
                        if m0.contains_key(k2) {
                            assert(m0[k2] is Font);
                        }
                    }
                }
            }
        }
        assert forall|k: u64|
            old(self).base_map_view().contains_key(k) && !(old(self).base_map_view()[k] is Font) implies #[trigger] self.base_map_view().contains_key(k)
                && self.base_map_view()[k] == old(self).base_map_view()[k] by {
            assert(start.contains_key(k) && !(start[k] is Font));
            assert(self.base_map@.contains_key(k));
        }
    }

    /// Zooms at screen cell (`mouse_x`, `mouse_y`) by a scroll amount in thousandths, and
    /// rebuilds the base map. A zoom that would take the frame out of its limits changes
    /// nothing and returns false.
    pub fn zoom(&mut self, mouse_x: isize, mouse_y: isize, scroll_diff: i32) -> (r: bool)
        requires
            old(self).wf(),
        ensures
            final(self).wf(),
            r == old(self).frame_view().zoom_spec(mouse_x as int, mouse_y as int, scroll_diff as int) is Some,
            !r ==> *final(self) == *old(self),
            r ==> final(self).frame_view() == old(self).frame_view().zoom_spec(
                mouse_x as int,
                mouse_y as int,
                scroll_diff as int,
            )->0,
            r ==> final(self).network_view() == old(self).network_view()
                && final(self).effects_view() == old(self).effects_view() && base_exact(
                final(self).base_map_view(),
                final(self).network_view(),
                final(self).frame_view(),
                final(self).network_view().stations_view().len() as int,
            ),
            r ==> centers_ok(final(self).base_map_view(), final(self).network_view(), final(self).frame_view()),
            r ==> statuses_exact(
                final(self).base_map_view(),
                final(self).network_view(),
                final(self).frame_view(),
                final(self).network_view().stations_view().len() as int,
            ),
    {
        match self.map_frame.zoomed(mouse_x, mouse_y, scroll_diff) {
            Some(f) => {
                self.map_frame = f;
                self.update_base_map();
                true
            },
            None => false,
        }
    }

    /// Moves the view by (`diff_x`, `diff_y`) screen pixels and rebuilds the base map. A move
    /// that would take a corner out of the map's bounds changes nothing and returns false.
    pub fn pan(&mut self, diff_x: isize, diff_y: isize) -> (r: bool)
        requires
            old(self).wf(),
        ensures
            final(self).wf(),
            r == old(self).frame_view().pan_spec(diff_x as int, diff_y as int) is Some,
            !r ==> *final(self) == *old(self),
            r ==> final(self).frame_view() == old(self).frame_view().pan_spec(diff_x as int, diff_y as int)->0,
            r ==> final(self).network_view() == old(self).network_view()
                && final(self).effects_view() == old(self).effects_view() && base_exact(
                final(self).base_map_view(),
                final(self).network_view(),
                final(self).frame_view(),
                final(self).network_view().stations_view().len() as int,
            ),
            r ==> centers_ok(final(self).base_map_view(), final(self).network_view(), final(self).frame_view()),
            r ==> statuses_exact(
                final(self).base_map_view(),
                final(self).network_view(),
                final(self).frame_view(),
                final(self).network_view().stations_view().len() as int,
            ),
    {
        match self.map_frame.panned(diff_x, diff_y) {
            Some(f) => {
                self.map_frame = f;
                self.update_base_map();
                true
            },
            None => false,
        }
    }

    /// The station whose center tile lies under screen pixel (`pixel_x`, `pixel_y`), if any.
    pub fn inspect(&self, pixel_x: i16, pixel_y: i16) -> (r: Option<usize>)
        requires
            self.wf(),
        ensures
            ({
                let c = MapCoord {
                    long: crate::map::Degree(
                        (self.frame_view().upper_left.long.0 + crate::map::trunc_div(
                            self.frame_view().width_spec() * pixel_x,
                            200,
                        )) as i64,
                    ),
                    lat: crate::map::Degree(
                        (self.frame_view().upper_left.lat.0 - crate::map::trunc_div(
                            self.frame_view().height_spec() * pixel_y,
                            150,
                        )) as i64,
                    ),
                };
                let k = key_of(self.frame_view().tile_of(c));
                r == (if self.base_map_view().contains_key(k) && self.base_map_view()[k] is Station {
                    Some(self.base_map_view()[k]->Station_0)
                } else {
                    None
                })
            }),
    {
        let coord = self.map_frame.get_map_coord(pixel_x, pixel_y);
        let tile = self.map_frame.get_tile(coord);
        match self.base_map.get(&tile_key(tile)) {
            Some(TileStatus::Station(s)) => Some(*s),
            _ => None,
        }
    }

    /// One simulation tick of the effects (see `EffectManager::update`): every effect
    /// advances, finished ones leave, and new ones may be spawned after them. Returns the
    /// stations that trains reached.
    pub fn step(&mut self, store: &PopularityStore, draw: SpawnDraw) -> (r: Vec<usize>)
        requires
            old(self).wf(),
            store.wf(),
            draw_fits(draw, old(self).network_view().stations_view().len() as int),
        ensures
            final(self).wf(),
            final(self).network_view() == old(self).network_view(),
            final(self).frame_view() == old(self).frame_view(),
            final(self).base_map_view() == old(self).base_map_view(),
            r@ == crate::effect::arrivals_of(old(self).effects_view()),
            crate::effect::tick_outcome(old(self).effects_view(), final(self).effects_view(), final(self).network_view(), draw),
    {
        let r = self.effect_manager.update(&self.network, store, draw);
        r
    }

    /// Adds `elapsed` nanoseconds to the time not yet simulated and returns how many whole
    /// ticks of 1/60 second it now holds; those are taken from it.
    pub fn update(&mut self, elapsed: u64) -> (r: u64)
        requires
            old(self).wf(),
        ensures
            final(self).wf(),
            final(self).network_view() == old(self).network_view(),
            final(self).frame_view() == old(self).frame_view(),
            final(self).base_map_view() == old(self).base_map_view(),
            final(self).effects_view() == old(self).effects_view(),
            r == (old(self).pending_view() + elapsed) / ONE_FRAME_NANOS as int,
            final(self).pending_view() == (old(self).pending_view() + elapsed) % ONE_FRAME_NANOS as int,
    {
        let total: u128 = self.dt as u128 + elapsed as u128;
        let steps = total / ONE_FRAME_NANOS as u128;
        self.dt = (total % ONE_FRAME_NANOS as u128) as u64;
        steps as u64
    }
}

pub const TRACK_COLOR: [u8; 3] = [0x4f, 0x61, 0x6b];
pub const STATION_COLOR: [u8; 3] = [0xc4, 0x9d, 0xcf];
pub const BACKGROUND_COLOR: [u8; 3] = [0x32, 0x2f, 0x3d];

/// Three color ramps (yellow, green, blue) for station names, from faint to bright.
pub const FONT_COLORS: [[[u8; 3]; 10]; 3] = [
    [
        [0x37, 0x33, 0x43],
        [0x4c, 0x4a, 0x49],
        [0x62, 0x60, 0x4f],
        [0x77, 0x77, 0x55],
        [0x8d, 0x8e, 0x5b],
        [0xa2, 0xa4, 0x62],
        [0xb8, 0xbb, 0x68],
        [0xcd, 0xd2, 0x6e],
        [0xe2, 0xe8, 0x74],
        [0xf8, 0xff, 0x7a],
    ],
    [
        [0x37, 0x33, 0x43],
        [0x3e, 0x49, 0x4c],
        [0x45, 0x60, 0x56],
        [0x4b, 0x76, 0x5f],
        [0x52, 0x8c, 0x69],
        [0x59, 0xa3, 0x72],
        [0x60, 0xb9, 0x7c],
        [0x66, 0xcf, 0x86],
        [0x6d, 0xe6, 0x8f],
        [0x74, 0xfc, 0x98],
    ],
    [
        [0x37, 0x33, 0x43],
        [0x36, 0x3f, 0x58],
        [0x35, 0x4b, 0x6c],
        [0x35, 0x56, 0x81],
        [0x34, 0x61, 0x95],
        [0x33, 0x6e, 0xaa],
        [0x32, 0x7a, 0xbe],
        [0x32, 0x85, 0xd3],
        [0x31, 0x92, 0xe7],
        [0x30, 0x9d, 0xfc],
    ],
];

/// The map `m` with each tile of `cs` set to its color, later entries winning.
pub open spec fn paint_layer(m: Map<u64, [u8; 3]>, cs: Seq<(Tile, [u8; 3])>) -> Map<u64, [u8; 3]>
    decreases cs.len(),
{
    if cs.len() == 0 {
        m
    } else {
        paint_layer(m, cs.drop_last()).insert(key_of(cs.last().0), cs.last().1)
    }
}

/// The map `m` painted with the colors of the effects of `es` that have priority `prio`, in order.
pub open spec fn layer_of(es: Seq<Effect>, frame: MapFrame, prio: u8, m: Map<u64, [u8; 3]>) -> Map<u64, [u8; 3]>
    decreases es.len(),
{
    if es.len() == 0 {
        m
    } else {
        let below = layer_of(es.drop_last(), frame, prio, m);
        if es.last().priority_spec() == prio {
            paint_layer(below, es.last().colors_spec(frame))
        } else {
            below
        }
    }
}

/// The effect colors of a frame: trains first, blinking stations over them.
pub open spec fn effect_colors(es: Seq<Effect>, frame: MapFrame) -> Map<u64, [u8; 3]> {
    layer_of(es, frame, 2, layer_of(es, frame, 1, Map::empty()))
}

/// Color of a name tile of ramp `ramp` at brightness `level`.
pub open spec fn font_color_spec(ramp: int, level: int) -> [u8; 3] {
    if 0 <= ramp < 3 && 0 <= level < 10 {
        FONT_COLORS@[ramp]@[level]
    } else {
        BACKGROUND_COLOR
    }
}

/// Color of a tile: its effect color if any, else that of its base-map status, else the
/// background.
pub open spec fn tile_color(effects: Map<u64, [u8; 3]>, base: Map<u64, TileStatus>, k: u64, level: int) -> [u8; 3] {
    if effects.contains_key(k) {
        effects[k]
    } else if base.contains_key(k) {
        match base[k] {
            TileStatus::Font(i) => font_color_spec(i as int, level),
            TileStatus::Station(_) => STATION_COLOR,
            TileStatus::StationShadow => STATION_COLOR,
            TileStatus::Track => TRACK_COLOR,
        }
    } else {
        BACKGROUND_COLOR
    }
}

/// The base-map key of the tile under screen pixel (`x`, `y`).
pub open spec fn pixel_key(frame: MapFrame, x: int, y: int) -> u64 {
    let c = MapCoord {
        long: crate::map::Degree((frame.upper_left.long.0 + crate::map::trunc_div(frame.width_spec() * x, 200)) as i64),
        lat: crate::map::Degree((frame.upper_left.lat.0 - crate::map::trunc_div(frame.height_spec() * y, 150)) as i64),
    };
    key_of(frame.tile_of(c))
}

/// Byte `c` (red, green, blue, then an opaque alpha) of pixel `p`, counted row by row.
pub open spec fn pixel_byte(
    effects: Map<u64, [u8; 3]>,
    base: Map<u64, TileStatus>,
    frame: MapFrame,
    p: int,
    c: int,
) -> u8 {
    if c == 3 {
        0xff
    } else {
        tile_color(effects, base, pixel_key(frame, p % 200, p / 200), frame.font_level_spec())[c]
    }
}

/// Paints the colors of `cs` into `map`.
fn paint_into(map: &mut HashMap<u64, [u8; 3]>, cs: &Vec<(Tile, [u8; 3])>)
    ensures
        final(map)@ == paint_layer(old(map)@, cs@),
{
    let ghost start = map@;
    let mut i: usize = 0;
    while i < cs.len()
        invariant
            i <= cs@.len(),
            start == old(map)@,
            map@ == paint_layer(start, cs@.take(i as int)),
        decreases cs@.len() - i,
    {
        let (t, c) = cs[i];
        map.insert(tile_key(t), c);
        proof {
            assert(cs@.take(i + 1).drop_last() =~= cs@.take(i as int));
        }
        i += 1;
    }
    assert(cs@.take(i as int) =~= cs@);
}

/// Color of a name tile of ramp `ramp` at brightness `level`.
fn font_color(ramp: usize, level: usize) -> (r: [u8; 3])
    ensures
        r == font_color_spec(ramp as int, level as int),
{
    if ramp < 3 && level < 10 {
        FONT_COLORS[ramp][level]
    } else {
        BACKGROUND_COLOR
    }
}

impl World {
    /// Paints into `map` the colors of the effects with priority `prio`.
    fn paint_effects(&self, map: &mut HashMap<u64, [u8; 3]>, prio: u8)
        requires
            self.wf(),
        ensures
            final(map)@ == layer_of(self.effects_view(), self.frame_view(), prio, old(map)@),
    {
        let es = &self.effect_manager.effects;
        let ghost start = map@;
        let mut i: usize = 0;
        while i < es.len()
            invariant
                self.wf(),
                *es == self.effect_manager.effects,
                i <= es@.len(),
                start == old(map)@,
                map@ == layer_of(es@.take(i as int), self.map_frame, prio, start),
            decreases es@.len() - i,
        {
            let e = &es[i];
            proof {
                assert(es@.take(i + 1).drop_last() =~= es@.take(i as int));
                assert(es@[i as int].wf());
            }
            if e.priority() == prio {
                let cs = e.get_colors(&self.map_frame);
                paint_into(map, &cs);
            }
            i += 1;
        }
        assert(es@.take(i as int) =~= es@);
    }

    /// The frame as RGBA bytes, row by row from the top, left to right: each pixel takes the
    /// color of the tile under it, effects over the base map over the background.
    pub fn draw(&self) -> (r: Vec<u8>)
        requires
            self.wf(),
        ensures
            r@.len() == 4 * 200 * 150,
            forall|p: int, c: int|
                0 <= p < 200 * 150 && 0 <= c < 4 ==> #[trigger] r@[4 * p + c] == pixel_byte(
                    effect_colors(self.effects_view(), self.frame_view()),
                    self.base_map_view(),
                    self.frame_view(),
                    p,
                    c,
                ),
    {
        let mut effects: HashMap<u64, [u8; 3]> = HashMap::new();
        self.paint_effects(&mut effects, 1);
        self.paint_effects(&mut effects, 2);
        let level = self.map_frame.font_level();
        let mut r: Vec<u8> = Vec::new();
        let mut p: usize = 0;
        while p < 200 * 150
            invariant
                self.wf(),
                effects@ == effect_colors(self.effects_view(), self.frame_view()),
                level == self.frame_view().font_level_spec(),
                p <= 200 * 150,
                r@.len() == 4 * p,
                forall|q: int, c: int|
                    0 <= q < p && 0 <= c < 4 ==> #[trigger] r@[4 * q + c] == pixel_byte(
                        effects@,
                        self.base_map@,
                        self.map_frame,
                        q,
                        c,
                    ),
            decreases 200 * 150 - p,
        {
            let x = (p % 200) as i16;
            let y = (p / 200) as i16;
            let coord = self.map_frame.get_map_coord(x, y);
            let k = tile_key(self.map_frame.get_tile(coord));
            let color: [u8; 3] = match effects.get(&k) {
                Some(c) => *c,
                None => match self.base_map.get(&k) {
                    Some(TileStatus::Font(i)) => font_color(*i, level),
                    Some(TileStatus::Station(_)) => STATION_COLOR,
                    Some(TileStatus::StationShadow) => STATION_COLOR,
                    Some(TileStatus::Track) => TRACK_COLOR,
                    None => BACKGROUND_COLOR,
                },
            };
            proof {
                assert(k == pixel_key(self.map_frame, p as int % 200, p as int / 200));
                assert(color == tile_color(effects@, self.base_map@, k, level as int));
            }
            let ghost before = r@;
            r.push(color[0]);
            r.push(color[1]);
            r.push(color[2]);
            r.push(0xff);
            proof {
                assert forall|q: int, c: int|
                    0 <= q < p + 1 && 0 <= c < 4 implies #[trigger] r@[4 * q + c] == pixel_byte(
                        effects@,
                        self.base_map@,
                        self.map_frame,
                        q,
                        c,
                    ) by {
                    if q < p {
                        assert(r@[4 * q + c] == before[4 * q + c]);
                    }
                }
            }
            p += 1;
        }
        r
    }
}

/// Length of one simulation tick: 1/60 second, in nanoseconds.
pub const ONE_FRAME_NANOS: u64 = 16_666_667;

/// Whether a tile is close enough to zero to carry a square.
fn in_range(t: Tile) -> (r: bool)
    ensures
        r == tile_in_range(t),
{
    -TILE_LIMIT <= t.x.0 && t.x.0 <= TILE_LIMIT && -TILE_LIMIT <= t.y.0 && t.y.0 <= TILE_LIMIT
}

} // verus!
