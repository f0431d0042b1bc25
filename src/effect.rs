use vstd::prelude::*;
use crate::data::{Network, StationId};
use crate::line::{line_fits, line_tiles, line_tiles_spec};
use crate::map::{Degree, MapCoord, MapFrame};
use crate::popularity::PopularityStore;
use crate::route::{find_route, is_route};
use crate::tile::{box_tiles, tile_in_range, Tile};

verus! {

/// No effect is spawned while this many are active.
pub const MAX_EFFECTS: usize = 500;
/// A spawn roll (in millionths) below this spawns a blinking station.
pub const BLINK_CHANCE: u32 = 1_000;
/// A spawn roll (in millionths) below this tries to spawn a train.
pub const TRAIN_CHANCE: u32 = 150_000;
/// Frames per half period of a blinking station.
pub const BLINK_RATE: u16 = 100;
/// Largest distance a train may travel in one tick.
pub const MAX_DEGREES_PER_MOVE: i64 = 1_000_000_000;

/// Least distance a train moves per tick, so that no train stands still.
pub const MIN_DEGREES_PER_MOVE: i64 = 500;

/// The distance per tick of a new train: a drawn spread `sample` (in millionths of a degree)
/// above the floor.
pub fn train_rate(sample: i64) -> (r: Degree)
    requires
        0 <= sample <= MAX_DEGREES_PER_MOVE - MIN_DEGREES_PER_MOVE,
    ensures
        r.0 == sample + MIN_DEGREES_PER_MOVE,
        0 < r.0 <= MAX_DEGREES_PER_MOVE,
{
    Degree(sample + MIN_DEGREES_PER_MOVE)
}

pub const STATION_BLINK_COLOR: [u8; 3] = [0xff, 0xff, 0x00];
pub const TRAIN_COLOR: [u8; 3] = [0x2a, 0xaf, 0xdb];

/// Each tile of `tiles` paired with `color`.
pub open spec fn colored(tiles: Seq<Tile>, color: [u8; 3]) -> Seq<(Tile, [u8; 3])> {
    tiles.map_values(|t: Tile| (t, color))
}

/// Pairs each tile that `it` walks with `color`.
fn paint(it: &mut crate::tile::TileIterator, color: [u8; 3]) -> (r: Vec<(Tile, [u8; 3])>)
    requires
        old(it).wf(),
    ensures
        r@ == colored(old(it).remaining(), color),
{
    let tiles = it.collect_tiles();
    let mut r: Vec<(Tile, [u8; 3])> = Vec::new();
    let mut i: usize = 0;
    while i < tiles.len()
        invariant
            i <= tiles@.len(),
            r@ == colored(tiles@.take(i as int), color),
        decreases tiles@.len() - i,
    {
        r.push((tiles[i], color));
        i += 1;
        assert(r@ =~= colored(tiles@.take(i as int), color));
    }
    assert(tiles@.take(i as int) =~= tiles@);
    r
}

/// A station that blinks for a number of frames.
pub struct StationBlink {
    pub coord: MapCoord,
    pub remaining_frames: u16,
}

impl StationBlink {
    pub open spec fn wf(&self) -> bool {
        self.coord.wf()
    }

    /// A blink of the station at `coord` lasting `remaining_frames` frames.
    pub fn new(coord: MapCoord, remaining_frames: u16) -> (r: Self)
        requires
            coord.wf(),
        ensures
            r.wf(),
            r.coord == coord,
            r.remaining_frames == remaining_frames,
    {
        StationBlink { coord, remaining_frames }
    }

    /// Whether the blink is in the lit half of its period.
    pub open spec fn lit(&self) -> bool {
        (self.remaining_frames % BLINK_RATE) * 2 < BLINK_RATE
    }

    /// The colored tiles of this blink: a station-sized box while it runs and is lit, else none.
    pub open spec fn colors_spec(&self, frame: MapFrame) -> Seq<(Tile, [u8; 3])> {
        let t = frame.tile_of(self.coord);
        if self.is_valid_spec() && self.lit() && tile_in_range(t) {
            colored(box_tiles(t, frame.station_width_spec()), STATION_BLINK_COLOR)
        } else {
            Seq::empty()
        }
    }

    /// The tiles to color in the given frame.
    pub fn get_colors(&self, frame: &MapFrame) -> (r: Vec<(Tile, [u8; 3])>)
        requires
            self.wf(),
            frame.wf(),
        ensures
            r@ == self.colors_spec(*frame),
    {
        if self.remaining_frames > 0 && (self.remaining_frames % BLINK_RATE) * 2 < BLINK_RATE {
            let t = frame.get_tile(self.coord);
            if -crate::tile::TILE_LIMIT <= t.x.0 && t.x.0 <= crate::tile::TILE_LIMIT
                && -crate::tile::TILE_LIMIT <= t.y.0 && t.y.0 <= crate::tile::TILE_LIMIT {
                let mut it = Tile::get_box(t, frame.station_width());
                return paint(&mut it, STATION_BLINK_COLOR);
            }
        }
        Vec::new()
    }
}

/// One leg of a train's journey, between two directly linked stations.
pub struct TrackSection {
    pub start_station: usize,
    pub end_station: usize,
    pub start_station_id: StationId,
    pub end_station_id: StationId,
    pub start_coord: MapCoord,
    pub end_coord: MapCoord,
    pub length: Degree,
}

/// Whether section `s` runs from station `a` to station `b` of `network`, with their
/// straight-line distance (rounded down) as its length.
pub open spec fn section_matches(s: TrackSection, network: &Network, a: int, b: int) -> bool {
    let sa = network.stations_view()[a];
    let sb = network.stations_view()[b];
    &&& s.start_station == a
    &&& s.end_station == b
    &&& s.start_station_id == sa.id
    &&& s.end_station_id == sb.id
    &&& s.start_coord == sa.coord
    &&& s.end_coord == sb.coord
    &&& s.length.0 >= 0
    &&& s.length.0 * s.length.0 <= sa.coord.distance_sq(sb.coord) < (s.length.0 + 1) * (s.length.0 + 1)
}

/// Whether `sections` are the legs of route `p`, in order.
pub open spec fn sections_follow(sections: Seq<TrackSection>, network: &Network, p: Seq<usize>) -> bool {
    &&& sections.len() + 1 == p.len()
    &&& forall|k: int|
        0 <= k < sections.len() ==> section_matches(#[trigger] sections[k], network, p[k] as int, p[k + 1] as int)
}

/// A train travelling along a route, one section at a time.
pub struct Train {
    pub track_sections: Vec<TrackSection>,
    pub current_section_index: usize,
    pub current_line_progress: Degree,
    pub degrees_per_move: Degree,
}

/// `a + b`, limited to the range of `i64`.
pub open spec fn sat_add(a: int, b: int) -> int {
    if a + b > i64::MAX { i64::MAX as int } else { a + b }
}

impl Train {
    pub open spec fn wf(&self) -> bool {
        &&& 0 < self.degrees_per_move.0 <= MAX_DEGREES_PER_MOVE
        &&& self.current_line_progress.0 >= 0
        &&& forall|k: int|
            0 <= k < self.track_sections@.len() ==> (#[trigger] self.track_sections@[k]).start_coord.wf()
                && self.track_sections@[k].end_coord.wf() && self.track_sections@[k].length.0 >= 0
        &&& self.current_section_index < self.track_sections@.len() ==> self.current_line_progress.0
            <= self.track_sections@[self.current_section_index as int].length.0
    }

    /// A train from station `start_index` to station `end_index`, over the route that the
    /// popularity-weighted search finds (see `find_route`), moving `degrees_per_move` per
    /// tick; `None` exactly where no route exists.
    pub fn new(
        network: &Network,
        store: &PopularityStore,
        start_index: usize,
        end_index: usize,
        degrees_per_move: Degree,
    ) -> (r: Option<Train>)
        requires
            network.wf(),
            store.wf(),
            start_index < network.stations_view().len(),
            end_index < network.stations_view().len(),
            0 < degrees_per_move.0 <= MAX_DEGREES_PER_MOVE,
        ensures
            r matches Some(t) ==> {
                &&& t.wf()
                &&& t.current_section_index == 0
                &&& t.current_line_progress.0 == 0
                &&& t.degrees_per_move == degrees_per_move
                &&& exists|p: Seq<usize>|
                    is_route(network, p, start_index as int, end_index as int) && sections_follow(
                        t.track_sections@,
                        network,
                        p,
                    )
            },
            r is None ==> !exists|p: Seq<usize>| is_route(network, p, start_index as int, end_index as int),
            r is Some == crate::route::astar_of(
                crate::route::search_successors(network, store),
                crate::route::search_heuristic(network, store),
                start_index as int,
                end_index as int,
            ) is Some,
            r matches Some(t) ==> sections_follow(
                t.track_sections@,
                network,
                crate::route::astar_of(
                    crate::route::search_successors(network, store),
                    crate::route::search_heuristic(network, store),
                    start_index as int,
                    end_index as int,
                )->0,
            ),
            start_index == end_index ==> (r matches Some(t) && t.track_sections@.len() == 0),
    {
        let path = match find_route(network, store, start_index, end_index) {
            Some(p) => p,
            None => {
                return None;
            },
        };
        proof {
            network.lemma_wf();
        }
        let mut track_sections: Vec<TrackSection> = Vec::new();
        let mut k: usize = 0;
        while k < path.len() - 1
            invariant
                is_route(network, path@, start_index as int, end_index as int),
                loadable_coords(network),
                k + 1 <= path@.len(),
                track_sections@.len() == k,
                forall|q: int|
                    0 <= q < k ==> section_matches(#[trigger] track_sections@[q], network, path@[q] as int, path@[q + 1] as int),
            decreases path@.len() - k,
        {
            let a = path[k];
            let b = path[k + 1];
            let sa = network.station(a);
            let sb = network.station(b);
            let length = sa.coord.distance_to(&sb.coord);
            track_sections.push(
                TrackSection {
                    start_station: a,
                    end_station: b,
                    start_station_id: sa.id,
                    end_station_id: sb.id,
                    start_coord: sa.coord,
                    end_coord: sb.coord,
                    length,
                },
            );
            k += 1;
        }
        let t = Train {
            track_sections,
            current_section_index: 0,
            current_line_progress: Degree(0),
            degrees_per_move,
        };
        assert(sections_follow(t.track_sections@, network, path@));
        Some(t)
    }

    pub open spec fn is_valid_spec(&self) -> bool {
        self.current_section_index < self.track_sections@.len()
    }

    /// Whether the train is still on its route.
    pub fn is_valid(&self) -> (r: bool)
        ensures
            r == self.is_valid_spec(),
    {
        self.current_section_index < self.track_sections.len()
    }

    /// Whether the next tick finishes the current section.
    pub open spec fn finishes_section(&self) -> bool {
        self.is_valid_spec() && sat_add(self.current_line_progress.0 as int, self.degrees_per_move.0 as int)
            >= self.track_sections@[self.current_section_index as int].length.0
    }

    /// One tick: the train moves on by its rate. If that reaches the end of the current
    /// section, progress starts again at zero on the next section, and the station reached is
    /// returned.
    pub fn update(&mut self) -> (r: Option<usize>)
        requires
            old(self).wf(),
        ensures
            final(self).wf(),
            final(self).track_sections == old(self).track_sections,
            final(self).degrees_per_move == old(self).degrees_per_move,
            old(self).finishes_section() ==> {
                &&& final(self).current_section_index == old(self).current_section_index + 1
                &&& final(self).current_line_progress.0 == 0
                &&& r == Some(old(self).track_sections@[old(self).current_section_index as int].end_station)
            },
            !old(self).finishes_section() ==> {
                &&& final(self).current_section_index == old(self).current_section_index
                &&& final(self).current_line_progress.0 == sat_add(
                    old(self).current_line_progress.0 as int,
                    old(self).degrees_per_move.0 as int,
                )
                &&& r is None
            },
            final(self).current_line_progress.0 == 0 <==> final(self).current_section_index
                == old(self).current_section_index + 1,
    {
        let p = self.current_line_progress.0;
        let rate = self.degrees_per_move.0;
        let moved: i64 = if p > i64::MAX - rate { i64::MAX } else { p + rate };
        self.current_line_progress = Degree(moved);
        if self.current_section_index < self.track_sections.len() {
            let section = &self.track_sections[self.current_section_index];
            if moved >= section.length.0 {
                let end = section.end_station;
                self.current_line_progress = Degree(0);
                self.current_section_index = self.current_section_index + 1;
                return Some(end);
            }
        }
        None
    }

    /// Trains give way to blinking stations where both color a tile.
    pub fn priority(&self) -> (r: u8)
        ensures
            r == 1,
    {
        1
    }

    /// The tile the train occupies in `frame`: along the rasterized current section, at the
    /// fraction of it the train has travelled.
    pub open spec fn current_tile(&self, frame: MapFrame) -> Option<Tile> {
        if !self.is_valid_spec() {
            None
        } else {
            let s = self.track_sections@[self.current_section_index as int];
            let a = frame.tile_of(s.start_coord);
            let b = frame.tile_of(s.end_coord);
            if !line_fits(a, b) {
                None
            } else {
                let path = line_tiles_spec(a, b);
                let k = if s.length.0 > 0 {
                    (self.current_line_progress.0 as int) * (path.len() as int) / (s.length.0 as int)
                } else {
                    0
                };
                if k < path.len() { Some(path[k]) } else { None }
            }
        }
    }

    /// The colored tiles of this train: a track-sized box around its current tile.
    pub open spec fn colors_spec(&self, frame: MapFrame) -> Seq<(Tile, [u8; 3])> {
        match self.current_tile(frame) {
            Some(t) => if tile_in_range(t) {
                colored(box_tiles(t, frame.track_width_spec()), TRAIN_COLOR)
            } else {
                Seq::empty()
            },
            None => Seq::empty(),
        }
    }

    /// The tiles of the section the train is on, from its start station to its end station.
    fn get_current_path(&self, section: &TrackSection, frame: &MapFrame) -> (r: Option<Vec<Tile>>)
        requires
            frame.wf(),
            section.start_coord.wf(),
            section.end_coord.wf(),
        ensures
            ({
                let a = frame.tile_of(section.start_coord);
                let b = frame.tile_of(section.end_coord);
                &&& line_fits(a, b) ==> (r matches Some(v) && v@ == line_tiles_spec(a, b))
                &&& !line_fits(a, b) ==> r is None
            }),
    {
        let a = frame.get_tile(section.start_coord);
        let b = frame.get_tile(section.end_coord);
        if crate::line::line_fits_exec(a, b) {
            Some(line_tiles(a, b))
        } else {
            None
        }
    }

    /// The tiles to color in the given frame.
    pub fn get_colors(&self, frame: &MapFrame) -> (r: Vec<(Tile, [u8; 3])>)
        requires
            self.wf(),
            frame.wf(),
        ensures
            r@ == self.colors_spec(*frame),
    {
        if self.current_section_index >= self.track_sections.len() {
            return Vec::new();
        }
        let section = &self.track_sections[self.current_section_index];
        let path = match self.get_current_path(section, frame) {
            Some(p) => p,
            None => {
                return Vec::new();
            },
        };
        let path_len = path.len();
        proof {
            let n = path_len as int;
            let pr = self.current_line_progress.0;
            assert(0 <= pr * n <= 0x7fff_ffff_ffff_ffff * 0xffff_ffff_ffff_ffff) by (nonlinear_arith)
                requires 0 <= pr <= 0x7fff_ffff_ffff_ffff, 0 <= n <= 0xffff_ffff_ffff_ffff;
        }
        let k: usize = if section.length.0 > 0 {
            let q = (self.current_line_progress.0 as u128) * (path.len() as u128) / (section.length.0 as u128);
            if q < path.len() as u128 {
                q as usize
            } else {
                path.len()
            }
        } else {
            0
        };
        if k < path.len() {
            let t = path[k];
            if -crate::tile::TILE_LIMIT <= t.x.0 && t.x.0 <= crate::tile::TILE_LIMIT
                && -crate::tile::TILE_LIMIT <= t.y.0 && t.y.0 <= crate::tile::TILE_LIMIT {
                let mut it = Tile::get_box(t, frame.track_width());
                return paint(&mut it, TRAIN_COLOR);
            }
        }
        Vec::new()
    }
}

/// Every station position of the network is in range.
pub open spec fn loadable_coords(network: &Network) -> bool {
    forall|i: int| 0 <= i < network.stations_view().len() ==> (#[trigger] network.stations_view()[i]).coord.wf()
}


/// An animated overlay.
pub enum Effect {
    Train(Train),
    StationBlink(StationBlink),
}

impl StationBlink {
    pub open spec fn is_valid_spec(&self) -> bool {
        self.remaining_frames > 0
    }

    /// Whether frames remain.
    pub fn is_valid(&self) -> (r: bool)
        ensures
            r == self.is_valid_spec(),
    {
        self.remaining_frames > 0
    }

    /// One tick: one frame fewer, stopping at zero.
    pub fn update(&mut self)
        ensures
            final(self).coord == old(self).coord,
            final(self).remaining_frames == if old(self).remaining_frames > 0 {
                old(self).remaining_frames - 1
            } else {
                0
            },
    {
        self.remaining_frames = self.remaining_frames.saturating_sub(1);
    }

    /// Blinking stations are drawn over trains.
    pub fn priority(&self) -> (r: u8)
        ensures
            r == 2,
    {
        2
    }
}

/// The state of a train after one tick.
pub open spec fn train_stepped(t: Train) -> Train {
    if t.finishes_section() {
        Train { current_section_index: (t.current_section_index + 1) as usize, current_line_progress: Degree(0), ..t }
    } else {
        Train {
            current_line_progress: Degree(sat_add(t.current_line_progress.0 as int, t.degrees_per_move.0 as int) as i64),
            ..t
        }
    }
}

impl Effect {
    pub open spec fn wf(&self) -> bool {
        match self {
            Effect::Train(t) => t.wf(),
            Effect::StationBlink(b) => b.wf(),
        }
    }

    pub open spec fn is_valid_spec(&self) -> bool {
        match self {
            Effect::Train(t) => t.is_valid_spec(),
            Effect::StationBlink(b) => b.is_valid_spec(),
        }
    }

    /// The effect after one tick.
    pub open spec fn stepped(&self) -> Effect {
        match self {
            Effect::Train(t) => Effect::Train(train_stepped(*t)),
            Effect::StationBlink(b) => Effect::StationBlink(
                StationBlink {
                    coord: b.coord,
                    remaining_frames: (if b.remaining_frames > 0 { b.remaining_frames - 1 } else { 0 }) as u16,
                },
            ),
        }
    }

    /// The station reached in the tick, if any.
    pub open spec fn arrival(&self) -> Option<usize> {
        match self {
            Effect::Train(t) => if t.finishes_section() {
                Some(t.track_sections@[t.current_section_index as int].end_station)
            } else {
                None
            },
            Effect::StationBlink(_) => None,
        }
    }

    pub open spec fn priority_spec(&self) -> u8 {
        match self {
            Effect::Train(_) => 1,
            Effect::StationBlink(_) => 2,
        }
    }

    pub open spec fn colors_spec(&self, frame: MapFrame) -> Seq<(Tile, [u8; 3])> {
        match self {
            Effect::Train(t) => t.colors_spec(frame),
            Effect::StationBlink(b) => b.colors_spec(frame),
        }
    }

    /// Advances the effect by one tick; returns the station a train reached, if any.
    pub fn update(&mut self) -> (r: Option<usize>)
        requires
            old(self).wf(),
        ensures
            final(self).wf(),
            *final(self) == old(self).stepped(),
            r == old(self).arrival(),
    {
        match self {
            Effect::Train(t) => {
                let r = t.update();
                proof {
                    assert(t.track_sections@ == old(self)->Train_0.track_sections@);
                }
                r
            },
            Effect::StationBlink(b) => {
                b.update();
                None
            },
        }
    }

    /// Whether the effect is still running; once false it stays false.
    pub fn is_valid(&self) -> (r: bool)
        ensures
            r == self.is_valid_spec(),
    {
        match self {
            Effect::Train(t) => t.is_valid(),
            Effect::StationBlink(b) => b.is_valid(),
        }
    }

    /// Higher priority effects are drawn over lower ones.
    pub fn priority(&self) -> (r: u8)
        ensures
            r == self.priority_spec(),
    {
        match self {
            Effect::Train(t) => t.priority(),
            Effect::StationBlink(b) => b.priority(),
        }
    }

    /// The tiles to color in the given frame.
    pub fn get_colors(&self, frame: &MapFrame) -> (r: Vec<(Tile, [u8; 3])>)
        requires
            self.wf(),
            frame.wf(),
        ensures
            r@ == self.colors_spec(*frame),
    {
        match self {
            Effect::Train(t) => t.get_colors(frame),
            Effect::StationBlink(b) => b.get_colors(frame),
        }
    }
}

/// Whether `e` is still running.
pub open spec fn valid_effect(e: Effect) -> bool {
    e.is_valid_spec()
}

/// The effects of `s` after one tick, with the finished ones removed.
pub open spec fn kept_after_tick(s: Seq<Effect>) -> Seq<Effect> {
    s.map_values(|e: Effect| e.stepped()).filter(|e: Effect| valid_effect(e))
}

/// The stations reached in one tick by the effects of `s`, in order.
pub open spec fn arrivals_of(s: Seq<Effect>) -> Seq<usize>
    decreases s.len(),
{
    if s.len() == 0 {
        Seq::empty()
    } else {
        let rest = arrivals_of(s.drop_last());
        match s.last().arrival() {
            Some(i) => rest.push(i),
            None => rest,
        }
    }
}

/// The random draws that one tick of the effect manager may use.
#[derive(Clone, Copy, Debug)]
pub struct SpawnDraw {
    /// A number below one million; low values spawn effects.
    pub roll: u32,
    /// Place of the station that a new blink shows.
    pub blink_station: usize,
    /// Frames that a new blink lasts.
    pub blink_frames: u16,
    /// Places of the stations a new train starts and ends at.
    pub train_start: usize,
    pub train_end: usize,
    /// Distance a new train moves per tick.
    pub degrees_per_move: Degree,
}

/// Whether the draws can be used for a network of `n` stations.
pub open spec fn draw_fits(d: SpawnDraw, n: int) -> bool {
    &&& d.blink_station < n
    &&& d.train_start < n
    &&& d.train_end < n
    &&& 0 < d.degrees_per_move.0 <= MAX_DEGREES_PER_MOVE
}

/// Whether `news` is what one tick of the effect manager makes of `olds`: the effects that
/// still run after advancing, in order, then a blink of the drawn station on a low roll,
/// then a train over the drawn stations on a moderate roll, exactly when a route exists;
/// nothing is spawned once the cap is reached.
pub open spec fn tick_outcome(olds: Seq<Effect>, news: Seq<Effect>, network: &Network, draw: SpawnDraw) -> bool {
    let kept = kept_after_tick(olds);
    let blink = Effect::StationBlink(
        StationBlink {
            coord: network.stations_view()[draw.blink_station as int].coord,
            remaining_frames: draw.blink_frames,
        },
    );
    let spawning = kept.len() < MAX_EFFECTS;
    let with_blink = if spawning && draw.roll < BLINK_CHANCE { kept.push(blink) } else { kept };
    &&& with_blink.len() <= news.len() <= with_blink.len() + 1
    &&& (spawning && draw.roll < TRAIN_CHANCE && exists|p: Seq<usize>|
        is_route(network, p, draw.train_start as int, draw.train_end as int))
        ==> news.len() == with_blink.len() + 1
    &&& news.take(with_blink.len() as int) == with_blink
    &&& news.len() == with_blink.len() + 1 ==> {
        &&& spawning && draw.roll < TRAIN_CHANCE
        &&& news.last() matches Effect::Train(t)
        &&& t.current_section_index == 0
        &&& t.current_line_progress.0 == 0
        &&& t.degrees_per_move == draw.degrees_per_move
        &&& exists|p: Seq<usize>|
            is_route(network, p, draw.train_start as int, draw.train_end as int)
                && sections_follow(t.track_sections@, network, p)
    }
}

/// The set of active effects.
pub struct EffectManager {
    pub effects: Vec<Effect>,
}

impl EffectManager {
    pub open spec fn wf(&self) -> bool {
        forall|i: int| 0 <= i < self.effects@.len() ==> (#[trigger] self.effects@[i]).wf()
    }

    /// No effects.
    pub fn new() -> (r: Self)
        ensures
            r.wf(),
            r.effects@.len() == 0,
    {
        EffectManager { effects: Vec::new() }
    }

    /// Adds an effect.
    pub fn push(&mut self, e: Effect)
        requires
            old(self).wf(),
            e.wf(),
        ensures
            final(self).wf(),
            final(self).effects@ == old(self).effects@.push(e),
    {
        self.effects.push(e);
    }

    /// One tick: every effect advances, the finished ones are removed, and then, while fewer
    /// than the cap remain, a low roll adds a blink of the drawn station and a moderate roll a
    /// train over the drawn stations (where a route is found). Returns the stations that
    /// trains reached, in order.
    pub fn update(&mut self, network: &Network, store: &PopularityStore, draw: SpawnDraw) -> (r: Vec<usize>)
        requires
            old(self).wf(),
            network.wf(),
            store.wf(),
            draw_fits(draw, network.stations_view().len() as int),
        ensures
            final(self).wf(),
            r@ == arrivals_of(old(self).effects@),
            tick_outcome(old(self).effects@, final(self).effects@, network, draw),
            forall|i: int|
                0 <= i < kept_after_tick(old(self).effects@).len() ==> (#[trigger] final(self).effects@[i]).is_valid_spec(),
    {
        let ghost olds = self.effects@;
        let total = self.effects.len();
        let mut kept: Vec<Effect> = Vec::new();
        let mut arrivals: Vec<usize> = Vec::new();
        let mut i: usize = 0;
        let ghost n = olds.len();
        while self.effects.len() > 0
            invariant
                n == olds.len(),
                n == total,
                i + self.effects@.len() == n,
                self.effects@ == olds.skip(i as int),
                forall|j: int| 0 <= j < olds.len() ==> (#[trigger] olds[j]).wf(),
                kept@ == kept_after_tick(olds.take(i as int)),
                arrivals@ == arrivals_of(olds.take(i as int)),
                forall|j: int| 0 <= j < kept@.len() ==> (#[trigger] kept@[j]).wf(),
            decreases self.effects@.len(),
        {
            let mut e = self.effects.remove(0);
            assert(e == olds[i as int]);
            let a = e.update();
            proof {
                let pre = olds.take(i as int);
                assert(olds.take(i as int + 1) =~= pre.push(olds[i as int]));
                assert(pre.push(olds[i as int]).drop_last() =~= pre);
                assert(pre.push(olds[i as int]).map_values(|e: Effect| e.stepped()) =~= pre.map_values(
                    |e: Effect| e.stepped(),
                ).push(e));
                pre.map_values(|e: Effect| e.stepped()).lemma_filter_push(e, |e: Effect| valid_effect(e));
            }
            if let Some(x) = a {
                arrivals.push(x);
            }
            if e.is_valid() {
                kept.push(e);
            }
            i += 1;
            assert(self.effects@ =~= olds.skip(i as int));
        }
        assert(olds.take(i as int) =~= olds);
        self.effects = kept;
        proof {
            let k = kept_after_tick(olds);
            assert forall|j: int| 0 <= j < k.len() implies (#[trigger] k[j]).is_valid_spec() by {
                olds.map_values(|e: Effect| e.stepped()).lemma_filter_pred(|e: Effect| valid_effect(e), j);
            }
        }
        if self.effects.len() < MAX_EFFECTS {
            if draw.roll < BLINK_CHANCE {
                proof {
                    network.lemma_wf();
                }
                let blink = StationBlink::new(network.station(draw.blink_station).coord, draw.blink_frames);
                self.effects.push(Effect::StationBlink(blink));
            }
            if draw.roll < TRAIN_CHANCE {
                match Train::new(network, store, draw.train_start, draw.train_end, draw.degrees_per_move) {
                    Some(t) => {
                        let ghost before = self.effects@;
                        self.effects.push(Effect::Train(t));
                        assert(self.effects@.take(before.len() as int) =~= before);
                    },
                    None => {},
                }
            }
        }
        proof {
            assert(self.effects@.take(self.effects@.len() as int) =~= self.effects@);
        }
        arrivals
    }
}
} // verus!
