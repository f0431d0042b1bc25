use vstd::prelude::*;
use crate::map::MapCoord;
use indexmap::IndexMap;

verus! {

#[verifier::external_type_specification]
#[verifier::external_body]
#[verifier::reject_recursive_types(K)]
#[verifier::reject_recursive_types(V)]
#[verifier::reject_recursive_types(S)]
pub struct ExIndexMap<K, V, S>(IndexMap<K, V, S>);

/// The entries of an id table: station identity to place in the station table.
pub uninterp spec fn id_entries(m: IndexMap<u32, usize>) -> Map<u32, usize>;

/// Relies on indexmap::IndexMap::new: a new map holds no entries.
#[verifier::external_body]
fn id_table_new() -> (r: IndexMap<u32, usize>)
    ensures
        forall|k: u32| !(#[trigger] id_entries(r).contains_key(k)),
{
    IndexMap::new()
}

/// Relies on indexmap::IndexMap::insert: the key then maps to the value, other entries stay,
/// and the value the key held before, if any, is returned.
#[verifier::external_body]
fn id_table_insert(m: &mut IndexMap<u32, usize>, key: u32, value: usize) -> (r: Option<usize>)
    ensures
        id_entries(*final(m)) == id_entries(*old(m)).insert(key, value),
        r == (if id_entries(*old(m)).contains_key(key) {
            Some(id_entries(*old(m))[key])
        } else {
            None
        }),
{
    m.insert(key, value)
}

/// Relies on indexmap::IndexMap::get: the value the key maps to, if any.
#[verifier::external_body]
fn id_table_get(m: &IndexMap<u32, usize>, key: u32) -> (r: Option<usize>)
    ensures
        r == (if id_entries(*m).contains_key(key) {
            Some(id_entries(*m)[key])
        } else {
            None
        }),
{
    m.get(&key).copied()
}

/// Whether `m` maps exactly the identities of `stations` to their places.
pub open spec fn indexes(m: Map<u32, usize>, stations: Seq<Station>) -> bool {
    &&& forall|k: u32| #[trigger] m.contains_key(k) <==> has_id(stations, k)
    &&& forall|k: u32| #[trigger] m.contains_key(k) ==> m[k] < stations.len() && stations[m[k] as int].id.0 == k
}

/// The identity of a station.
#[derive(Clone, Copy, Debug, PartialEq, Eq, Hash, Structural)]
pub struct StationId(pub u32);

/// A station: its identity, display name and position.
#[derive(Clone, Debug)]
pub struct Station {
    pub id: StationId,
    pub name: String,
    pub coord: MapCoord,
}

/// A direct link between two stations, by identity.
#[derive(Clone, Copy, Debug)]
pub struct Connection {
    pub station_id_1: StationId,
    pub station_id_2: StationId,
}

/// Largest number of stations a network may hold, so that route costs fit in `u32`.
pub const MAX_STATIONS: usize = 100_000_000;

/// Whether connection `c` joins the stations with identities `a` and `b`, in either order.
pub open spec fn joins(c: Connection, a: u32, b: u32) -> bool {
    (c.station_id_1.0 == a && c.station_id_2.0 == b) || (c.station_id_1.0 == b && c.station_id_2.0 == a)
}

/// Whether the identities are pairwise distinct.
pub open spec fn ids_unique(stations: Seq<Station>) -> bool {
    forall|i: int, j: int|
        0 <= i < stations.len() && 0 <= j < stations.len() && i != j ==> #[trigger] stations[i].id
            != #[trigger] stations[j].id
}

/// Whether some station has identity `id`.
pub open spec fn has_id(stations: Seq<Station>, id: u32) -> bool {
    exists|i: int| 0 <= i < stations.len() && #[trigger] stations[i].id.0 == id
}

/// Whether a table of stations and a list of connections can form a network: identities
/// distinct, positions in range, every connection naming known stations.
pub open spec fn loadable(stations: Seq<Station>, connections: Seq<Connection>) -> bool {
    &&& stations.len() <= MAX_STATIONS
    &&& ids_unique(stations)
    &&& forall|i: int| 0 <= i < stations.len() ==> (#[trigger] stations[i]).coord.wf()
    &&& forall|k: int|
        0 <= k < connections.len() ==> has_id(stations, (#[trigger] connections[k]).station_id_1.0)
            && has_id(stations, connections[k].station_id_2.0)
}

/// The stations and the undirected links between them. Stations are addressed by their
/// place in the table, which keeps the order it was given in.
pub struct Network {
    stations: Vec<Station>,
    ids: IndexMap<u32, usize>,
    neighbors: Vec<Vec<usize>>,
    connections: Ghost<Seq<Connection>>,
}

impl Network {
    /// The station table.
    pub closed spec fn stations_view(&self) -> Seq<Station> {
        self.stations@
    }

    /// The connections the network was built from.
    pub closed spec fn connections_view(&self) -> Seq<Connection> {
        self.connections@
    }

    /// The stations linked to station `i`, in the order the network keeps them.
    pub closed spec fn neighbor_list(&self, i: int) -> Seq<usize> {
        self.neighbors@[i]@
    }

    /// Whether stations `i` and `j` are directly linked.
    pub open spec fn adjacent(&self, i: int, j: int) -> bool {
        exists|k: int|
            0 <= k < self.connections_view().len() && joins(
                #[trigger] self.connections_view()[k],
                self.stations_view()[i].id.0,
                self.stations_view()[j].id.0,
            )
    }

    pub closed spec fn wf(&self) -> bool {
        &&& loadable(self.stations@, self.connections@)
        &&& indexes(id_entries(self.ids), self.stations@)
        &&& self.neighbors@.len() == self.stations@.len()
        &&& forall|i: int, n: int|
            0 <= i < self.neighbors@.len() && 0 <= n < self.neighbors@[i]@.len() ==> #[trigger] self.neighbors@[i]@[n]
                < self.stations@.len()
        &&& forall|i: int, j: int|
            0 <= i < self.stations@.len() && 0 <= j < self.stations@.len() ==> (
            #[trigger] self.neighbors@[i]@.contains(j as usize) <==> self.adjacent(i, j))
    }

    pub proof fn lemma_wf(&self)
        requires
            self.wf(),
        ensures
            loadable(self.stations_view(), self.connections_view()),
    {
    }

    pub fn len(&self) -> (r: usize)
        ensures
            r == self.stations_view().len(),
    {
        self.stations.len()
    }

    pub fn station(&self, i: usize) -> (r: &Station)
        requires
            i < self.stations_view().len(),
        ensures
            *r == self.stations_view()[i as int],
    {
        &self.stations[i]
    }

    /// Place in the table of the station with identity `id`.
    pub fn index_of(&self, id: StationId) -> (r: Option<usize>)
        requires
            self.wf(),
        ensures
            r matches Some(i) ==> i < self.stations_view().len() && self.stations_view()[i as int].id == id,
            r is None ==> !has_id(self.stations_view(), id.0),
    {
        lookup(&self.ids, &self.stations, id)
    }

    /// A network of the given stations and connections; `None` where two stations share an
    /// identity, a position is out of range, or a connection names an unknown station.
    pub fn new(stations: Vec<Station>, connections: &Vec<Connection>) -> (r: Option<Network>)
        ensures
            r is Some <==> loadable(stations@, connections@),
            r matches Some(n) ==> n.wf() && n.stations_view() == stations@ && n.connections_view()
                == connections@,
    {
        if stations.len() > MAX_STATIONS {
            return None;
        }
        let mut ids = id_table_new();
        let mut i: usize = 0;
        while i < stations.len()
            invariant
                i <= stations@.len(),
                forall|a: int, b: int|
                    0 <= a < i && 0 <= b < i && a != b ==> #[trigger] stations@[a].id != #[trigger] stations@[b].id,
                forall|a: int| 0 <= a < i ==> (#[trigger] stations@[a]).coord.wf(),
                forall|k: u32|
                    #[trigger] id_entries(ids).contains_key(k) <==> exists|a: int| 0 <= a < i && #[trigger] stations@[a].id.0 == k,
                forall|k: u32|
                    #[trigger] id_entries(ids).contains_key(k) ==> id_entries(ids)[k] < i && stations@[id_entries(ids)[k] as int].id.0 == k,
            decreases stations@.len() - i,
        {
            let c = stations[i].coord;
            if !(-crate::map::COORD_LIMIT <= c.long.0 && c.long.0 <= crate::map::COORD_LIMIT
                && -crate::map::COORD_LIMIT <= c.lat.0 && c.lat.0 <= crate::map::COORD_LIMIT) {
                return None;
            }
            let ghost before = id_entries(ids);
            match id_table_insert(&mut ids, stations[i].id.0, i) {
                Some(prev) => {
                    assert(stations@[prev as int].id == stations@[i as int].id);
                    assert(!ids_unique(stations@));
                    return None;
                },
                None => {},
            }
            proof {
                assert forall|k: u32|
                    #[trigger] id_entries(ids).contains_key(k) <==> exists|a: int| 0 <= a < i + 1 && #[trigger] stations@[a].id.0 == k by {
                    if k == stations@[i as int].id.0 {
                        assert(stations@[i as int].id.0 == k);
                    }
                    if exists|a: int| 0 <= a < i + 1 && #[trigger] stations@[a].id.0 == k {
                        let a = choose|a: int| 0 <= a < i + 1 && #[trigger] stations@[a].id.0 == k;
                        if a < i {
                            assert(before.contains_key(k));
                        }
                    }
                }
                assert forall|a: int, b: int|
                    0 <= a < i + 1 && 0 <= b < i + 1 && a != b implies #[trigger] stations@[a].id != #[trigger] stations@[b].id by {
                    if a == i {
                        if stations@[b].id == stations@[a].id {
                            assert(before.contains_key(stations@[b].id.0));
                        }
                    }
                    if b == i {
                        if stations@[b].id == stations@[a].id {
                            assert(before.contains_key(stations@[a].id.0));
                        }
                    }
                }
            }
            i += 1;
        }
        assert(indexes(id_entries(ids), stations@));
        let mut neighbors: Vec<Vec<usize>> = Vec::new();
        let mut i: usize = 0;
        while i < stations.len()
            invariant
                i <= stations@.len(),
                neighbors@.len() == i,
                forall|a: int| 0 <= a < i ==> (#[trigger] neighbors@[a])@.len() == 0,
                ids_unique(stations@),
                forall|a: int| 0 <= a < stations@.len() ==> (#[trigger] stations@[a]).coord.wf(),
            decreases stations@.len() - i,
        {
            neighbors.push(Vec::new());
            i += 1;
        }
        let ghost table = stations@;
        let mut k: usize = 0;
        while k < connections.len()
            invariant
                table == stations@,
                ids_unique(stations@),
                indexes(id_entries(ids), stations@),
                forall|a: int| 0 <= a < stations@.len() ==> (#[trigger] stations@[a]).coord.wf(),
                stations@.len() <= MAX_STATIONS,
                k <= connections@.len(),
                neighbors@.len() == stations@.len(),
                forall|a: int, m: int|
                    0 <= a < neighbors@.len() && 0 <= m < neighbors@[a]@.len() ==> #[trigger] neighbors@[a]@[m]
                        < stations@.len(),
                forall|a: int, b: int|
                    0 <= a < stations@.len() && 0 <= b < stations@.len() ==> (
                    #[trigger] neighbors@[a]@.contains(b as usize) <==> exists|q: int|
                        0 <= q < k && joins(#[trigger] connections@[q], stations@[a].id.0, stations@[b].id.0)),
                forall|q: int|
                    0 <= q < k ==> has_id(stations@, (#[trigger] connections@[q]).station_id_1.0)
                        && has_id(stations@, connections@[q].station_id_2.0),
            decreases connections@.len() - k,
        {
            let c = connections[k];
            let a = match lookup(&ids, &stations, c.station_id_1) {
                Some(a) => a,
                None => {
                    return None;
                },
            };
            let b = match lookup(&ids, &stations, c.station_id_2) {
                Some(b) => b,
                None => {
                    return None;
                },
            };
            let ghost before = neighbors@;
            add_neighbor(&mut neighbors, a, b);
            add_neighbor(&mut neighbors, b, a);
            assert forall|x: int, y: int|
                0 <= x < stations@.len() && 0 <= y < stations@.len() implies (
                #[trigger] neighbors@[x]@.contains(y as usize) <==> exists|q: int|
                    0 <= q < k + 1 && joins(#[trigger] connections@[q], stations@[x].id.0, stations@[y].id.0)) by {
                let here = joins(connections@[k as int], stations@[x].id.0, stations@[y].id.0);
                if here {
                    assert((x == a && y == b) || (x == b && y == a));
                }
                if neighbors@[x]@.contains(y as usize) && !before[x]@.contains(y as usize) {
                    assert((x == a && y == b) || (x == b && y == a));
                    assert(joins(connections@[k as int], stations@[x].id.0, stations@[y].id.0));
                }
            }
            k += 1;
        }
        let n = Network { stations, ids, neighbors, connections: Ghost(connections@) };
        assert(loadable(n.stations@, n.connections@));
        assert forall|a: int, b: int|
            0 <= a < n.stations@.len() && 0 <= b < n.stations@.len() implies (
            #[trigger] n.neighbors@[a]@.contains(b as usize) <==> n.adjacent(a, b)) by {
            assert(n.connections_view() == connections@);
            assert(n.stations_view() == table);
            assert(n.neighbors@[a]@.contains(b as usize) <==> exists|q: int|
                0 <= q < k && joins(#[trigger] connections@[q], table[a].id.0, table[b].id.0));
            if n.neighbors@[a]@.contains(b as usize) {
                let q = choose|q: int| 0 <= q < k && joins(#[trigger] connections@[q], table[a].id.0, table[b].id.0);
                assert(joins(n.connections_view()[q], n.stations_view()[a].id.0, n.stations_view()[b].id.0));
            }
            if n.adjacent(a, b) {
                let q = choose|q: int| 0 <= q < n.connections_view().len() && joins(#[trigger] n.connections_view()[q], n.stations_view()[a].id.0, n.stations_view()[b].id.0);
                assert(joins(connections@[q], table[a].id.0, table[b].id.0));
            }
        }
        assert(n.wf());
        Some(n)
    }

    /// The stations linked to station `i`, each with its route-search weight; none where `i`
    /// is outside the table.
    pub fn successors(&self, i: usize, store: &crate::popularity::PopularityStore) -> (r: Vec<(usize, u32)>)
        requires
            self.wf(),
            store.wf(),
        ensures
            i < self.stations_view().len() ==> forall|j: int|
                0 <= j < self.stations_view().len() ==> (self.adjacent(i as int, j) <==> exists|m: int|
                    0 <= m < r@.len() && (#[trigger] r@[m]).0 == j),
            i >= self.stations_view().len() ==> r@.len() == 0,
            i < self.stations_view().len() ==> r@ == self.neighbor_list(i as int).map_values(
                |j: usize| (j, crate::popularity::weight_at(store@, j as int)),
            ),
            forall|m: int| 0 <= m < r@.len() ==> (#[trigger] r@[m]).0 < self.stations_view().len(),
            forall|m: int| 0 <= m < r@.len() ==> (#[trigger] r@[m]).1 == (if (r@[m].0 as int) < store@.len() {
                crate::popularity::weight_of(store@[r@[m].0 as int])
            } else {
                1
            }),
    {
        let mut r: Vec<(usize, u32)> = Vec::new();
        if i >= self.neighbors.len() {
            return r;
        }
        let list = &self.neighbors[i];
        let mut m: usize = 0;
        while m < list.len()
            invariant
                self.wf(),
                store.wf(),
                i < self.stations_view().len(),
                *list == self.neighbors@[i as int],
                m <= list@.len(),
                r@.len() == m,
                forall|p: int| 0 <= p < m ==> (#[trigger] r@[p]).0 == list@[p],
                forall|p: int| 0 <= p < m ==> (#[trigger] r@[p]).0 < self.stations_view().len(),
                forall|p: int| 0 <= p < m ==> (#[trigger] r@[p]).1 == (if (r@[p].0 as int) < store@.len() {
                    crate::popularity::weight_of(store@[r@[p].0 as int])
                } else {
                    1
                }),
            decreases list@.len() - m,
        {
            let j = list[m];
            r.push((j, store.weight(j)));
            m += 1;
        }
        assert forall|j: int| 0 <= j < self.stations_view().len() implies (self.adjacent(i as int, j) <==> exists|p: int|
            0 <= p < r@.len() && (#[trigger] r@[p]).0 == j) by {
            assert(self.neighbors@[i as int]@.contains(j as usize) <==> self.adjacent(i as int, j));
            if self.adjacent(i as int, j) {
                assert(list@.contains(j as usize));
                let p = choose|p: int| 0 <= p < list@.len() && list@[p] == j as usize;
                assert(r@[p].0 == j);
            }
            if exists|p: int| 0 <= p < r@.len() && (#[trigger] r@[p]).0 == j {
                let p = choose|p: int| 0 <= p < r@.len() && (#[trigger] r@[p]).0 == j;
                assert(list@[p] == j as usize);
                assert(list@.contains(j as usize));
            }
        }
        assert(r@ =~= list@.map_values(|j: usize| (j, crate::popularity::weight_at(store@, j as int))));
        r
    }
}

impl Network {
    /// The stations linked to station `i`.
    pub fn linked(&self, i: usize) -> (r: Vec<usize>)
        requires
            self.wf(),
            i < self.stations_view().len(),
        ensures
            forall|m: int| 0 <= m < r@.len() ==> (#[trigger] r@[m] as int) < self.stations_view().len(),
            forall|j: int| 0 <= j < self.stations_view().len() ==> (self.adjacent(i as int, j) <==> r@.contains(j as usize)),
    {
        let list = &self.neighbors[i];
        let mut r: Vec<usize> = Vec::new();
        let mut m: usize = 0;
        while m < list.len()
            invariant
                self.wf(),
                i < self.stations_view().len(),
                *list == self.neighbors@[i as int],
                m <= list@.len(),
                r@ == list@.take(m as int),
            decreases list@.len() - m,
        {
            r.push(list[m]);
            m += 1;
            assert(r@ =~= list@.take(m as int));
        }
        assert(r@ =~= list@);
        assert forall|j: int| 0 <= j < self.stations_view().len() implies (self.adjacent(i as int, j) <==> r@.contains(j as usize)) by {
            assert(self.neighbors@[i as int]@.contains(j as usize) <==> self.adjacent(i as int, j));
        }
        r
    }
}

/// Place in `stations` of the station with identity `id`, looked up in the id table.
fn lookup(ids: &IndexMap<u32, usize>, stations: &Vec<Station>, id: StationId) -> (r: Option<usize>)
    requires
        indexes(id_entries(*ids), stations@),
    ensures
        r matches Some(i) ==> i < stations@.len() && stations@[i as int].id == id,
        r is None ==> !has_id(stations@, id.0),
{
    id_table_get(ids, id.0)
}

/// Adds `b` to the neighbors of `a`, unless it is there already.
fn add_neighbor(neighbors: &mut Vec<Vec<usize>>, a: usize, b: usize)
    requires
        a < old(neighbors)@.len(),
    ensures
        final(neighbors)@.len() == old(neighbors)@.len(),
        forall|x: int| 0 <= x < old(neighbors)@.len() && x != a ==> #[trigger] final(neighbors)@[x] == old(neighbors)@[x],
        forall|y: usize| #[trigger] final(neighbors)@[a as int]@.contains(y) <==> (old(neighbors)@[a as int]@.contains(y) || y == b),
        forall|m: int| 0 <= m < final(neighbors)@[a as int]@.len() ==> (#[trigger] final(neighbors)@[a as int]@[m] == b
            || old(neighbors)@[a as int]@.contains(final(neighbors)@[a as int]@[m])),
{
    let old_list = &neighbors[a];
    let mut list: Vec<usize> = Vec::new();
    let mut m: usize = 0;
    let mut present = false;
    while m < old_list.len()
        invariant
            m <= old_list@.len(),
            list@ == old_list@.take(m as int),
            present <==> exists|p: int| 0 <= p < m && old_list@[p] == b,
        decreases old_list@.len() - m,
    {
        if old_list[m] == b {
            present = true;
        }
        list.push(old_list[m]);
        m += 1;
        assert(list@ =~= old_list@.take(m as int));
    }
    assert(list@ =~= old_list@);
    if present {
        return;
    }
    let ghost prev = list@;
    list.push(b);
    assert forall|y: usize| #[trigger] list@.contains(y) <==> (prev.contains(y) || y == b) by {
        if prev.contains(y) {
            let p = choose|p: int| 0 <= p < prev.len() && prev[p] == y;
            assert(list@[p] == y);
        }
        if y == b {
            assert(list@[prev.len() as int] == b);
        }
    }
    assert forall|m: int| 0 <= m < list@.len() implies (#[trigger] list@[m] == b || prev.contains(list@[m])) by {
        if m < prev.len() {
            assert(prev[m] == list@[m]);
        }
    }
    neighbors.set(a, list);
}

} // verus!
