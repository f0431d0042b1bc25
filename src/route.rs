use vstd::prelude::*;
use crate::data::Network;
use crate::popularity::{weight_at, PopularityStore};

verus! {

/// The successor list that the search is given for each station: each linked station with
/// its popularity weight as the cost of stepping to it.
pub open spec fn search_successors(network: &Network, store: &PopularityStore) -> Seq<Seq<(usize, u32)>> {
    Seq::new(
        network.stations_view().len(),
        |i: int| network.neighbor_list(i).map_values(|j: usize| (j, weight_at(store@, j as int))),
    )
}

/// The estimate that the search is given for each station: its popularity weight.
pub open spec fn search_heuristic(network: &Network, store: &PopularityStore) -> Seq<u32> {
    Seq::new(network.stations_view().len(), |i: int| weight_at(store@, i))
}

/// The path that pathfinding's A* search returns from `start` to the goal `end`, given each
/// node's successors with step costs and each node's estimate.
pub uninterp spec fn astar_of(successors: Seq<Seq<(usize, u32)>>, heuristic: Seq<u32>, start: int, end: int) -> Option<Seq<usize>>;

/// Whether `r` is the route that the popularity-weighted search finds from `start` to `end`.
pub open spec fn is_search_result(r: Option<Vec<usize>>, network: &Network, store: &PopularityStore, start: int, end: int) -> bool {
    let found = astar_of(search_successors(network, store), search_heuristic(network, store), start, end);
    match r {
        Some(p) => found == Some(p@),
        None => found is None,
    }
}

/// Whether `p` walks from station `start` to station `end` over direct links.
pub open spec fn is_route(network: &Network, p: Seq<usize>, start: int, end: int) -> bool {
    &&& p.len() >= 1
    &&& p[0] == start
    &&& p.last() == end
    &&& forall|i: int| 0 <= i < p.len() ==> (#[trigger] p[i] as int) < network.stations_view().len()
    &&& forall|i: int| 0 <= i < p.len() - 1 ==> #[trigger] network.adjacent(p[i] as int, p[i + 1] as int)
}

/// Whether the search has reached its goal.
fn reached(node: &usize, end: usize) -> (r: bool)
    ensures
        r == (*node == end),
{
    *node == end
}

/// Relies on pathfinding::directed::astar::astar: a found path starts at `start`, ends at a
/// node that the goal test accepts, and each node in it was listed among the successors of
/// the one before. Costs and heuristic are the stations' popularity weights, at most the
/// ceiling each, so sums over simple paths of a network of bounded size fit in `u32`. The
/// closures hand it each station's successor list and estimate; its result depends on those
/// alone (its tables hash with a fixed hasher).
/// It returns `None` only once its queue is empty, after every node reachable from `start`
/// has been tested, so then no route exists. The start node is tested first, so a search
/// whose start is its goal returns the path of that node alone.
#[verifier::external_body]
fn astar_route(network: &Network, store: &PopularityStore, start: usize, end: usize) -> (r: Option<Vec<usize>>)
    requires
        network.wf(),
        store.wf(),
        start < network.stations_view().len(),
        end < network.stations_view().len(),
    ensures
        r matches Some(p) ==> is_route(network, p@, start as int, end as int),
        r is None ==> !exists|p: Seq<usize>| is_route(network, p, start as int, end as int),
        start == end ==> (r is Some && r->0@ == seq![start]),
        match r {
            Some(p) => astar_of(search_successors(network, store), search_heuristic(network, store), start as int, end as int) == Some(p@),
            None => astar_of(search_successors(network, store), search_heuristic(network, store), start as int, end as int) is None,
        },
{
    pathfinding::directed::astar::astar(
        &start,
        |n: &usize| network.successors(*n, store),
        |n: &usize| store.weight(*n),
        |n: &usize| reached(n, end),
    ).map(|found| found.0)
}

/// A route from `start` to `end` where each step and the estimate favour stations that
/// trains visited less: the cost of stepping to a station and its estimate are both its
/// popularity weight. `None` exactly where no route exists.
pub fn find_route(network: &Network, store: &PopularityStore, start: usize, end: usize) -> (r: Option<Vec<usize>>)
    requires
        network.wf(),
        store.wf(),
        start < network.stations_view().len(),
        end < network.stations_view().len(),
    ensures
        r matches Some(p) ==> is_route(network, p@, start as int, end as int),
        r is None ==> !exists|p: Seq<usize>| is_route(network, p, start as int, end as int),
        start == end ==> (r is Some && r->0@ == seq![start]),
        is_search_result(r, network, store, start as int, end as int),
{
    astar_route(network, store, start, end)
}

} // verus!
