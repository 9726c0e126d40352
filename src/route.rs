use crate::actor::RouteStep;
use crate::road::{
    lemma_topology_shape, outputs_for_input, same_lane, valid_segment, Direction, JunctionId, JunctionLaneId, LaneEnds, Network, PosParam,
    QualifiedSegmentLaneRank, Topology,
};
use vstd::prelude::*;

verus! {

/// The junction that lane `q` flows into.
pub open spec fn downstream_junction(topo: Topology, q: QualifiedSegmentLaneRank) -> JunctionId {
    match q.1 {
        Direction::Forward => topo.segment_ends[q.0.0 as int].1,
        Direction::Backward => topo.segment_ends[q.0.0 as int].0,
    }
}

/// The lanes reachable from lane `q` through one junction lane, in the order of
/// the junction's lanes.
pub open spec fn lane_successors_spec(topo: Topology, q: QualifiedSegmentLaneRank) -> Seq<QualifiedSegmentLaneRank> {
    if valid_segment(topo, q.0) && downstream_junction(topo, q).0 < topo.junction_lanes.len() {
        outputs_for_input(topo.junction_lanes[downstream_junction(topo, q).0 as int], q)
    } else {
        Seq::empty()
    }
}

/// A walk through the lane graph: each lane is followed by one of its successors.
pub open spec fn is_lane_walk(topo: Topology, p: Seq<QualifiedSegmentLaneRank>) -> bool {
    &&& p.len() >= 1
    &&& forall|i: int| 0 <= i < p.len() - 1 ==> lane_successors_spec(topo, #[trigger] p[i]).contains(p[i + 1])
}

/// A walk from `start` to `goal`.
pub open spec fn is_walk_between(topo: Topology, p: Seq<QualifiedSegmentLaneRank>, start: QualifiedSegmentLaneRank, goal: QualifiedSegmentLaneRank) -> bool {
    is_lane_walk(topo, p) && p[0] == start && p.last() == goal
}

/// The path that the shortest-path search returns from `start` to `goal`.
pub uninterp spec fn lane_route(topo: Topology, start: QualifiedSegmentLaneRank, goal: QualifiedSegmentLaneRank) -> Option<Seq<QualifiedSegmentLaneRank>>;

/// The lanes reachable from `q` through one junction lane, each at cost one.
pub fn lane_successors(network: &Network, q: &QualifiedSegmentLaneRank) -> (r: Vec<(QualifiedSegmentLaneRank, u64)>)
    requires
        network.wf(),
    ensures
        r@ == lane_successors_spec(network.topology(), *q).map_values(|x: QualifiedSegmentLaneRank| (x, 1u64)),
{
    let ghost topo = network.topology();
    proof { lemma_topology_shape(network); }
    let ends = match network.get_segment_junctions(q.0) {
        Ok(ends) => ends,
        Err(_) => {
            let r: Vec<(QualifiedSegmentLaneRank, u64)> = Vec::new();
            proof {
                assert(!valid_segment(topo, q.0));
                assert(r@ =~= lane_successors_spec(topo, *q).map_values(|x: QualifiedSegmentLaneRank| (x, 1u64)));
            }
            return r;
        },
    };
    let junction_id = match q.1 {
        Direction::Forward => ends.1,
        Direction::Backward => ends.0,
    };
    let outputs = match network.junctions().get(&junction_id) {
        Some(junction) => junction.get_outputs_for_input(*q),
        None => Vec::new(),
    };
    let mut r: Vec<(QualifiedSegmentLaneRank, u64)> = Vec::new();
    let mut i: usize = 0;
    while i < outputs.len()
        invariant
            i <= outputs@.len(),
            r@ == outputs@.take(i as int).map_values(|x: QualifiedSegmentLaneRank| (x, 1u64)),
        decreases outputs@.len() - i,
    {
        r.push((outputs[i], 1));
        proof {
            assert(outputs@.take(i + 1) =~= outputs@.take(i as int).push(outputs@[i as int]));
            assert(r@ =~= outputs@.take(i + 1).map_values(|x: QualifiedSegmentLaneRank| (x, 1u64)));
        }
        i = i + 1;
    }
    proof {
        assert(outputs@.take(outputs@.len() as int) =~= outputs@);
        if valid_segment(topo, q.0) && downstream_junction(topo, *q).0 < topo.junction_lanes.len() {
        } else {
            assert(outputs@ =~= Seq::<QualifiedSegmentLaneRank>::empty());
        }
        assert(r@ =~= lane_successors_spec(topo, *q).map_values(|x: QualifiedSegmentLaneRank| (x, 1u64)));
    }
    r
}

/// The search has no estimate of the distance left: it explores by cost alone.
fn no_estimate(_q: &QualifiedSegmentLaneRank) -> (r: u64)
    ensures
        r == 0,
{
    0
}

/// Relies on `pathfinding::directed::astar::astar`, with successors from
/// `lane_successors` at cost one each, no estimate and `goal` as the target:
/// its result is a shortest walk from `start` to `goal`, start and end
/// included, or nothing when no walk leads there; it depends on the network's
/// shape and the two lanes alone.
#[verifier::external_body]
pub(crate) fn shortest_lane_path(network: &Network, start: QualifiedSegmentLaneRank, goal: QualifiedSegmentLaneRank) -> (r: Option<Vec<QualifiedSegmentLaneRank>>)
    requires
        network.wf(),
    ensures
        match r {
            Some(p) => {
                &&& lane_route(network.topology(), start, goal) == Some(p@)
                &&& is_walk_between(network.topology(), p@, start, goal)
                &&& forall|q: Seq<QualifiedSegmentLaneRank>| is_walk_between(network.topology(), q, start, goal) ==> q.len() >= p@.len()
            },
            None => {
                &&& lane_route(network.topology(), start, goal) == None::<Seq<QualifiedSegmentLaneRank>>
                &&& forall|q: Seq<QualifiedSegmentLaneRank>| !is_walk_between(network.topology(), q, start, goal)
            },
        },
{
    pathfinding::directed::astar::astar(&start, |q| lane_successors(network, q), no_estimate, |q| same_lane(q, &goal))
        .map(|found| found.0)
}

/// The position of the first element of `s` equal to `x`.
pub open spec fn first_index(s: Seq<LaneEnds>, x: LaneEnds) -> Option<nat>
    decreases s.len(),
{
    if s.len() == 0 {
        None
    } else {
        match first_index(s.drop_last(), x) {
            Some(i) => Some(i),
            None => if s.last() == x { Some((s.len() - 1) as nat) } else { None },
        }
    }
}

/// The first lane of the junction after `from` that leads from `from` to `to`.
pub open spec fn hop_lane(topo: Topology, from: QualifiedSegmentLaneRank, to: QualifiedSegmentLaneRank) -> Option<JunctionLaneId> {
    let j = downstream_junction(topo, from);
    if valid_segment(topo, from.0) && j.0 < topo.junction_lanes.len() {
        match first_index(topo.junction_lanes[j.0 as int], (from, to)) {
            Some(i) => Some(JunctionLaneId(i as usize)),
            None => None,
        }
    } else {
        None
    }
}

/// The junction lanes that a path of lanes takes, in travel order.
pub open spec fn path_turns(topo: Topology, p: Seq<QualifiedSegmentLaneRank>) -> Option<Seq<JunctionLaneId>>
    decreases p.len(),
{
    if p.len() <= 1 {
        Some(Seq::empty())
    } else {
        match (path_turns(topo, p.drop_last()), hop_lane(topo, p[p.len() - 2], p.last())) {
            (Some(t), Some(h)) => Some(t.push(h)),
            _ => None,
        }
    }
}

/// The route stack for taking `turns` and then stopping at `arrive`: the first
/// turn on top, the arrival at the bottom.
pub open spec fn route_stack(turns: Seq<JunctionLaneId>, arrive: PosParam) -> Seq<RouteStep> {
    seq![RouteStep::ArriveAt(arrive)] + Seq::new(turns.len(), |k: int| RouteStep::TurnAt(turns[turns.len() - 1 - k]))
}

/// The first lane of junction `junction` that leads from `from` to `to`.
fn find_hop(network: &Network, junction: JunctionId, from: QualifiedSegmentLaneRank, to: QualifiedSegmentLaneRank) -> (r: Option<JunctionLaneId>)
    requires
        network.wf(),
        junction.0 < network.topology().junction_lanes.len(),
    ensures
        r == (match first_index(network.topology().junction_lanes[junction.0 as int], (from, to)) {
            Some(i) => Some(JunctionLaneId(i as usize)),
            None => None,
        }),
{
    let ghost lanes = network.topology().junction_lanes[junction.0 as int];
    proof { lemma_topology_shape(network); }
    let jn = network.junctions().get(&junction).unwrap();
    let n = jn.lanes.len();
    let mut i: usize = 0;
    while i < n
        invariant
            n == lanes.len(),
            lanes == jn.lane_ends(),
            lanes == network.topology().junction_lanes[junction.0 as int],
            i <= n,
            first_index(lanes.take(i as int), (from, to)) is None,
        decreases n - i,
    {
        let lane = jn.lanes.get(&JunctionLaneId(i)).unwrap();
        proof {
            assert(lanes.take(i + 1).drop_last() =~= lanes.take(i as int));
        }
        if same_lane(&lane.input, &from) && same_lane(&lane.output, &to) {
            proof {
                assert(lanes[i as int] == lane.ends());
                assert(lanes.take(i + 1).last() == (from, to));
                assert(first_index(lanes.take(i + 1), (from, to)) == Some(i as nat));
                lemma_first_index_prefix(lanes, (from, to), i + 1);
                assert(first_index(lanes, (from, to)) == Some(i as nat));
                assert(lanes == network.topology().junction_lanes[junction.0 as int]);
            }
            return Some(JunctionLaneId(i));
        }
        i = i + 1;
    }
    proof { assert(lanes.take(n as int) =~= lanes); }
    None
}

/// A first match found in a prefix is the first match of the whole.
proof fn lemma_first_index_prefix(s: Seq<LaneEnds>, x: LaneEnds, k: int)
    requires
        0 <= k <= s.len(),
        first_index(s.take(k), x) is Some,
    ensures
        first_index(s, x) == first_index(s.take(k), x),
    decreases s.len() - k,
{
    if k < s.len() {
        assert(s.take(k + 1).drop_last() =~= s.take(k));
        lemma_first_index_prefix(s, x, k + 1);
    } else {
        assert(s.take(k) =~= s);
    }
}

/// The junction lane that leads from `from` to `to` at the junction after `from`.
fn hop(network: &Network, from: QualifiedSegmentLaneRank, to: QualifiedSegmentLaneRank) -> (r: Option<JunctionLaneId>)
    requires
        network.wf(),
    ensures
        r == hop_lane(network.topology(), from, to),
{
    proof { lemma_topology_shape(network); }
    let ends = match network.get_segment_junctions(from.0) {
        Ok(ends) => ends,
        Err(_) => { return None; },
    };
    let junction = match from.1 {
        Direction::Forward => ends.1,
        Direction::Backward => ends.0,
    };
    if junction.0 >= network.junctions().len() {
        return None;
    }
    find_hop(network, junction, from, to)
}

/// The route stack for following `path` and stopping at `arrive` on its last
/// lane; nothing where two lanes of the path are not joined by a junction lane.
pub fn path_route(network: &Network, path: &Vec<QualifiedSegmentLaneRank>, arrive: PosParam) -> (r: Option<Vec<RouteStep>>)
    requires
        network.wf(),
    ensures
        match path_turns(network.topology(), path@) {
            Some(t) => r is Some && r->Some_0@ == route_stack(t, arrive),
            None => r is None,
        },
{
    let ghost topo = network.topology();
    let mut turns: Vec<JunctionLaneId> = Vec::new();
    let mut i: usize = 1;
    if path.len() == 0 {
        proof { assert(path_turns(topo, path@) == Some(Seq::<JunctionLaneId>::empty())); }
    }
    while i < path.len()
        invariant
            network.wf(),
            topo == network.topology(),
            1 <= i,
            path@.len() == 0 || i <= path@.len(),
            path@.len() > 0 ==> path_turns(topo, path@.take(i as int)) == Some(turns@),
            path@.len() == 0 ==> turns@.len() == 0,
        decreases path@.len() - i,
    {
        proof {
            assert(path@.take(i + 1).drop_last() =~= path@.take(i as int));
            assert(path@.take(i + 1)[i - 1] == path@[i - 1]);
        }
        match hop(network, path[i - 1], path[i]) {
            Some(h) => {
                turns.push(h);
            },
            None => {
                proof { lemma_path_turns_prefix_none(topo, path@, i + 1); }
                return None;
            },
        }
        i = i + 1;
    }
    proof {
        if path@.len() > 0 {
            assert(path@.take(path@.len() as int) =~= path@);
        }
    }
    let mut r: Vec<RouteStep> = Vec::new();
    r.push(RouteStep::ArriveAt(arrive));
    let n = turns.len();
    let mut k: usize = 0;
    while k < n
        invariant
            n == turns@.len(),
            k <= n,
            r@ == seq![RouteStep::ArriveAt(arrive)] + Seq::new(k as nat, |m: int| RouteStep::TurnAt(turns@[n - 1 - m])),
        decreases n - k,
    {
        r.push(RouteStep::TurnAt(turns[n - 1 - k]));
        proof {
            assert(r@ =~= seq![RouteStep::ArriveAt(arrive)] + Seq::new((k + 1) as nat, |m: int| RouteStep::TurnAt(turns@[n - 1 - m])));
        }
        k = k + 1;
    }
    proof {
        assert(r@ =~= route_stack(turns@, arrive));
    }
    Some(r)
}

/// A path with a gap in a prefix has a gap.
proof fn lemma_path_turns_prefix_none(topo: Topology, p: Seq<QualifiedSegmentLaneRank>, k: int)
    requires
        2 <= k <= p.len(),
        path_turns(topo, p.take(k)) is None,
    ensures
        path_turns(topo, p) is None,
    decreases p.len() - k,
{
    if k < p.len() {
        assert(p.take(k + 1).drop_last() =~= p.take(k));
        lemma_path_turns_prefix_none(topo, p, k + 1);
    } else {
        assert(p.take(k) =~= p);
    }
}

} // verus!
