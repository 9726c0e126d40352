use crate::actor::{Actor, ActorView, Agendum};
use crate::constants::ACTOR_MAX_SPEED;
use crate::arena::{ArenaIndex, SeqIndexedStore};
use crate::error::RoutieError;
use crate::flat::{
    flat_map, lemma_flat_map_congruent, lemma_flat_map_empty, lemma_flat_map_filter, lemma_flat_map_single, lemma_flat_map_single_except, lemma_flat_map_take,
    lemma_flat_map_update, lemma_insert_map_to_multiset,
};
use crate::occupancy::OrderedSkipMap;
use vstd::multiset::Multiset;
use vstd::prelude::*;
use vstd::seq_lib::lemma_multiset_commutative;

verus! {

/// A position along a lane or a segment, in fixed point (see `POS_PARAM_ONE`).
pub type PosParam = u64;

/// Which carriageway of a segment: from its begin junction to its end (forward)
/// or back.
#[derive(Debug, PartialEq, Eq, Structural, Hash, Clone, Copy)]
pub enum Direction {
    Forward,
    Backward,
}

#[derive(PartialEq, Eq, Structural, Hash, Clone, Copy, Debug)]
pub struct JunctionId(pub usize);

#[derive(PartialEq, Eq, Structural, Hash, Clone, Copy, Debug)]
pub struct SegmentId(pub usize);

#[derive(PartialEq, Eq, Structural, Hash, Clone, Copy, Debug)]
pub struct SegmentLaneRank(pub usize);

#[derive(PartialEq, Eq, Structural, Hash, Clone, Copy, Debug)]
pub struct JunctionLaneId(pub usize);

impl ArenaIndex for JunctionId {
    open spec fn spec_index(self) -> nat { self.0 as nat }
    fn from_index(i: usize) -> (r: Self) { JunctionId(i) }
    fn index(&self) -> (r: usize) { self.0 }
}

impl ArenaIndex for SegmentId {
    open spec fn spec_index(self) -> nat { self.0 as nat }
    fn from_index(i: usize) -> (r: Self) { SegmentId(i) }
    fn index(&self) -> (r: usize) { self.0 }
}

impl ArenaIndex for SegmentLaneRank {
    open spec fn spec_index(self) -> nat { self.0 as nat }
    fn from_index(i: usize) -> (r: Self) { SegmentLaneRank(i) }
    fn index(&self) -> (r: usize) { self.0 }
}

impl ArenaIndex for JunctionLaneId {
    open spec fn spec_index(self) -> nat { self.0 as nat }
    fn from_index(i: usize) -> (r: Self) { JunctionLaneId(i) }
    fn index(&self) -> (r: usize) { self.0 }
}

/// The universal address of a lane.
pub type QualifiedSegmentLaneRank = (SegmentId, Direction, SegmentLaneRank);

/// Where a junction lane begins and where it ends.
pub type LaneEnds = (QualifiedSegmentLaneRank, QualifiedSegmentLaneRank);

/// A point of the plane, in millionths of the unit square.
#[derive(PartialEq, Eq, Structural, Clone, Copy, Debug)]
pub struct Point {
    pub x: i64,
    pub y: i64,
}

/// A lane through a junction, from one segment lane to another.
pub struct JunctionLane {
    pub input: QualifiedSegmentLaneRank,
    pub output: QualifiedSegmentLaneRank,
    pub actors: OrderedSkipMap<Actor>,
}

/// A point where segments meet, with the lanes that lead across it.
pub struct Junction {
    pub pos: Point,
    pub lanes: SeqIndexedStore<JunctionLaneId, JunctionLane>,
}

/// One lane of a segment.
pub struct SegmentLane {
    pub direction: Direction,
    pub actors: OrderedSkipMap<Actor>,
}

/// A road between two junctions: its lanes in each direction, and the actors
/// parked beside it on either side.
pub struct Segment {
    pub forward_actors: OrderedSkipMap<Actor>,
    pub backward_actors: OrderedSkipMap<Actor>,
    pub forward_lanes: SeqIndexedStore<SegmentLaneRank, SegmentLane>,
    pub backward_lanes: SeqIndexedStore<SegmentLaneRank, SegmentLane>,
}

/// The road network: junctions and segments, the segments incident to each
/// junction and the two junctions of each segment.
pub struct Network {
    junctions: SeqIndexedStore<JunctionId, Junction>,
    segments: SeqIndexedStore<SegmentId, Segment>,
    junction_segments: Vec<Vec<SegmentId>>,
    segment_junctions: Vec<(JunctionId, JunctionId)>,
}

/// The shape of a network, without its occupants: for each junction its
/// position, the segments that meet there and the input and output of each of
/// its lanes, and for each segment its two junctions, its lane counts (forward,
/// backward) and the recorded direction of each of its lanes.
pub struct Topology {
    pub junction_positions: Seq<Point>,
    pub junction_segments: Seq<Seq<SegmentId>>,
    pub segment_ends: Seq<(JunctionId, JunctionId)>,
    pub lane_counts: Seq<(nat, nat)>,
    pub lane_directions: Seq<(Seq<Direction>, Seq<Direction>)>,
    pub junction_lanes: Seq<Seq<LaneEnds>>,
}

/// The recorded directions of the forward lanes and of the backward lanes of `s`.
pub open spec fn lane_directions_of(s: Segment) -> (Seq<Direction>, Seq<Direction>) {
    (s.forward_lanes@.map_values(|l: SegmentLane| l.direction), s.backward_lanes@.map_values(|l: SegmentLane| l.direction))
}

impl JunctionLane {
    pub open spec fn ends(self) -> LaneEnds {
        (self.input, self.output)
    }

    pub fn new(input: QualifiedSegmentLaneRank, output: QualifiedSegmentLaneRank) -> (r: Self)
        ensures
            r.ends() == (input, output),
            r.actors@ == Seq::<(PosParam, Actor)>::empty(),
    {
        JunctionLane { input, output, actors: OrderedSkipMap::new() }
    }

    pub fn input(&self) -> (r: QualifiedSegmentLaneRank)
        ensures
            r == self.ends().0,
    {
        self.input
    }

    pub fn output(&self) -> (r: QualifiedSegmentLaneRank)
        ensures
            r == self.ends().1,
    {
        self.output
    }

    /// The same lane with no actors on it.
    pub fn clone_empty(&self) -> (r: Self)
        ensures
            r.ends() == self.ends(),
            r.actors@ == Seq::<(PosParam, Actor)>::empty(),
    {
        JunctionLane::new(self.input, self.output)
    }
}

impl Junction {
    /// Inputs and outputs of the junction's lanes, by lane id.
    pub open spec fn lane_ends(self) -> Seq<LaneEnds> {
        self.lanes@.map_values(|l: JunctionLane| l.ends())
    }

    pub fn new(pos: Point) -> (r: Self)
        ensures
            r.pos == pos,
            r.lanes@ == Seq::<JunctionLane>::empty(),
    {
        Junction { pos, lanes: SeqIndexedStore::new() }
    }

    /// Every lane of the junction with its id, in id order.
    pub fn enumerate_lanes(&self) -> (r: Vec<(JunctionLaneId, &JunctionLane)>)
        ensures
            r@.len() == self.lanes@.len(),
            forall|i: int| 0 <= i < r@.len() ==> (#[trigger] r@[i]).0.0 == i && *r@[i].1 == self.lanes@[i],
    {
        self.lanes.enumerate()
    }

    pub fn lanes(&self) -> (r: &SeqIndexedStore<JunctionLaneId, JunctionLane>)
        ensures
            r@ == self.lanes@,
    {
        &self.lanes
    }

    /// Adds a lane from `begin` to `end` and returns its id.
    pub fn add_lane(&mut self, begin: QualifiedSegmentLaneRank, end: QualifiedSegmentLaneRank) -> (r: JunctionLaneId)
        ensures
            final(self).pos == old(self).pos,
            final(self).lanes@ == old(self).lanes@.push(final(self).lanes@.last()),
            final(self).lanes@.last().ends() == (begin, end),
            final(self).lanes@.last().actors@ == Seq::<(PosParam, Actor)>::empty(),
            r.0 == old(self).lanes@.len(),
    {
        self.lanes.push(JunctionLane::new(begin, end))
    }

    /// The input and output lanes of junction lane `lane_id`.
    pub fn get_segment_lanes_for_junction_lane(&self, lane_id: JunctionLaneId) -> (r: Option<LaneEnds>)
        ensures
            r == (if lane_id.0 < self.lanes@.len() { Some(self.lane_ends()[lane_id.0 as int]) } else { None }),
    {
        match self.lanes.get(&lane_id) {
            Some(lane) => Some((lane.input, lane.output)),
            None => None,
        }
    }

    /// The outputs of the junction lanes that begin at `input`, in lane order.
    pub fn get_outputs_for_input(&self, input: QualifiedSegmentLaneRank) -> (r: Vec<QualifiedSegmentLaneRank>)
        ensures
            r@ == outputs_for_input(self.lane_ends(), input),
    {
        let mut r: Vec<QualifiedSegmentLaneRank> = Vec::new();
        let mut i: usize = 0;
        let n = self.lanes.len();
        while i < n
            invariant
                n == self.lanes@.len(),
                i <= n,
                r@ == outputs_for_input(self.lane_ends().take(i as int), input),
            decreases n - i,
        {
            let lane = match self.lanes.get(&JunctionLaneId(i)) {
                Some(l) => l,
                None => { proof { assert(false); } return r; },
            };
            proof {
                assert(self.lane_ends().take(i + 1).drop_last() =~= self.lane_ends().take(i as int));
            }
            if same_lane(&lane.input, &input) {
                r.push(lane.output);
            }
            i = i + 1;
        }
        proof { assert(self.lane_ends().take(n as int) =~= self.lane_ends()); }
        r
    }
}

/// The outputs of the lanes among `ends` that begin at `input`, in order.
pub open spec fn outputs_for_input(ends: Seq<LaneEnds>, input: QualifiedSegmentLaneRank) -> Seq<QualifiedSegmentLaneRank>
    decreases ends.len(),
{
    if ends.len() == 0 {
        Seq::empty()
    } else {
        let rest = outputs_for_input(ends.drop_last(), input);
        if ends.last().0 == input { rest.push(ends.last().1) } else { rest }
    }
}

/// Whether two lane addresses are the same.
pub fn same_lane(a: &QualifiedSegmentLaneRank, b: &QualifiedSegmentLaneRank) -> (r: bool)
    ensures
        r == (*a == *b),
{
    a.0.0 == b.0.0 && a.1 == b.1 && a.2.0 == b.2.0
}

/// Where an actor is: parked beside a segment, on a segment lane, or on a
/// junction lane, each time at a position parameter.
#[derive(Clone, Copy, Debug, PartialEq, Eq, Structural)]
pub enum Location {
    OffRoad { segment_id: SegmentId, segment_side: Direction, pos_param: PosParam },
    OnRoadSegment { segment_id: SegmentId, direction: Direction, rank: SegmentLaneRank, pos_param: PosParam },
    OnRoadJunction { junction_id: JunctionId, lane_id: JunctionLaneId, pos_param: PosParam },
}

/// An actor at a location.
pub type Placement = (Location, ActorView);

/// The number of lanes of segment `s` in direction `d`.
pub open spec fn lane_count(topo: Topology, s: SegmentId, d: Direction) -> nat {
    match d {
        Direction::Forward => topo.lane_counts[s.0 as int].0,
        Direction::Backward => topo.lane_counts[s.0 as int].1,
    }
}

pub open spec fn valid_segment(topo: Topology, s: SegmentId) -> bool {
    s.0 < topo.lane_counts.len() && s.0 < topo.segment_ends.len()
}

pub open spec fn valid_lane(topo: Topology, q: QualifiedSegmentLaneRank) -> bool {
    valid_segment(topo, q.0) && q.2.0 < lane_count(topo, q.0, q.1)
}

pub open spec fn valid_junction_lane(topo: Topology, j: JunctionId, l: JunctionLaneId) -> bool {
    j.0 < topo.junction_lanes.len() && l.0 < topo.junction_lanes[j.0 as int].len()
}

/// Whether `loc` names a place that exists in a network of this shape.
pub open spec fn valid_location(topo: Topology, loc: Location) -> bool {
    match loc {
        Location::OffRoad { segment_id, .. } => valid_segment(topo, segment_id),
        Location::OnRoadSegment { segment_id, direction, rank, .. } => valid_lane(topo, (segment_id, direction, rank)),
        Location::OnRoadJunction { junction_id, lane_id, .. } => valid_junction_lane(topo, junction_id, lane_id),
    }
}

/// `loc` with its position replaced by `p`.
pub open spec fn at_pos(loc: Location, p: PosParam) -> Location {
    match loc {
        Location::OffRoad { segment_id, segment_side, .. } => Location::OffRoad { segment_id, segment_side, pos_param: p },
        Location::OnRoadSegment { segment_id, direction, rank, .. } => Location::OnRoadSegment { segment_id, direction, rank, pos_param: p },
        Location::OnRoadJunction { junction_id, lane_id, .. } => Location::OnRoadJunction { junction_id, lane_id, pos_param: p },
    }
}

/// `loc` with its position replaced by `p`.
pub fn with_pos(loc: Location, p: PosParam) -> (r: Location)
    ensures
        r == at_pos(loc, p),
{
    match loc {
        Location::OffRoad { segment_id, segment_side, .. } => Location::OffRoad { segment_id, segment_side, pos_param: p },
        Location::OnRoadSegment { segment_id, direction, rank, .. } => Location::OnRoadSegment { segment_id, direction, rank, pos_param: p },
        Location::OnRoadJunction { junction_id, lane_id, .. } => Location::OnRoadJunction { junction_id, lane_id, pos_param: p },
    }
}

/// The entries of an occupancy map, placed where `template` says.
pub open spec fn tag_entries(entries: Seq<(PosParam, Actor)>, template: Location) -> Seq<Placement> {
    entries.map_values(|e: (PosParam, Actor)| (at_pos(template, e.0), e.1@))
}

/// The actors on the lanes of segment `s` in direction `d`, lane by lane.
pub open spec fn lane_placements(s: SegmentId, d: Direction, lanes: Seq<SegmentLane>) -> Seq<Placement> {
    flat_map(
        lanes,
        |r: int, lane: SegmentLane|
            tag_entries(lane.actors@, Location::OnRoadSegment { segment_id: s, direction: d, rank: SegmentLaneRank(r as usize), pos_param: 0 }),
    )
}

/// The actors of segment `i`: parked backward, parked forward, on backward
/// lanes, on forward lanes.
pub open spec fn segment_placements(i: int, seg: Segment) -> Seq<Placement> {
    let id = SegmentId(i as usize);
    tag_entries(seg.backward_actors@, Location::OffRoad { segment_id: id, segment_side: Direction::Backward, pos_param: 0 })
        + tag_entries(seg.forward_actors@, Location::OffRoad { segment_id: id, segment_side: Direction::Forward, pos_param: 0 })
        + lane_placements(id, Direction::Backward, seg.backward_lanes@)
        + lane_placements(id, Direction::Forward, seg.forward_lanes@)
}

/// The actors on the lanes of junction `j`, lane by lane.
pub open spec fn junction_placements(j: int, junction: Junction) -> Seq<Placement> {
    flat_map(
        junction.lanes@,
        |l: int, lane: JunctionLane|
            tag_entries(lane.actors@, Location::OnRoadJunction { junction_id: JunctionId(j as usize), lane_id: JunctionLaneId(l as usize), pos_param: 0 }),
    )
}

impl SegmentLane {
    pub fn new(direction: Direction) -> (r: Self)
        ensures
            r.direction == direction,
            r.actors@ == Seq::<(PosParam, Actor)>::empty(),
    {
        SegmentLane { direction, actors: OrderedSkipMap::new() }
    }

    /// Puts a new actor with an empty agenda on this lane at `pos_param`.
    pub fn add_actor(&mut self, pos_param: PosParam)
        ensures
            final(self).direction == old(self).direction,
            exists|i: int|
                {
                    &&& 0 <= i <= old(self).actors@.len()
                    &&& final(self).actors@ == old(self).actors@.insert(i, (pos_param, final(self).actors@[i].1))
                    &&& final(self).actors@[i].1@ == (ActorView { max_speed: ACTOR_MAX_SPEED, route: Seq::empty(), agenda: Seq::empty() })
                },
    {
        let actor = Actor::new(Vec::new());
        let ghost a = actor;
        self.actors.insert(pos_param, actor);
        proof {
            let i = choose|i: int|
                {
                    &&& 0 <= i <= old(self).actors@.len()
                    &&& self.actors@ == old(self).actors@.insert(i, (pos_param, a))
                    &&& forall|j: int| 0 <= j < i ==> (#[trigger] old(self).actors@[j]).0 <= pos_param
                    &&& forall|j: int| i <= j < old(self).actors@.len() ==> (#[trigger] old(self).actors@[j]).0 > pos_param
                };
            assert(self.actors@[i] == (pos_param, a));
        }
    }

    /// The same lane with no actors on it.
    pub fn clone_empty(&self) -> (r: Self)
        ensures
            r.direction == self.direction,
            r.actors@ == Seq::<(PosParam, Actor)>::empty(),
    {
        SegmentLane::new(self.direction)
    }
}

impl Segment {
    /// The lanes of the carriageway `d`.
    pub open spec fn lanes_of(self, d: Direction) -> Seq<SegmentLane> {
        match d {
            Direction::Forward => self.forward_lanes@,
            Direction::Backward => self.backward_lanes@,
        }
    }

    pub fn new() -> (r: Self)
        ensures
            r.forward_actors@ == Seq::<(PosParam, Actor)>::empty(),
            r.backward_actors@ == Seq::<(PosParam, Actor)>::empty(),
            r.forward_lanes@ == Seq::<SegmentLane>::empty(),
            r.backward_lanes@ == Seq::<SegmentLane>::empty(),
    {
        Segment {
            forward_actors: OrderedSkipMap::new(),
            backward_actors: OrderedSkipMap::new(),
            forward_lanes: SeqIndexedStore::new(),
            backward_lanes: SeqIndexedStore::new(),
        }
    }

    /// Adds an empty lane in direction `direction` and hands it out.
    pub fn add_lane(&mut self, direction: Direction) -> (r: &mut SegmentLane)
        ensures
            r.direction == direction,
            r.actors@ == Seq::<(PosParam, Actor)>::empty(),
            final(self).lanes_of(direction) == old(self).lanes_of(direction).push(*final(r)),
            final(self).forward_actors == old(self).forward_actors,
            final(self).backward_actors == old(self).backward_actors,
            direction == Direction::Forward ==> final(self).backward_lanes == old(self).backward_lanes,
            direction == Direction::Backward ==> final(self).forward_lanes == old(self).forward_lanes,
    {
        let lanes = match direction {
            Direction::Forward => &mut self.forward_lanes,
            Direction::Backward => &mut self.backward_lanes,
        };
        let id = lanes.push(SegmentLane::new(direction));
        lanes.get_mut(&id).unwrap()
    }

    pub fn get_lanes(&self, direction: Direction) -> (r: &SeqIndexedStore<SegmentLaneRank, SegmentLane>)
        ensures
            r@ == self.lanes_of(direction),
    {
        match direction {
            Direction::Forward => &self.forward_lanes,
            Direction::Backward => &self.backward_lanes,
        }
    }

    pub fn get_lanes_mut(&mut self, direction: Direction) -> (r: &mut SeqIndexedStore<SegmentLaneRank, SegmentLane>)
        ensures
            r@ == old(self).lanes_of(direction),
            final(self).lanes_of(direction) == final(r)@,
            final(self).forward_actors == old(self).forward_actors,
            final(self).backward_actors == old(self).backward_actors,
            direction == Direction::Forward ==> final(self).backward_lanes == old(self).backward_lanes,
            direction == Direction::Backward ==> final(self).forward_lanes == old(self).forward_lanes,
    {
        match direction {
            Direction::Forward => &mut self.forward_lanes,
            Direction::Backward => &mut self.backward_lanes,
        }
    }

    /// The actors parked on side `side`.
    pub open spec fn parked(self, side: Direction) -> Seq<(PosParam, Actor)> {
        match side {
            Direction::Forward => self.forward_actors@,
            Direction::Backward => self.backward_actors@,
        }
    }

    /// Parks `actor` on side `side` at `pos_param`.
    pub fn park(&mut self, pos_param: PosParam, side: Direction, actor: Actor)
        ensures
            exists|i: int|
                0 <= i <= old(self).parked(side).len() && final(self).parked(side) == old(self).parked(side).insert(i, (pos_param, actor)),
            side == Direction::Forward ==> final(self).backward_actors == old(self).backward_actors,
            side == Direction::Backward ==> final(self).forward_actors == old(self).forward_actors,
            final(self).forward_lanes == old(self).forward_lanes,
            final(self).backward_lanes == old(self).backward_lanes,
    {
        let ghost a = actor;
        match side {
            Direction::Forward => self.forward_actors.insert(pos_param, actor),
            Direction::Backward => self.backward_actors.insert(pos_param, actor),
        }
        proof {
            let i = choose|i: int|
                {
                    &&& 0 <= i <= old(self).parked(side).len()
                    &&& self.parked(side) == old(self).parked(side).insert(i, (pos_param, a))
                    &&& forall|j: int| 0 <= j < i ==> (#[trigger] old(self).parked(side)[j]).0 <= pos_param
                    &&& forall|j: int| i <= j < old(self).parked(side).len() ==> (#[trigger] old(self).parked(side)[j]).0 > pos_param
                };
        }
    }

    /// Parks a new actor with agenda `agenda` on side `side` at `pos_param`.
    pub fn add_actor(&mut self, pos_param: PosParam, side: Direction, agenda: Vec<Agendum>)
        ensures
            exists|i: int|
                {
                    &&& 0 <= i <= old(self).parked(side).len()
                    &&& final(self).parked(side) == old(self).parked(side).insert(i, (pos_param, final(self).parked(side)[i].1))
                    &&& final(self).parked(side)[i].1@ == (ActorView { max_speed: ACTOR_MAX_SPEED, route: Seq::empty(), agenda: agenda@ })
                },
            side == Direction::Forward ==> final(self).backward_actors == old(self).backward_actors,
            side == Direction::Backward ==> final(self).forward_actors == old(self).forward_actors,
            final(self).forward_lanes == old(self).forward_lanes,
            final(self).backward_lanes == old(self).backward_lanes,
    {
        let actor = Actor::new(agenda);
        let ghost a = actor;
        self.park(pos_param, side, actor);
        proof {
            let i = choose|i: int|
                0 <= i <= old(self).parked(side).len() && self.parked(side) == old(self).parked(side).insert(i, (pos_param, a));
            assert(self.parked(side)[i] == (pos_param, a));
        }
    }

    /// The same segment with the same lanes and no actors anywhere.
    pub fn clone_empty(&self) -> (r: Self)
        ensures
            r.forward_actors@ == Seq::<(PosParam, Actor)>::empty(),
            r.backward_actors@ == Seq::<(PosParam, Actor)>::empty(),
            r.forward_lanes@.len() == self.forward_lanes@.len(),
            r.backward_lanes@.len() == self.backward_lanes@.len(),
            forall|i: int| 0 <= i < r.forward_lanes@.len() ==> (#[trigger] r.forward_lanes@[i]).actors@ == Seq::<(PosParam, Actor)>::empty(),
            lane_directions_of(r) == lane_directions_of(*self),
            forall|i: int| 0 <= i < r.backward_lanes@.len() ==> (#[trigger] r.backward_lanes@[i]).actors@ == Seq::<(PosParam, Actor)>::empty(),
    {
        let r = Segment {
            forward_actors: OrderedSkipMap::new(),
            backward_actors: OrderedSkipMap::new(),
            forward_lanes: clone_empty_lanes(&self.forward_lanes),
            backward_lanes: clone_empty_lanes(&self.backward_lanes),
        };
        assert(lane_directions_of(r).0 =~= lane_directions_of(*self).0);
        assert(lane_directions_of(r).1 =~= lane_directions_of(*self).1);
        r
    }
}

/// The same lanes, in the same order, with no actors on them.
fn clone_empty_lanes(lanes: &SeqIndexedStore<SegmentLaneRank, SegmentLane>) -> (r: SeqIndexedStore<SegmentLaneRank, SegmentLane>)
    ensures
        r@.len() == lanes@.len(),
        forall|i: int| 0 <= i < r@.len() ==> (#[trigger] r@[i]).actors@ == Seq::<(PosParam, Actor)>::empty(),
        forall|i: int| 0 <= i < r@.len() ==> (#[trigger] r@[i]).direction == lanes@[i].direction,
{
    let mut r: SeqIndexedStore<SegmentLaneRank, SegmentLane> = SeqIndexedStore::new();
    let n = lanes.len();
    let mut i: usize = 0;
    while i < n
        invariant
            n == lanes@.len(),
            i <= n,
            r@.len() == i,
            forall|k: int| 0 <= k < r@.len() ==> (#[trigger] r@[k]).actors@ == Seq::<(PosParam, Actor)>::empty(),
            forall|k: int| 0 <= k < r@.len() ==> (#[trigger] r@[k]).direction == lanes@[k].direction,
        decreases n - i,
    {
        match lanes.get(&SegmentLaneRank(i)) {
            Some(lane) => {
                r.push(lane.clone_empty());
            },
            None => {
                proof { assert(false); }
                return r;
            },
        }
        i = i + 1;
    }
    r
}

impl Network {
    pub closed spec fn topology(&self) -> Topology {
        Topology {
            junction_positions: self.junctions@.map_values(|j: Junction| j.pos),
            junction_segments: self.junction_segments@.map_values(|v: Vec<SegmentId>| v@),
            segment_ends: self.segment_junctions@,
            lane_counts: self.segments@.map_values(|s: Segment| (s.forward_lanes@.len(), s.backward_lanes@.len())),
            lane_directions: self.segments@.map_values(|s: Segment| lane_directions_of(s)),
            junction_lanes: self.junctions@.map_values(|j: Junction| j.lane_ends()),
        }
    }

    /// Every segment has its two junctions recorded, both of which exist, and
    /// each junction lists, once each, exactly the segments that end at it.
    pub closed spec fn wf(&self) -> bool {
        let ends = self.segment_junctions@;
        let js = self.junction_segments@;
        &&& ends.len() == self.segments@.len()
        &&& js.len() == self.junctions@.len()
        &&& forall|s: int| 0 <= s < ends.len() ==> (#[trigger] ends[s]).0.0 < js.len() && ends[s].1.0 < js.len()
        &&& forall|j: int| 0 <= j < js.len() ==> (#[trigger] js[j])@.no_duplicates()
        &&& forall|j: int, k: int|
            0 <= j < js.len() && 0 <= k < js[j]@.len() ==> {
                &&& (#[trigger] js[j]@[k]).0 < ends.len()
                &&& (ends[js[j]@[k].0 as int].0.0 == j || ends[js[j]@[k].0 as int].1.0 == j)
            }
        &&& forall|s: int|
            0 <= s < ends.len() ==> js[(#[trigger] ends[s]).0.0 as int]@.contains(SegmentId(s as usize))
                && js[ends[s].1.0 as int]@.contains(SegmentId(s as usize))
    }

    /// Everyone in the network, in the order a tick visits them: segment by
    /// segment, then junction by junction.
    pub open spec fn placements(&self) -> Seq<Placement> {
        flat_map(self.segment_seq(), |i: int, seg: Segment| segment_placements(i, seg))
            + flat_map(self.junction_seq(), |j: int, junction: Junction| junction_placements(j, junction))
    }

    /// Everyone in the network, as a bag of placements.
    pub open spec fn occupants(&self) -> Multiset<Placement> {
        self.placements().to_multiset()
    }

    pub fn new() -> (r: Self)
        ensures
            r.wf(),
            r.topology().segment_ends.len() == 0,
            r.topology().junction_lanes.len() == 0,
            r.occupants() == Multiset::<Placement>::empty(),
    {
        let r = Network {
            junctions: SeqIndexedStore::new(),
            segments: SeqIndexedStore::new(),
            junction_segments: Vec::new(),
            segment_junctions: Vec::new(),
        };
        proof {
            assert(r.placements() =~= Seq::<Placement>::empty());
            broadcast use vstd::seq_lib::group_to_multiset_ensures;
            assert(r.occupants() =~= Multiset::<Placement>::empty());
        }
        r
    }

    /// The junctions, by id.
    pub closed spec fn junction_seq(&self) -> Seq<Junction> {
        self.junctions@
    }

    /// The segments, by id.
    pub closed spec fn segment_seq(&self) -> Seq<Segment> {
        self.segments@
    }

    pub fn junctions(&self) -> (r: &SeqIndexedStore<JunctionId, Junction>)
        ensures
            r@ == self.junction_seq(),
    {
        &self.junctions
    }

    pub fn segments(&self) -> (r: &SeqIndexedStore<SegmentId, Segment>)
        ensures
            r@ == self.segment_seq(),
    {
        &self.segments
    }

    /// Adds a junction at `pos`, with no segments and no lanes.
    pub fn add_junction(&mut self, pos: Point) -> (r: JunctionId)
        requires
            old(self).wf(),
        ensures
            final(self).wf(),
            r.0 == old(self).topology().junction_lanes.len(),
            final(self).topology() == (Topology {
                junction_positions: old(self).topology().junction_positions.push(pos),
                junction_segments: old(self).topology().junction_segments.push(Seq::empty()),
                junction_lanes: old(self).topology().junction_lanes.push(Seq::empty()),
                ..old(self).topology()
            }),
            final(self).occupants() == old(self).occupants(),
            final(self).junction_seq() == old(self).junction_seq().push(final(self).junction_seq().last()),
            final(self).junction_seq().last().pos == pos,
            final(self).junction_seq().last().lanes@ == Seq::<JunctionLane>::empty(),
            final(self).segment_seq() == old(self).segment_seq(),
    {
        let ghost old_self = *self;
        let id = self.junctions.push(Junction::new(pos));
        self.junction_segments.push(Vec::new());
        proof {
            let js = self.junction_segments@;
            let ends = self.segment_junctions@;
            assert forall|j: int| 0 <= j < js.len() implies (#[trigger] js[j])@.no_duplicates() by {
                if j < old_self.junction_segments@.len() {
                    assert(js[j] == old_self.junction_segments@[j]);
                }
            }
            assert forall|j: int, k: int| 0 <= j < js.len() && 0 <= k < js[j]@.len() implies {
                &&& (#[trigger] js[j]@[k]).0 < ends.len()
                &&& (ends[js[j]@[k].0 as int].0.0 == j || ends[js[j]@[k].0 as int].1.0 == j)
            } by {
                assert(j < old_self.junction_segments@.len());
                assert(js[j] == old_self.junction_segments@[j]);
            }
            assert forall|s: int| 0 <= s < ends.len() implies js[(#[trigger] ends[s]).0.0 as int]@.contains(SegmentId(s as usize))
                && js[ends[s].1.0 as int]@.contains(SegmentId(s as usize)) by {
                assert(js[ends[s].0.0 as int] == old_self.junction_segments@[ends[s].0.0 as int]);
                assert(js[ends[s].1.0 as int] == old_self.junction_segments@[ends[s].1.0 as int]);
            }
            assert(self.topology().junction_segments =~= old_self.topology().junction_segments.push(Seq::empty()));
            assert(self.junctions@.last().lane_ends() =~= Seq::<LaneEnds>::empty());
            assert(self.topology().junction_lanes =~= old_self.topology().junction_lanes.push(Seq::empty()));
            assert(self.topology().junction_positions =~= old_self.topology().junction_positions.push(pos));
            let gj = |j: int, junction: Junction| junction_placements(j, junction);
            assert(self.junctions@.drop_last() == old_self.junctions@);
            assert(junction_placements(old_self.junctions@.len() as int, self.junctions@.last()) =~= Seq::<Placement>::empty());
            assert(flat_map(self.junctions@, gj) =~= flat_map(old_self.junctions@, gj));
            assert(self.placements() =~= old_self.placements());
        }
        id
    }

    /// Adds a segment from junction `begin` to junction `end`, with no lanes,
    /// and hands it out with its id. Both junctions must exist.
    pub fn add_segment(&mut self, begin: JunctionId, end: JunctionId) -> (r: Result<(SegmentId, &mut Segment), RoutieError>)
        requires
            old(self).wf(),
        ensures
            final(self).wf(),
            match r {
                Ok((id, seg)) => {
                    &&& begin.0 < old(self).topology().junction_lanes.len()
                    &&& end.0 < old(self).topology().junction_lanes.len()
                    &&& id.0 == old(self).topology().segment_ends.len()
                    &&& seg.forward_actors@ == Seq::<(PosParam, Actor)>::empty()
                    &&& seg.backward_actors@ == Seq::<(PosParam, Actor)>::empty()
                    &&& seg.forward_lanes@ == Seq::<SegmentLane>::empty()
                    &&& seg.backward_lanes@ == Seq::<SegmentLane>::empty()
                    &&& final(self).segment_seq() == old(self).segment_seq().push(*final(seg))
                    &&& final(self).junction_seq() == old(self).junction_seq()
                    &&& final(self).topology().segment_ends == old(self).topology().segment_ends.push((begin, end))
                    &&& final(self).topology().junction_segments == segments_linked(old(self).topology().junction_segments, begin, end, id)
                },
                Err(e) => {
                    &&& e == RoutieError::InvalidId
                    &&& (begin.0 >= old(self).topology().junction_lanes.len() || end.0 >= old(self).topology().junction_lanes.len())
                    &&& *final(self) == *old(self)
                },
            },
    {
        if begin.0 >= self.junctions.len() || end.0 >= self.junctions.len() {
            return Err(RoutieError::InvalidId);
        }
        let ghost old_self = *self;
        let id = self.segments.push(Segment::new());
        self.segment_junctions.push((begin, end));
        self.junction_segments[begin.0].push(id);
        if end.0 != begin.0 {
            self.junction_segments[end.0].push(id);
        }
        proof {
            let js0 = old_self.junction_segments@;
            let js = self.junction_segments@;
            let ends = self.segment_junctions@;
            let n = old_self.segments@.len();
            assert(ends.len() == n + 1);
            assert forall|j: int| 0 <= j < js0.len() implies !(#[trigger] js0[j])@.contains(id) by {
                if js0[j]@.contains(id) {
                    let k = choose|k: int| 0 <= k < js0[j]@.len() && js0[j]@[k] == id;
                    assert(js0[j]@[k].0 < n);
                }
            }
            assert forall|j: int| 0 <= j < js.len() implies (#[trigger] js[j])@ == (if j == begin.0 || j == end.0 { js0[j]@.push(id) } else { js0[j]@ }) by {
            }
            assert forall|j: int| 0 <= j < js.len() implies (#[trigger] js[j])@.no_duplicates() by {
                assert(js0[j]@.no_duplicates());
                assert(!js0[j]@.contains(id));
            }
            assert forall|j: int, k: int| 0 <= j < js.len() && 0 <= k < js[j]@.len() implies {
                &&& (#[trigger] js[j]@[k]).0 < ends.len()
                &&& (ends[js[j]@[k].0 as int].0.0 == j || ends[js[j]@[k].0 as int].1.0 == j)
            } by {
                if k < js0[j]@.len() {
                    assert(js[j]@[k] == js0[j]@[k]);
                }
            }
            assert forall|t: int| 0 <= t < ends.len() implies js[(#[trigger] ends[t]).0.0 as int]@.contains(SegmentId(t as usize))
                && js[ends[t].1.0 as int]@.contains(SegmentId(t as usize)) by {
                if t < n {
                    let a = ends[t].0.0 as int;
                    let b = ends[t].1.0 as int;
                    let ka = choose|k: int| 0 <= k < js0[a]@.len() && js0[a]@[k] == SegmentId(t as usize);
                    let kb = choose|k: int| 0 <= k < js0[b]@.len() && js0[b]@[k] == SegmentId(t as usize);
                    assert(js[a]@[ka] == SegmentId(t as usize));
                    assert(js[b]@[kb] == SegmentId(t as usize));
                } else {
                    assert(js[begin.0 as int]@.last() == id);
                    assert(js[end.0 as int]@.last() == id);
                }
            }
            assert(self.topology().junction_segments =~= segments_linked(old_self.topology().junction_segments, begin, end, id));
        }
        let seg = self.segments.get_mut(&id).unwrap();
        Ok((id, seg))
    }

    /// The two junctions of segment `segment`: where it begins and where it ends.
    pub fn get_segment_junctions(&self, segment: SegmentId) -> (r: Result<(JunctionId, JunctionId), RoutieError>)
        requires
            self.wf(),
        ensures
            r == (if segment.0 < self.topology().segment_ends.len() {
                Ok::<(JunctionId, JunctionId), RoutieError>(self.topology().segment_ends[segment.0 as int])
            } else {
                Err::<(JunctionId, JunctionId), RoutieError>(RoutieError::InvalidId)
            }),
    {
        if segment.0 < self.segment_junctions.len() {
            Ok(self.segment_junctions[segment.0])
        } else {
            Err(RoutieError::InvalidId)
        }
    }

    /// The segments that end at junction `junction`.
    pub fn get_junction_segments(&self, junction: JunctionId) -> (r: Result<&Vec<SegmentId>, RoutieError>)
        requires
            self.wf(),
        ensures
            match r {
                Ok(v) => junction.0 < self.topology().junction_segments.len() && v@ == self.topology().junction_segments[junction.0 as int],
                Err(e) => junction.0 >= self.topology().junction_segments.len() && e == RoutieError::InvalidId,
            },
    {
        if junction.0 < self.junction_segments.len() {
            Ok(&self.junction_segments[junction.0])
        } else {
            Err(RoutieError::InvalidId)
        }
    }

    /// Segment `id`, to add lanes or park actors on.
    pub fn segment_mut(&mut self, id: SegmentId) -> (r: Option<&mut Segment>)
        requires
            old(self).wf(),
        ensures
            final(self).wf(),
            final(self).junction_seq() == old(self).junction_seq(),
            final(self).topology().segment_ends == old(self).topology().segment_ends,
            final(self).topology().junction_segments == old(self).topology().junction_segments,
            final(self).topology().junction_lanes == old(self).topology().junction_lanes,
            match r {
                Some(seg) => {
                    &&& id.0 < old(self).segment_seq().len()
                    &&& *seg == old(self).segment_seq()[id.0 as int]
                    &&& final(self).segment_seq() == old(self).segment_seq().update(id.0 as int, *final(seg))
                },
                None => id.0 >= old(self).segment_seq().len() && final(self).segment_seq() == old(self).segment_seq(),
            },
    {
        self.segments.get_mut(&id)
    }
}

impl Network {
    /// The number of lanes of segment `segment` in direction `direction`.
    pub fn lane_count(&self, segment: SegmentId, direction: Direction) -> (r: Option<usize>)
        requires
            self.wf(),
        ensures
            match r {
                Some(n) => valid_segment(self.topology(), segment) && n as nat == lane_count(self.topology(), segment, direction),
                None => !valid_segment(self.topology(), segment),
            },
    {
        match self.segments.get(&segment) {
            Some(seg) => Some(seg.get_lanes(direction).len()),
            None => None,
        }
    }

    /// The input and output lanes of lane `lane` of junction `junction`.
    pub fn junction_lane_ends(&self, junction: JunctionId, lane: JunctionLaneId) -> (r: Option<LaneEnds>)
        ensures
            r == (if valid_junction_lane(self.topology(), junction, lane) {
                Some(self.topology().junction_lanes[junction.0 as int][lane.0 as int])
            } else {
                None::<LaneEnds>
            }),
    {
        match self.junctions.get(&junction) {
            Some(j) => j.get_segment_lanes_for_junction_lane(lane),
            None => None,
        }
    }

    /// Puts `actor` at `loc`; fails, changing nothing, where `loc` does not exist.
    pub fn place(&mut self, loc: Location, actor: Actor) -> (r: Result<(), RoutieError>)
        requires
            old(self).wf(),
        ensures
            final(self).wf(),
            final(self).topology() == old(self).topology(),
            valid_location(old(self).topology(), loc) ==> r is Ok && final(self).occupants() == old(self).occupants().insert((loc, actor@)),
            !valid_location(old(self).topology(), loc) ==> r == Err::<(), RoutieError>(RoutieError::InvalidId) && final(self).occupants() == old(self).occupants(),
    {
        broadcast use vstd::multiset::group_multiset_axioms;
        let ghost old_self = *self;
        let ghost a = actor;
        let ghost gs = |i: int, seg: Segment| segment_placements(i, seg);
        let ghost gj = |j: int, junction: Junction| junction_placements(j, junction);
        let ghost e: Placement = (loc, actor@);
        let exists = match loc {
            Location::OffRoad { segment_id, .. } => segment_id.0 < self.segments.len(),
            Location::OnRoadSegment { segment_id, direction, rank, .. } => match self.lane_count(segment_id, direction) {
                Some(n) => rank.0 < n,
                None => false,
            },
            Location::OnRoadJunction { junction_id, lane_id, .. } => self.junction_lane_ends(junction_id, lane_id).is_some(),
        };
        if !exists {
            proof {
                assert(self.topology().lane_counts.len() == self.segments@.len());
                assert(self.topology().segment_ends.len() == self.segments@.len());
                assert(!valid_location(self.topology(), loc));
            }
            return Err(RoutieError::InvalidId);
        }
        match loc {
            Location::OffRoad { segment_id, segment_side, pos_param } => {
                let seg = self.segments.get_mut(&segment_id).unwrap();
                let ghost seg0 = *seg;
                seg.park(pos_param, segment_side, actor);
                proof {
                    let seg1 = *seg;
                    let i = segment_id.0 as int;
                    let k = choose|k: int| 0 <= k <= seg0.parked(segment_side).len() && seg1.parked(segment_side) == seg0.parked(segment_side).insert(k, (pos_param, a));
                    let id = SegmentId(i as usize);
                    let fb = Location::OffRoad { segment_id: id, segment_side: Direction::Backward, pos_param: 0 };
                    let ff = Location::OffRoad { segment_id: id, segment_side: Direction::Forward, pos_param: 0 };
                    let tb0 = tag_entries(seg0.backward_actors@, fb);
                    let tf0 = tag_entries(seg0.forward_actors@, ff);
                    let tb1 = tag_entries(seg1.backward_actors@, fb);
                    let tf1 = tag_entries(seg1.forward_actors@, ff);
                    let lb = lane_placements(id, Direction::Backward, seg0.backward_lanes@);
                    let lf = lane_placements(id, Direction::Forward, seg0.forward_lanes@);
                    match segment_side {
                        Direction::Backward => {
                            lemma_insert_map_to_multiset(seg0.backward_actors@, k, (pos_param, a), |x: (PosParam, Actor)| (at_pos(fb, x.0), x.1@));
                            assert(tf1 == tf0);
                        },
                        Direction::Forward => {
                            lemma_insert_map_to_multiset(seg0.forward_actors@, k, (pos_param, a), |x: (PosParam, Actor)| (at_pos(ff, x.0), x.1@));
                            assert(tb1 == tb0);
                        },
                    }
                    lemma_multiset_commutative(tb0, tf0);
                    lemma_multiset_commutative(tb1, tf1);
                    lemma_multiset_commutative(tb0 + tf0, lb);
                    lemma_multiset_commutative(tb1 + tf1, lb);
                    lemma_multiset_commutative(tb0 + tf0 + lb, lf);
                    lemma_multiset_commutative(tb1 + tf1 + lb, lf);
                    assert(segment_placements(i, seg1).to_multiset() =~= segment_placements(i, seg0).to_multiset().insert(e));
                    lemma_flat_map_update(old_self.segments@, gs, i, seg1, e);
                    assert(self.segments@ == old_self.segments@.update(i, seg1));
                    lemma_placements_update(old_self, *self, e);
                }
                Ok(())
            },
            Location::OnRoadSegment { segment_id, direction, rank, pos_param } => {
                let seg = self.segments.get_mut(&segment_id).unwrap();
                let ghost seg0 = *seg;
                let lanes = seg.get_lanes_mut(direction);
                let lane = lanes.get_mut(&rank).unwrap();
                let ghost lane0 = *lane;
                lane.actors.insert(pos_param, actor);
                proof {
                    let seg1 = *seg;
                    let lane1 = *lane;
                    let i = segment_id.0 as int;
                    let id = SegmentId(i as usize);
                    let r = rank.0 as int;
                    let k = choose|k: int| 0 <= k <= lane0.actors@.len() && lane1.actors@ == lane0.actors@.insert(k, (pos_param, a))
                        && (forall|j: int| 0 <= j < k ==> (#[trigger] lane0.actors@[j]).0 <= pos_param)
                        && (forall|j: int| k <= j < lane0.actors@.len() ==> (#[trigger] lane0.actors@[j]).0 > pos_param);
                    let gl = |rr: int, l: SegmentLane|
                        tag_entries(l.actors@, Location::OnRoadSegment { segment_id: id, direction: direction, rank: SegmentLaneRank(rr as usize), pos_param: 0 });
                    let fl = Location::OnRoadSegment { segment_id: id, direction: direction, rank: SegmentLaneRank(r as usize), pos_param: 0 };
                    lemma_insert_map_to_multiset(lane0.actors@, k, (pos_param, a), |x: (PosParam, Actor)| (at_pos(fl, x.0), x.1@));
                    assert(gl(r, lane1) == tag_entries(lane1.actors@, fl));
                    assert(gl(r, lane0) == tag_entries(lane0.actors@, fl));
                    lemma_flat_map_update(seg0.lanes_of(direction), gl, r, lane1, e);
                    assert(seg1.lanes_of(direction) == seg0.lanes_of(direction).update(r, lane1));
                    let fb = Location::OffRoad { segment_id: id, segment_side: Direction::Backward, pos_param: 0 };
                    let ff = Location::OffRoad { segment_id: id, segment_side: Direction::Forward, pos_param: 0 };
                    let tb = tag_entries(seg0.backward_actors@, fb);
                    let tf = tag_entries(seg0.forward_actors@, ff);
                    let lb0 = lane_placements(id, Direction::Backward, seg0.backward_lanes@);
                    let lf0 = lane_placements(id, Direction::Forward, seg0.forward_lanes@);
                    let lb1 = lane_placements(id, Direction::Backward, seg1.backward_lanes@);
                    let lf1 = lane_placements(id, Direction::Forward, seg1.forward_lanes@);
                    match direction {
                        Direction::Backward => { assert(lf1 == lf0); assert(lb1.to_multiset() == lb0.to_multiset().insert(e)); },
                        Direction::Forward => { assert(lb1 == lb0); assert(lf1.to_multiset() == lf0.to_multiset().insert(e)); },
                    }
                    lemma_multiset_commutative(tb, tf);
                    lemma_multiset_commutative(tb + tf, lb0);
                    lemma_multiset_commutative(tb + tf, lb1);
                    lemma_multiset_commutative(tb + tf + lb0, lf0);
                    lemma_multiset_commutative(tb + tf + lb1, lf1);
                    assert(segment_placements(i, seg1).to_multiset() =~= segment_placements(i, seg0).to_multiset().insert(e));
                    lemma_flat_map_update(old_self.segments@, gs, i, seg1, e);
                    assert(self.segments@ == old_self.segments@.update(i, seg1));
                    assert(lane1.direction == lane0.direction);
                    assert(lane_directions_of(seg1).0 =~= lane_directions_of(seg0).0);
                    assert(lane_directions_of(seg1).1 =~= lane_directions_of(seg0).1);
                    lemma_placements_update(old_self, *self, e);
                }
                Ok(())
            },
            Location::OnRoadJunction { junction_id, lane_id, pos_param } => {
                let junction = self.junctions.get_mut(&junction_id).unwrap();
                let ghost j0 = *junction;
                let lane = junction.lanes.get_mut(&lane_id).unwrap();
                let ghost lane0 = *lane;
                lane.actors.insert(pos_param, actor);
                proof {
                    let j1 = *junction;
                    let lane1 = *lane;
                    let jj = junction_id.0 as int;
                    let ll = lane_id.0 as int;
                    let k = choose|k: int| 0 <= k <= lane0.actors@.len() && lane1.actors@ == lane0.actors@.insert(k, (pos_param, a))
                        && (forall|j: int| 0 <= j < k ==> (#[trigger] lane0.actors@[j]).0 <= pos_param)
                        && (forall|j: int| k <= j < lane0.actors@.len() ==> (#[trigger] lane0.actors@[j]).0 > pos_param);
                    let gl = |l: int, lane: JunctionLane|
                        tag_entries(lane.actors@, Location::OnRoadJunction { junction_id: JunctionId(jj as usize), lane_id: JunctionLaneId(l as usize), pos_param: 0 });
                    let fl = Location::OnRoadJunction { junction_id: JunctionId(jj as usize), lane_id: JunctionLaneId(ll as usize), pos_param: 0 };
                    lemma_insert_map_to_multiset(lane0.actors@, k, (pos_param, a), |x: (PosParam, Actor)| (at_pos(fl, x.0), x.1@));
                    assert(gl(ll, lane1) == tag_entries(lane1.actors@, fl));
                    assert(gl(ll, lane0) == tag_entries(lane0.actors@, fl));
                    lemma_flat_map_update(j0.lanes@, gl, ll, lane1, e);
                    assert(j1.lanes@ == j0.lanes@.update(ll, lane1));
                    assert(junction_placements(jj, j1).to_multiset() == junction_placements(jj, j0).to_multiset().insert(e));
                    lemma_flat_map_update(old_self.junctions@, gj, jj, j1, e);
                    assert(self.junctions@ == old_self.junctions@.update(jj, j1));
                    assert(j1.lane_ends() =~= j0.lane_ends());
                    assert(self.topology().junction_lanes =~= old_self.topology().junction_lanes);
                    assert(self.topology().junction_positions =~= old_self.topology().junction_positions);
                    lemma_multiset_commutative(
                        flat_map(self.segments@, gs),
                        flat_map(self.junctions@, gj),
                    );
                    lemma_multiset_commutative(
                        flat_map(old_self.segments@, gs),
                        flat_map(old_self.junctions@, gj),
                    );
                    assert(self.occupants() =~= old_self.occupants().insert(e));
                }
                Ok(())
            },
        }
    }
}

impl Junction {
    /// The same junction with the same lanes and no actors on them.
    pub fn clone_empty(&self) -> (r: Self)
        ensures
            r.pos == self.pos,
            r.lane_ends() == self.lane_ends(),
            forall|i: int| 0 <= i < r.lanes@.len() ==> (#[trigger] r.lanes@[i]).actors@ == Seq::<(PosParam, Actor)>::empty(),
    {
        let mut lanes: SeqIndexedStore<JunctionLaneId, JunctionLane> = SeqIndexedStore::new();
        let n = self.lanes.len();
        let mut i: usize = 0;
        while i < n
            invariant
                n == self.lanes@.len(),
                i <= n,
                lanes@.len() == i,
                forall|k: int| 0 <= k < i ==> (#[trigger] lanes@[k]).ends() == self.lanes@[k].ends(),
                forall|k: int| 0 <= k < i ==> (#[trigger] lanes@[k]).actors@ == Seq::<(PosParam, Actor)>::empty(),
            decreases n - i,
        {
            let lane = self.lanes.get(&JunctionLaneId(i)).unwrap();
            lanes.push(lane.clone_empty());
            i = i + 1;
        }
        let r = Junction { pos: self.pos, lanes };
        assert(r.lane_ends() =~= self.lane_ends());
        r
    }
}

/// A copy of `v`.
fn copy_vec<T: Copy>(v: &Vec<T>) -> (r: Vec<T>)
    ensures
        r@ == v@,
{
    let mut r: Vec<T> = Vec::new();
    let mut i: usize = 0;
    while i < v.len()
        invariant
            i <= v@.len(),
            r@ == v@.take(i as int),
        decreases v@.len() - i,
    {
        r.push(v[i]);
        proof { assert(v@.take(i + 1) =~= v@.take(i as int).push(v@[i as int])); }
        i = i + 1;
    }
    proof { assert(v@.take(v@.len() as int) =~= v@); }
    r
}

impl Network {
    /// A network of the same shape, with the same ids, and no actors in it.
    pub fn clone_empty(&self) -> (r: Self)
        requires
            self.wf(),
        ensures
            r.wf(),
            r.topology() == self.topology(),
            r.occupants() == Multiset::<Placement>::empty(),
    {
        let mut segments: SeqIndexedStore<SegmentId, Segment> = SeqIndexedStore::new();
        let ns = self.segments.len();
        let mut i: usize = 0;
        while i < ns
            invariant
                ns == self.segments@.len(),
                i <= ns,
                segments@.len() == i,
                forall|k: int| 0 <= k < i ==> (#[trigger] segments@[k]).forward_lanes@.len() == self.segments@[k].forward_lanes@.len()
                    && segments@[k].backward_lanes@.len() == self.segments@[k].backward_lanes@.len(),
                forall|k: int| 0 <= k < i ==> segment_placements(k, #[trigger] segments@[k]).len() == 0,
                forall|k: int| 0 <= k < i ==> lane_directions_of(#[trigger] segments@[k]) == lane_directions_of(self.segments@[k]),
            decreases ns - i,
        {
            let seg = self.segments.get(&SegmentId(i)).unwrap();
            let e = seg.clone_empty();
            proof { lemma_empty_segment_placements(i as int, e); }
            segments.push(e);
            i = i + 1;
        }
        let mut junctions: SeqIndexedStore<JunctionId, Junction> = SeqIndexedStore::new();
        let nj = self.junctions.len();
        let mut j: usize = 0;
        while j < nj
            invariant
                nj == self.junctions@.len(),
                j <= nj,
                junctions@.len() == j,
                forall|k: int| 0 <= k < j ==> (#[trigger] junctions@[k]).lane_ends() == self.junctions@[k].lane_ends(),
                forall|k: int| 0 <= k < j ==> junction_placements(k, #[trigger] junctions@[k]).len() == 0,
                forall|k: int| 0 <= k < j ==> (#[trigger] junctions@[k]).pos == self.junctions@[k].pos,
            decreases nj - j,
        {
            let junction = self.junctions.get(&JunctionId(j)).unwrap();
            let e = junction.clone_empty();
            proof {
                let jj = j as int;
                let gl = |l: int, lane: JunctionLane|
                    tag_entries(lane.actors@, Location::OnRoadJunction { junction_id: JunctionId(jj as usize), lane_id: JunctionLaneId(l as usize), pos_param: 0 });
                lemma_flat_map_empty(e.lanes@, gl);
            }
            junctions.push(e);
            j = j + 1;
        }
        let mut junction_segments: Vec<Vec<SegmentId>> = Vec::new();
        let mut k: usize = 0;
        while k < self.junction_segments.len()
            invariant
                k <= self.junction_segments@.len(),
                junction_segments@.len() == k,
                forall|m: int| 0 <= m < k ==> (#[trigger] junction_segments@[m])@ == self.junction_segments@[m]@,
            decreases self.junction_segments@.len() - k,
        {
            junction_segments.push(copy_vec(&self.junction_segments[k]));
            k = k + 1;
        }
        let r = Network { junctions, segments, junction_segments, segment_junctions: copy_vec(&self.segment_junctions) };
        proof {
            assert(r.topology().junction_segments =~= self.topology().junction_segments);
            assert(r.topology().lane_counts =~= self.topology().lane_counts);
            assert(r.topology().junction_lanes =~= self.topology().junction_lanes);
            assert(r.topology().junction_positions =~= self.topology().junction_positions);
            assert(r.topology().lane_directions =~= self.topology().lane_directions);
            lemma_flat_map_empty(r.segments@, |i: int, seg: Segment| segment_placements(i, seg));
            lemma_flat_map_empty(r.junctions@, |j: int, junction: Junction| junction_placements(j, junction));
            assert(r.placements() =~= Seq::<Placement>::empty());
            broadcast use vstd::seq_lib::group_to_multiset_ensures;
            assert(r.occupants() =~= Multiset::<Placement>::empty());
        }
        r
    }
}

/// A segment whose maps are all empty holds nobody.
proof fn lemma_empty_segment_placements(i: int, seg: Segment)
    requires
        seg.forward_actors@ == Seq::<(PosParam, Actor)>::empty(),
        seg.backward_actors@ == Seq::<(PosParam, Actor)>::empty(),
        forall|k: int| 0 <= k < seg.forward_lanes@.len() ==> (#[trigger] seg.forward_lanes@[k]).actors@ == Seq::<(PosParam, Actor)>::empty(),
        forall|k: int| 0 <= k < seg.backward_lanes@.len() ==> (#[trigger] seg.backward_lanes@[k]).actors@ == Seq::<(PosParam, Actor)>::empty(),
    ensures
        segment_placements(i, seg).len() == 0,
{
    let id = SegmentId(i as usize);
    let gb = |r: int, lane: SegmentLane|
        tag_entries(lane.actors@, Location::OnRoadSegment { segment_id: id, direction: Direction::Backward, rank: SegmentLaneRank(r as usize), pos_param: 0 });
    let gf = |r: int, lane: SegmentLane|
        tag_entries(lane.actors@, Location::OnRoadSegment { segment_id: id, direction: Direction::Forward, rank: SegmentLaneRank(r as usize), pos_param: 0 });
    lemma_flat_map_empty(seg.backward_lanes@, gb);
    lemma_flat_map_empty(seg.forward_lanes@, gf);
}

/// The placements that a list of located actors stands for.
pub open spec fn placed_view(v: Seq<(Location, &Actor)>) -> Seq<Placement> {
    v.map_values(|x: (Location, &Actor)| (x.0, x.1@))
}

/// Appends the entries of a map, placed where `template` says.
fn push_tagged<'a>(r: &mut Vec<(Location, &'a Actor)>, map: &'a OrderedSkipMap<Actor>, template: Location)
    ensures
        placed_view(final(r)@) == placed_view(old(r)@) + tag_entries(map@, template),
{
    let entries = map.enumerate();
    let ghost r0 = r@;
    let mut k: usize = 0;
    while k < entries.len()
        invariant
            k <= entries@.len(),
            entries@.len() == map@.len(),
            forall|m: int| 0 <= m < entries@.len() ==> *(#[trigger] entries@[m]) == map@[m],
            placed_view(r@) == placed_view(r0) + tag_entries(map@.take(k as int), template),
        decreases entries@.len() - k,
    {
        let entry: &'a (PosParam, Actor) = entries[k];
        let ghost rp = r@;
        r.push((with_pos(template, entry.0), &entry.1));
        proof {
            assert(map@.take(k + 1) =~= map@.take(k as int).push(map@[k as int]));
            assert(placed_view(r@) =~= placed_view(rp).push((at_pos(template, entry.0), entry.1@)));
            assert(tag_entries(map@.take(k + 1), template) =~= tag_entries(map@.take(k as int), template).push((at_pos(template, entry.0), entry.1@)));
            assert(placed_view(r@) =~= placed_view(r0) + tag_entries(map@.take(k + 1), template));
        }
        k = k + 1;
    }
    proof { assert(map@.take(map@.len() as int) =~= map@); }
}

/// Appends the actors on the lanes `lanes` of segment `id` in direction `d`.
fn push_lanes<'a>(r: &mut Vec<(Location, &'a Actor)>, lanes: &'a SeqIndexedStore<SegmentLaneRank, SegmentLane>, id: SegmentId, d: Direction)
    ensures
        placed_view(final(r)@) == placed_view(old(r)@) + lane_placements(id, d, lanes@),
{
    let ghost r0 = r@;
    let ghost g = |rr: int, lane: SegmentLane|
        tag_entries(lane.actors@, Location::OnRoadSegment { segment_id: id, direction: d, rank: SegmentLaneRank(rr as usize), pos_param: 0 });
    let n = lanes.len();
    let mut k: usize = 0;
    while k < n
        invariant
            n == lanes@.len(),
            k <= n,
            placed_view(r@) == placed_view(r0) + flat_map(lanes@.take(k as int), g),
            g == (|rr: int, lane: SegmentLane|
                tag_entries(lane.actors@, Location::OnRoadSegment { segment_id: id, direction: d, rank: SegmentLaneRank(rr as usize), pos_param: 0 })),
        decreases n - k,
    {
        let lane = lanes.get(&SegmentLaneRank(k)).unwrap();
        let ghost rp = r@;
        push_tagged(r, &lane.actors, Location::OnRoadSegment { segment_id: id, direction: d, rank: SegmentLaneRank(k), pos_param: 0 });
        proof {
            lemma_flat_map_take(lanes@, g, k as int);
            assert(g(k as int, lanes@[k as int]) == tag_entries(lane.actors@, Location::OnRoadSegment { segment_id: id, direction: d, rank: SegmentLaneRank(k), pos_param: 0 }));
            assert(placed_view(r@) =~= placed_view(r0) + flat_map(lanes@.take(k + 1), g));
        }
        k = k + 1;
    }
    proof { assert(lanes@.take(n as int) =~= lanes@); }
}

impl Network {
    /// Everyone in the network with where they are, in the order a tick visits
    /// them.
    pub fn placed_actors(&self) -> (r: Vec<(Location, &Actor)>)
        ensures
            placed_view(r@) == self.placements(),
    {
        let mut r: Vec<(Location, &Actor)> = Vec::new();
        let ghost gs = |i: int, seg: Segment| segment_placements(i, seg);
        let ghost gj = |j: int, junction: Junction| junction_placements(j, junction);
        let ns = self.segments.len();
        let mut i: usize = 0;
        while i < ns
            invariant
                ns == self.segments@.len(),
                i <= ns,
                placed_view(r@) == flat_map(self.segments@.take(i as int), gs),
                gs == (|i: int, seg: Segment| segment_placements(i, seg)),
            decreases ns - i,
        {
            let seg = self.segments.get(&SegmentId(i)).unwrap();
            let id = SegmentId(i);
            push_tagged(&mut r, &seg.backward_actors, Location::OffRoad { segment_id: id, segment_side: Direction::Backward, pos_param: 0 });
            push_tagged(&mut r, &seg.forward_actors, Location::OffRoad { segment_id: id, segment_side: Direction::Forward, pos_param: 0 });
            push_lanes(&mut r, &seg.backward_lanes, id, Direction::Backward);
            push_lanes(&mut r, &seg.forward_lanes, id, Direction::Forward);
            proof {
                lemma_flat_map_take(self.segments@, gs, i as int);
                assert(gs(i as int, self.segments@[i as int]) == segment_placements(i as int, *seg));
                assert(placed_view(r@) =~= flat_map(self.segments@.take(i + 1), gs));
            }
            i = i + 1;
        }
        proof { assert(self.segments@.take(ns as int) =~= self.segments@); }
        let ghost base = placed_view(r@);
        let nj = self.junctions.len();
        let mut j: usize = 0;
        while j < nj
            invariant
                nj == self.junctions@.len(),
                j <= nj,
                base == flat_map(self.segments@, gs),
                placed_view(r@) == base + flat_map(self.junctions@.take(j as int), gj),
                gs == (|i: int, seg: Segment| segment_placements(i, seg)),
                gj == (|j: int, junction: Junction| junction_placements(j, junction)),
            decreases nj - j,
        {
            let ghost r0 = r@;
            let junction = self.junctions.get(&JunctionId(j)).unwrap();
            let ghost jj = j as int;
            let ghost gl = |l: int, lane: JunctionLane|
                tag_entries(lane.actors@, Location::OnRoadJunction { junction_id: JunctionId(jj as usize), lane_id: JunctionLaneId(l as usize), pos_param: 0 });
            let nl = junction.lanes.len();
            let mut l: usize = 0;
            while l < nl
                invariant
                    nl == junction.lanes@.len(),
                    l <= nl,
                    jj == j,
                    placed_view(r@) == placed_view(r0) + flat_map(junction.lanes@.take(l as int), gl),
                    gl == (|l: int, lane: JunctionLane|
                        tag_entries(lane.actors@, Location::OnRoadJunction { junction_id: JunctionId(jj as usize), lane_id: JunctionLaneId(l as usize), pos_param: 0 })),
                decreases nl - l,
            {
                let lane = junction.lanes.get(&JunctionLaneId(l)).unwrap();
                push_tagged(&mut r, &lane.actors, Location::OnRoadJunction { junction_id: JunctionId(j), lane_id: JunctionLaneId(l), pos_param: 0 });
                proof {
                    lemma_flat_map_take(junction.lanes@, gl, l as int);
                    assert(gl(l as int, junction.lanes@[l as int]) == tag_entries(lane.actors@, Location::OnRoadJunction { junction_id: JunctionId(j), lane_id: JunctionLaneId(l), pos_param: 0 }));
                    assert(placed_view(r@) =~= placed_view(r0) + flat_map(junction.lanes@.take(l + 1), gl));
                }
                l = l + 1;
            }
            proof {
                assert(junction.lanes@.take(nl as int) =~= junction.lanes@);
                lemma_flat_map_take(self.junctions@, gj, j as int);
                assert(gj(j as int, self.junctions@[j as int]) == junction_placements(j as int, *junction));
                assert(junction_placements(j as int, *junction) == flat_map(junction.lanes@, gl));
                assert(placed_view(r@) =~= base + flat_map(self.junctions@.take(j + 1), gj));
            }
            j = j + 1;
        }
        proof { assert(self.junctions@.take(nj as int) =~= self.junctions@); }
        r
    }
}

/// The carriageway of a segment with junctions `ends` that flows into `j`.
pub open spec fn incoming_direction(ends: (JunctionId, JunctionId), j: JunctionId) -> Direction {
    if j == ends.0 { Direction::Backward } else { Direction::Forward }
}

/// The carriageway of a segment with junctions `ends` that flows out of `j`.
pub open spec fn outgoing_direction(ends: (JunctionId, JunctionId), j: JunctionId) -> Direction {
    if j == ends.0 { Direction::Forward } else { Direction::Backward }
}

pub open spec fn min_nat(a: nat, b: nat) -> nat {
    if a <= b { a } else { b }
}

/// The junction lanes at `j` from segment `sin` into segment `sout`: lane `r`
/// of the incoming carriageway to lane `r` of the outgoing one, for every rank
/// both have; none from a segment into itself.
pub open spec fn pair_lanes(topo: Topology, j: JunctionId, sin: SegmentId, sout: SegmentId) -> Seq<LaneEnds> {
    if sin == sout {
        Seq::empty()
    } else {
        let din = incoming_direction(topo.segment_ends[sin.0 as int], j);
        let dout = outgoing_direction(topo.segment_ends[sout.0 as int], j);
        Seq::new(
            min_nat(lane_count(topo, sin, din), lane_count(topo, sout, dout)),
            |r: int| ((sin, din, SegmentLaneRank(r as usize)), (sout, dout, SegmentLaneRank(r as usize))),
        )
    }
}

/// The junction lanes from `sin` into each segment of `segs`, in order.
pub open spec fn lanes_from(topo: Topology, j: JunctionId, sin: SegmentId, segs: Seq<SegmentId>) -> Seq<LaneEnds> {
    flat_map(segs, |b: int, sout: SegmentId| pair_lanes(topo, j, sin, sout))
}

/// The junction lanes that wiring junction `j` creates: for every ordered pair
/// of distinct segments that meet there, in the order the junction lists them.
pub open spec fn junction_wiring(topo: Topology, j: JunctionId) -> Seq<LaneEnds> {
    let segs = topo.junction_segments[j.0 as int];
    flat_map(segs, |a: int, sin: SegmentId| lanes_from(topo, j, sin, segs))
}

/// `topo` with `extra` appended to the lanes of junction `j`.
pub open spec fn with_more_lanes(topo: Topology, j: JunctionId, extra: Seq<LaneEnds>) -> Topology {
    Topology { junction_lanes: topo.junction_lanes.update(j.0 as int, topo.junction_lanes[j.0 as int] + extra), ..topo }
}

proof fn lemma_more_lanes_empty(topo: Topology, j: JunctionId)
    requires
        j.0 < topo.junction_lanes.len(),
    ensures
        with_more_lanes(topo, j, Seq::empty()) == topo,
{
    assert(topo.junction_lanes[j.0 as int] + Seq::<LaneEnds>::empty() =~= topo.junction_lanes[j.0 as int]);
    assert(with_more_lanes(topo, j, Seq::empty()).junction_lanes =~= topo.junction_lanes);
}

proof fn lemma_more_lanes_append(topo: Topology, j: JunctionId, e1: Seq<LaneEnds>, e2: Seq<LaneEnds>)
    requires
        j.0 < topo.junction_lanes.len(),
    ensures
        with_more_lanes(with_more_lanes(topo, j, e1), j, e2) == with_more_lanes(topo, j, e1 + e2),
{
    assert(topo.junction_lanes[j.0 as int] + e1 + e2 =~= topo.junction_lanes[j.0 as int] + (e1 + e2));
    assert(with_more_lanes(with_more_lanes(topo, j, e1), j, e2).junction_lanes =~= with_more_lanes(topo, j, e1 + e2).junction_lanes);
}

impl Network {
    /// Adds an empty lane from `begin` to `end` to junction `j`.
    fn add_junction_lane(&mut self, j: JunctionId, begin: QualifiedSegmentLaneRank, end: QualifiedSegmentLaneRank)
        requires
            old(self).wf(),
            j.0 < old(self).junctions@.len(),
        ensures
            final(self).wf(),
            final(self).topology() == with_more_lanes(old(self).topology(), j, seq![(begin, end)]),
            final(self).placements() == old(self).placements(),
            final(self).segment_seq() == old(self).segment_seq(),
    {
        let ghost old_self = *self;
        let junction = self.junctions.get_mut(&j).unwrap();
        let ghost j0 = *junction;
        junction.add_lane(begin, end);
        proof {
            let j1 = *junction;
            let jj = j.0 as int;
            assert(j1.lane_ends() =~= j0.lane_ends() + seq![(begin, end)]);
            assert(self.topology().junction_lanes =~= with_more_lanes(old_self.topology(), j, seq![(begin, end)]).junction_lanes);
            assert(self.topology().junction_positions =~= old_self.topology().junction_positions);
            let gl = |l: int, lane: JunctionLane|
                tag_entries(lane.actors@, Location::OnRoadJunction { junction_id: JunctionId(jj as usize), lane_id: JunctionLaneId(l as usize), pos_param: 0 });
            assert(j1.lanes@.drop_last() == j0.lanes@);
            assert(gl(j0.lanes@.len() as int, j1.lanes@.last()) =~= Seq::<Placement>::empty());
            assert(flat_map(j1.lanes@, gl) =~= flat_map(j0.lanes@, gl));
            let gj = |jx: int, junction: Junction| junction_placements(jx, junction);
            assert forall|i: int| 0 <= i < self.junctions@.len() implies gj(i, #[trigger] self.junctions@[i]) == gj(i, old_self.junctions@[i]) by {
                if i == jj {
                    assert(junction_placements(jj, j1) == flat_map(j1.lanes@, gl));
                    assert(junction_placements(jj, j0) == flat_map(j0.lanes@, gl));
                }
            }
            lemma_flat_map_congruent(self.junctions@, gj, old_self.junctions@, gj);
            assert(self.placements() == old_self.placements());
        }
    }

    /// Wires junction `j` from segment `sin` into segment `sout`.
    fn connect_pair(&mut self, j: JunctionId, sin: SegmentId, sout: SegmentId)
        requires
            old(self).wf(),
            j.0 < old(self).junctions@.len(),
            sin.0 < old(self).segments@.len(),
            sout.0 < old(self).segments@.len(),
        ensures
            final(self).wf(),
            final(self).topology() == with_more_lanes(old(self).topology(), j, pair_lanes(old(self).topology(), j, sin, sout)),
            final(self).placements() == old(self).placements(),
            final(self).segment_seq() == old(self).segment_seq(),
    {
        let ghost topo = self.topology();
        proof { lemma_topology_shape(self); }
        if sin.0 == sout.0 {
            proof {
                assert(pair_lanes(topo, j, sin, sout) =~= Seq::<LaneEnds>::empty());
                assert(topo.junction_lanes[j.0 as int] + Seq::<LaneEnds>::empty() =~= topo.junction_lanes[j.0 as int]);
                assert(with_more_lanes(topo, j, Seq::empty()).junction_lanes =~= topo.junction_lanes);
            }
            return;
        }
        let ends_in = self.segment_junctions[sin.0];
        let ends_out = self.segment_junctions[sout.0];
        let din = if j.0 == ends_in.0.0 { Direction::Backward } else { Direction::Forward };
        let dout = if j.0 == ends_out.0.0 { Direction::Forward } else { Direction::Backward };
        let n_in = self.segments.get(&sin).unwrap().get_lanes(din).len();
        let n_out = self.segments.get(&sout).unwrap().get_lanes(dout).len();
        let n = if n_in <= n_out { n_in } else { n_out };
        let ghost extra = pair_lanes(topo, j, sin, sout);
        proof {
            assert(extra.len() == n);
            lemma_more_lanes_empty(topo, j);
            assert(extra.take(0) =~= Seq::<LaneEnds>::empty());
        }
        let mut r: usize = 0;
        while r < n
            invariant
                r <= n,
                n == extra.len(),
                j.0 < self.junctions@.len(),
                j.0 < topo.junction_lanes.len(),
                self.wf(),
                self.topology() == with_more_lanes(topo, j, extra.take(r as int)),
                self.placements() == old(self).placements(),
                self.segment_seq() == old(self).segment_seq(),
                forall|k: int| 0 <= k < n ==> #[trigger] extra[k] == ((sin, din, SegmentLaneRank(k as usize)), (sout, dout, SegmentLaneRank(k as usize))),
            decreases n - r,
        {
            self.add_junction_lane(j, (sin, din, SegmentLaneRank(r)), (sout, dout, SegmentLaneRank(r)));
            proof {
                assert(extra.take(r + 1) =~= extra.take(r as int) + seq![extra[r as int]]);
                lemma_more_lanes_append(topo, j, extra.take(r as int), seq![extra[r as int]]);
                lemma_topology_shape(self);
            }
            r = r + 1;
        }
        proof { assert(extra.take(n as int) =~= extra); }
    }
}

/// Wiring a junction joins every incoming segment to every other outgoing
/// segment there by exactly as many lanes as the two carriageways share ranks,
/// lane `r` into lane `r`.
pub proof fn lemma_topology_completeness(topo: Topology, j: JunctionId, s1: SegmentId, s2: SegmentId)
    requires
        j.0 < topo.junction_segments.len(),
        topo.junction_segments[j.0 as int].no_duplicates(),
        topo.junction_segments[j.0 as int].contains(s1),
        topo.junction_segments[j.0 as int].contains(s2),
        s1 != s2,
    ensures
        junction_wiring(topo, j).filter(|e: LaneEnds| e.0.0 == s1 && e.1.0 == s2) == pair_lanes(topo, j, s1, s2),
        pair_lanes(topo, j, s1, s2).len() == min_nat(
            lane_count(topo, s1, incoming_direction(topo.segment_ends[s1.0 as int], j)),
            lane_count(topo, s2, outgoing_direction(topo.segment_ends[s2.0 as int], j)),
        ),
        forall|r: int|
            0 <= r < pair_lanes(topo, j, s1, s2).len() ==> #[trigger] pair_lanes(topo, j, s1, s2)[r] == (
                (s1, incoming_direction(topo.segment_ends[s1.0 as int], j), SegmentLaneRank(r as usize)),
                (s2, outgoing_direction(topo.segment_ends[s2.0 as int], j), SegmentLaneRank(r as usize)),
            ),
{
    lemma_wiring_filter(topo, j, s1, s2);
    lemma_lanes_from_filter_own(topo, j, topo.junction_segments[j.0 as int], s1, s2);
    lemma_filter_all(pair_lanes(topo, j, s1, s2), |e: LaneEnds| e.0.0 == s1 && e.1.0 == s2);
}

/// Of a junction's wiring, the lanes from `s1` into `s2` all come from `s1`'s turn.
proof fn lemma_wiring_filter(topo: Topology, j: JunctionId, s1: SegmentId, s2: SegmentId)
    requires
        j.0 < topo.junction_segments.len(),
        topo.junction_segments[j.0 as int].no_duplicates(),
        topo.junction_segments[j.0 as int].contains(s1),
    ensures
        junction_wiring(topo, j).filter(|e: LaneEnds| e.0.0 == s1 && e.1.0 == s2) == lanes_from(
            topo,
            j,
            s1,
            topo.junction_segments[j.0 as int],
        ).filter(|e: LaneEnds| e.0.0 == s1 && e.1.0 == s2),
{
    let segs = topo.junction_segments[j.0 as int];
    let p = |e: LaneEnds| e.0.0 == s1 && e.1.0 == s2;
    let outer = |a: int, sin: SegmentId| lanes_from(topo, j, sin, segs);
    let a1 = choose|a: int| 0 <= a < segs.len() && segs[a] == s1;
    lemma_flat_map_filter(segs, outer, p);
    let outer_f = |a: int, sin: SegmentId| outer(a, sin).filter(p);
    assert forall|a: int| 0 <= a < segs.len() && a != a1 && segs[a] != s1 implies outer_f(a, #[trigger] segs[a]).len() == 0 by {
        lemma_lanes_from_filter_other(topo, j, segs[a], segs, s1, s2);
    }
    lemma_flat_map_single_except(segs, outer_f, a1, s1);
}

/// Lanes that leave from one segment never begin at another.
proof fn lemma_pair_filter_empty(topo: Topology, j: JunctionId, sin: SegmentId, sout: SegmentId, s1: SegmentId, s2: SegmentId)
    requires
        sin != s1 || sout != s2,
    ensures
        pair_lanes(topo, j, sin, sout).filter(|e: LaneEnds| e.0.0 == s1 && e.1.0 == s2).len() == 0,
{
    let p = |e: LaneEnds| e.0.0 == s1 && e.1.0 == s2;
    let q = pair_lanes(topo, j, sin, sout);
    if q.filter(p).len() > 0 {
        q.lemma_filter_pred(p, 0);
        q.lemma_filter_contains_rev(p, q.filter(p)[0]);
    }
}

proof fn lemma_lanes_from_filter_other(topo: Topology, j: JunctionId, sin: SegmentId, segs: Seq<SegmentId>, s1: SegmentId, s2: SegmentId)
    requires
        sin != s1,
    ensures
        lanes_from(topo, j, sin, segs).filter(|e: LaneEnds| e.0.0 == s1 && e.1.0 == s2).len() == 0,
{
    let p = |e: LaneEnds| e.0.0 == s1 && e.1.0 == s2;
    let inner = |b: int, sout: SegmentId| pair_lanes(topo, j, sin, sout);
    lemma_flat_map_filter(segs, inner, p);
    let inner_f = |b: int, sout: SegmentId| inner(b, sout).filter(p);
    assert forall|b: int| 0 <= b < segs.len() implies inner_f(b, #[trigger] segs[b]).len() == 0 by {
        lemma_pair_filter_empty(topo, j, sin, segs[b], s1, s2);
    }
    lemma_flat_map_empty(segs, inner_f);
}

proof fn lemma_lanes_from_filter_own(topo: Topology, j: JunctionId, segs: Seq<SegmentId>, s1: SegmentId, s2: SegmentId)
    requires
        segs.no_duplicates(),
        segs.contains(s2),
    ensures
        lanes_from(topo, j, s1, segs).filter(|e: LaneEnds| e.0.0 == s1 && e.1.0 == s2) == pair_lanes(topo, j, s1, s2).filter(
            |e: LaneEnds| e.0.0 == s1 && e.1.0 == s2,
        ),
{
    let p = |e: LaneEnds| e.0.0 == s1 && e.1.0 == s2;
    let b1 = choose|b: int| 0 <= b < segs.len() && segs[b] == s2;
    let inner1 = |b: int, sout: SegmentId| pair_lanes(topo, j, s1, sout);
    lemma_flat_map_filter(segs, inner1, p);
    let inner1_f = |b: int, sout: SegmentId| inner1(b, sout).filter(p);
    assert forall|b: int| 0 <= b < segs.len() && b != b1 implies inner1_f(b, #[trigger] segs[b]).len() == 0 by {
        lemma_pair_filter_empty(topo, j, s1, segs[b], s1, s2);
    }
    lemma_flat_map_single(segs, inner1_f, b1);
}

/// Filtering by a predicate that every element meets changes nothing.
proof fn lemma_filter_all<A>(s: Seq<A>, p: spec_fn(A) -> bool)
    requires
        forall|i: int| 0 <= i < s.len() ==> p(#[trigger] s[i]),
    ensures
        s.filter(p) == s,
    decreases s.len(),
{
    reveal(Seq::filter);
    if s.len() > 0 {
        lemma_filter_all(s.drop_last(), p);
        assert(s.drop_last().push(s.last()) =~= s);
    }
}

/// `topo` after wiring the junctions before `upto`.
pub open spec fn wired_upto(topo: Topology, upto: int) -> Topology {
    Topology {
        junction_lanes: Seq::new(
            topo.junction_lanes.len(),
            |x: int| if x < upto { topo.junction_lanes[x] + junction_wiring(topo, JunctionId(x as usize)) } else { topo.junction_lanes[x] },
        ),
        ..topo
    }
}

impl Network {
    /// Materialises the junction lanes: at every junction, for every ordered
    /// pair of distinct segments that meet there, one lane from each rank of the
    /// incoming carriageway to the same rank of the outgoing one, as far as both
    /// have lanes. Run once, after all segments and lanes are declared.
    #[verifier::rlimit(50)]
    pub fn connect_junctions(&mut self)
        requires
            old(self).wf(),
        ensures
            final(self).wf(),
            final(self).topology() == wired_upto(old(self).topology(), old(self).topology().junction_lanes.len() as int),
            final(self).occupants() == old(self).occupants(),
            final(self).segment_seq() == old(self).segment_seq(),
    {
        let ghost topo = self.topology();
        proof {
            lemma_topology_shape(self);
            assert(wired_upto(topo, 0).junction_lanes =~= topo.junction_lanes);
        }
        let nj = self.junctions.len();
        let mut j: usize = 0;
        while j < nj
            invariant
                j <= nj,
                nj == topo.junction_lanes.len(),
                self.wf(),
                self.topology() == wired_upto(topo, j as int),
                self.placements() == old(self).placements(),
                self.segment_seq() == old(self).segment_seq(),
                topo == old(self).topology(),
            decreases nj - j,
        {
            proof { lemma_topology_shape(self); }
            let jid = JunctionId(j);
            let segs = copy_vec(&self.junction_segments[j]);
            let ghost base = wired_upto(topo, j as int);
            let ghost outer = |a: int, sin: SegmentId| lanes_from(topo, jid, sin, segs@);
            proof {
                assert(segs@ == topo.junction_segments[j as int]);
                lemma_more_lanes_empty(base, jid);
                assert(segs@.take(0) =~= Seq::<SegmentId>::empty());
            }
            let mut a: usize = 0;
            while a < segs.len()
                invariant
                    a <= segs@.len(),
                    j < nj,
                    nj == topo.junction_lanes.len(),
                    segs@ == topo.junction_segments[j as int],
                    forall|k: int| 0 <= k < segs@.len() ==> (#[trigger] segs@[k]).0 < topo.segment_ends.len(),
                    self.wf(),
                    base == wired_upto(topo, j as int),
                    outer == (|a: int, sin: SegmentId| lanes_from(topo, jid, sin, segs@)),
                    jid == JunctionId(j),
                    self.topology() == with_more_lanes(base, jid, flat_map(segs@.take(a as int), outer)),
                    self.placements() == old(self).placements(),
                    self.segment_seq() == old(self).segment_seq(),
                decreases segs@.len() - a,
            {
                let sin = segs[a];
                let ghost inner = |b: int, sout: SegmentId| pair_lanes(topo, jid, sin, sout);
                let ghost done = flat_map(segs@.take(a as int), outer);
                proof {
                    assert(segs@.take(0) =~= Seq::<SegmentId>::empty());
                    assert(done + flat_map(segs@.take(0), inner) =~= done);
                }
                let mut b: usize = 0;
                while b < segs.len()
                    invariant
                        b <= segs@.len(),
                        a < segs@.len(),
                        sin == segs@[a as int],
                        j < nj,
                        nj == topo.junction_lanes.len(),
                        segs@ == topo.junction_segments[j as int],
                        forall|k: int| 0 <= k < segs@.len() ==> (#[trigger] segs@[k]).0 < topo.segment_ends.len(),
                        self.wf(),
                        base == wired_upto(topo, j as int),
                        jid == JunctionId(j),
                        inner == (|b: int, sout: SegmentId| pair_lanes(topo, jid, sin, sout)),
                        done == flat_map(segs@.take(a as int), outer),
                        self.topology() == with_more_lanes(base, jid, done + flat_map(segs@.take(b as int), inner)),
                        self.placements() == old(self).placements(),
                        self.segment_seq() == old(self).segment_seq(),
                    decreases segs@.len() - b,
                {
                    let sout = segs[b];
                    proof { lemma_topology_shape(self); }
                    let ghost before = self.topology();
                    self.connect_pair(jid, sin, sout);
                    proof {
                        assert(pair_lanes(before, jid, sin, sout) == pair_lanes(topo, jid, sin, sout));
                        lemma_flat_map_take(segs@, inner, b as int);
                        lemma_more_lanes_append(base, jid, done + flat_map(segs@.take(b as int), inner), pair_lanes(topo, jid, sin, sout));
                        assert(done + flat_map(segs@.take(b as int), inner) + pair_lanes(topo, jid, sin, sout) =~= done + flat_map(segs@.take(b + 1), inner));
                    }
                    b = b + 1;
                }
                proof {
                    assert(segs@.take(segs@.len() as int) =~= segs@);
                    lemma_flat_map_take(segs@, outer, a as int);
                    assert(flat_map(segs@, inner) == lanes_from(topo, jid, sin, segs@));
                    assert(done + flat_map(segs@, inner) =~= flat_map(segs@.take(a + 1), outer));
                }
                a = a + 1;
            }
            proof {
                assert(segs@.take(segs@.len() as int) =~= segs@);
                assert(flat_map(segs@, outer) == junction_wiring(topo, jid));
                assert(with_more_lanes(base, jid, junction_wiring(topo, jid)).junction_lanes =~= wired_upto(topo, j + 1).junction_lanes);
            }
            j = j + 1;
        }
    }
}

/// How the shape of a network reads off its junctions and segments.
pub proof fn lemma_topology_shape(n: &Network)
    requires
        n.wf(),
    ensures
        n.topology().segment_ends.len() == n.segment_seq().len(),
        n.topology().lane_counts.len() == n.segment_seq().len(),
        n.topology().junction_lanes.len() == n.junction_seq().len(),
        n.topology().junction_segments.len() == n.junction_seq().len(),
        forall|j: int| 0 <= j < n.junction_seq().len() ==> n.topology().junction_lanes[j] == (#[trigger] n.junction_seq()[j]).lane_ends(),
        forall|s: int| 0 <= s < n.segment_seq().len() ==> n.topology().lane_counts[s] == ((#[trigger] n.segment_seq()[s]).forward_lanes@.len(), n.segment_seq()[s].backward_lanes@.len()),
        forall|s: int| 0 <= s < n.segment_seq().len() ==> n.topology().lane_directions[s] == lane_directions_of(#[trigger] n.segment_seq()[s]),
        forall|j: int| 0 <= j < n.junction_seq().len() ==> n.topology().junction_positions[j] == (#[trigger] n.junction_seq()[j]).pos,
        forall|j: int| 0 <= j < n.topology().junction_segments.len() ==> (#[trigger] n.topology().junction_segments[j]).no_duplicates(),
        forall|j: int, k: int|
            0 <= j < n.topology().junction_segments.len() && 0 <= k < n.topology().junction_segments[j].len() ==> {
                let s = #[trigger] n.topology().junction_segments[j][k];
                &&& s.0 < n.topology().segment_ends.len()
                &&& (n.topology().segment_ends[s.0 as int].0.0 == j || n.topology().segment_ends[s.0 as int].1.0 == j)
            },
{
}

/// After an insertion into one segment, the whole network holds one more.
proof fn lemma_placements_update(n0: Network, n1: Network, e: Placement)
    requires
        n1.junctions == n0.junctions,
        n1.junction_segments == n0.junction_segments,
        n1.segment_junctions == n0.segment_junctions,
        n1.segments@.len() == n0.segments@.len(),
        forall|i: int| 0 <= i < n0.segments@.len() ==> (#[trigger] n1.segments@[i]).forward_lanes@.len() == n0.segments@[i].forward_lanes@.len()
            && n1.segments@[i].backward_lanes@.len() == n0.segments@[i].backward_lanes@.len(),
        forall|i: int| 0 <= i < n0.segments@.len() ==> lane_directions_of(#[trigger] n1.segments@[i]) == lane_directions_of(n0.segments@[i]),
        flat_map(n1.segments@, |i: int, seg: Segment| segment_placements(i, seg)).to_multiset()
            == flat_map(n0.segments@, |i: int, seg: Segment| segment_placements(i, seg)).to_multiset().insert(e),
    ensures
        n1.topology() == n0.topology(),
        n1.occupants() == n0.occupants().insert(e),
{
    broadcast use vstd::multiset::group_multiset_axioms;
    let gs = |i: int, seg: Segment| segment_placements(i, seg);
    let gj = |j: int, junction: Junction| junction_placements(j, junction);
    lemma_multiset_commutative(flat_map(n1.segments@, gs), flat_map(n1.junctions@, gj));
    lemma_multiset_commutative(flat_map(n0.segments@, gs), flat_map(n0.junctions@, gj));
    assert(n1.occupants() =~= n0.occupants().insert(e));
    assert(n1.topology().lane_counts =~= n0.topology().lane_counts);
    assert(n1.topology().lane_directions =~= n0.topology().lane_directions);
}

/// The junction segment lists after linking segment `id` to `begin` and `end`.
pub open spec fn segments_linked(js: Seq<Seq<SegmentId>>, begin: JunctionId, end: JunctionId, id: SegmentId) -> Seq<Seq<SegmentId>> {
    let once = js.update(begin.0 as int, js[begin.0 as int].push(id));
    if end == begin { once } else { once.update(end.0 as int, once[end.0 as int].push(id)) }
}

} // verus!
