use crate::constants::{ACTOR_MAX_SPEED, POS_PARAM_ONE, SIM_TIME_STEP};
use crate::error::RoutieError;
use crate::road::{
    lane_count, lemma_topology_shape, valid_junction_lane, valid_lane, valid_location, valid_segment, Direction,
    JunctionLaneId, Location, Network, Placement, PosParam, QualifiedSegmentLaneRank, Segment, SegmentId, SegmentLaneRank, Topology,
};
use crate::route::{downstream_junction, is_walk_between, lane_route, path_route, path_turns, route_stack, shortest_lane_path};
use vstd::prelude::*;

verus! {

/// A longer-term goal of an actor.
#[derive(Clone, Copy, Debug, PartialEq, Eq, Structural)]
pub enum Agendum {
    /// Stay put for this many ticks.
    SleepFor(i32),
    /// Travel to an off-road location.
    TravelTo { segment_id: SegmentId, segment_side: Direction, pos_param: PosParam },
}

/// A near-term navigation step.
#[derive(Clone, Copy, Debug, PartialEq, Eq, Structural)]
pub enum RouteStep {
    /// Stop at this position on the current lane.
    ArriveAt(PosParam),
    /// Move over to the lane of this rank. No lane-change policy is defined:
    /// an actor whose route tip is a lane change fails its tick with
    /// `UnsupportedStep`.
    LaneChange(SegmentLaneRank),
    /// Take this lane through the next junction.
    TurnAt(JunctionLaneId),
}

/// Popping an empty route.
#[derive(Debug, Clone, Copy, PartialEq, Eq, Structural)]
pub struct NullRouteError;

/// Popping an empty agenda.
#[derive(Debug, Clone, Copy, PartialEq, Eq, Structural)]
pub struct NullAgendaError;

/// A vehicle: a speed, a route (a stack of navigation steps, tip last) and an
/// agenda (a stack of goals, tip last).
#[derive(Debug)]
pub struct Actor {
    max_speed: u64,
    route: Vec<RouteStep>,
    agenda: Vec<Agendum>,
}

/// What an actor is, as plain values.
pub struct ActorView {
    pub max_speed: u64,
    pub route: Seq<RouteStep>,
    pub agenda: Seq<Agendum>,
}

impl View for Actor {
    type V = ActorView;

    closed spec fn view(&self) -> ActorView {
        ActorView { max_speed: self.max_speed, route: self.route@, agenda: self.agenda@ }
    }
}

impl Clone for Actor {
    fn clone(&self) -> (r: Self)
        ensures
            r@ == self@,
    {
        let r = Actor { max_speed: self.max_speed, route: self.route.clone(), agenda: self.agenda.clone() };
        assert(r.route@ =~= self.route@);
        assert(r.agenda@ =~= self.agenda@);
        r
    }
}

impl Actor {
    pub fn new(agenda: Vec<Agendum>) -> (r: Self)
        ensures
            r@ == (ActorView { max_speed: ACTOR_MAX_SPEED, route: Seq::empty(), agenda: agenda@ }),
    {
        Actor { max_speed: ACTOR_MAX_SPEED, route: Vec::new(), agenda }
    }

    pub fn max_speed(&self) -> (r: u64)
        ensures
            r == self@.max_speed,
    {
        self.max_speed
    }

    pub fn route_push(&mut self, item: RouteStep)
        ensures
            final(self)@ == (ActorView { route: old(self)@.route.push(item), ..old(self)@ }),
    {
        self.route.push(item);
    }

    pub fn route_peek(&self) -> (r: Option<RouteStep>)
        ensures
            r == (if self@.route.len() == 0 { None } else { Some(self@.route.last()) }),
    {
        if self.route.len() > 0 {
            Some(self.route[self.route.len() - 1])
        } else {
            None
        }
    }

    pub fn route_pop(&mut self) -> (r: Result<RouteStep, NullRouteError>)
        ensures
            old(self)@.route.len() == 0 ==> r == Err::<RouteStep, NullRouteError>(NullRouteError) && final(self)@ == old(self)@,
            old(self)@.route.len() > 0 ==> {
                &&& r == Ok::<RouteStep, NullRouteError>(old(self)@.route.last())
                &&& final(self)@ == (ActorView { route: old(self)@.route.drop_last(), ..old(self)@ })
            },
    {
        match self.route.pop() {
            Some(step) => Ok(step),
            None => Err(NullRouteError),
        }
    }

    pub fn agenda_peek(&self) -> (r: Option<Agendum>)
        ensures
            r == (if self@.agenda.len() == 0 { None } else { Some(self@.agenda.last()) }),
    {
        if self.agenda.len() > 0 {
            Some(self.agenda[self.agenda.len() - 1])
        } else {
            None
        }
    }

    pub fn agenda_pop(&mut self) -> (r: Result<Agendum, NullAgendaError>)
        ensures
            old(self)@.agenda.len() == 0 ==> r == Err::<Agendum, NullAgendaError>(NullAgendaError) && final(self)@ == old(self)@,
            old(self)@.agenda.len() > 0 ==> {
                &&& r == Ok::<Agendum, NullAgendaError>(old(self)@.agenda.last())
                &&& final(self)@ == (ActorView { agenda: old(self)@.agenda.drop_last(), ..old(self)@ })
            },
    {
        match self.agenda.pop() {
            Some(item) => Ok(item),
            None => Err(NullAgendaError),
        }
    }

    pub fn agenda_push(&mut self, item: Agendum)
        ensures
            final(self)@ == (ActorView { agenda: old(self)@.agenda.push(item), ..old(self)@ }),
    {
        self.agenda.push(item);
    }
}

/// The lane to board from side `side` of a segment with `n_forward` forward and
/// `n_backward` backward lanes: the side's own last-ranked lane; where the side
/// has none, the lane of the other carriageway nearest the median.
pub open spec fn boarding_lane(side: Direction, n_forward: nat, n_backward: nat) -> Option<(Direction, nat)> {
    if n_forward == 0 && n_backward == 0 {
        None
    } else {
        match side {
            Direction::Backward => if n_backward == 0 {
                Some((Direction::Forward, 0nat))
            } else {
                Some((Direction::Backward, (n_backward - 1) as nat))
            },
            Direction::Forward => if n_forward == 0 {
                Some((Direction::Backward, (n_backward - 1) as nat))
            } else {
                Some((Direction::Forward, (n_forward - 1) as nat))
            },
        }
    }
}

/// A position measured along direction `from`, measured along direction `to`:
/// the same where the two agree, mirrored (`1 - p`) where they oppose.
pub open spec fn lane_position(from: Direction, to: Direction, p: PosParam) -> PosParam {
    if from == to { p } else { (POS_PARAM_ONE - p) as u64 }
}

/// The lane, and the position on it, at which an actor parked on side `side`
/// at `p` boards.
pub open spec fn on_road_location(side: Direction, n_forward: nat, n_backward: nat, p: PosParam) -> Option<(Direction, SegmentLaneRank, PosParam)> {
    match boarding_lane(side, n_forward, n_backward) {
        Some((d, r)) => Some((d, SegmentLaneRank(r as usize), lane_position(side, d, p))),
        None => None,
    }
}

/// Converting a parked position onto a lane and back is the identity.
pub proof fn lemma_mirror_round_trip(side: Direction, lane_direction: Direction, p: PosParam)
    requires
        p <= POS_PARAM_ONE,
    ensures
        lane_position(lane_direction, side, lane_position(side, lane_direction, p)) == p,
        side != lane_direction ==> lane_position(side, lane_direction, p) == POS_PARAM_ONE - p,
{
}

/// The boarding lane and position for an actor parked on side `segment_side`
/// of `segment` at `pos_param`; an error where the segment has no lanes.
pub fn to_on_road_location(segment: &Segment, segment_side: Direction, pos_param: PosParam) -> (r: Result<(Direction, SegmentLaneRank, PosParam), RoutieError>)
    requires
        pos_param <= POS_PARAM_ONE,
    ensures
        match on_road_location(segment_side, segment.forward_lanes@.len(), segment.backward_lanes@.len(), pos_param) {
            Some(l) => r == Ok::<(Direction, SegmentLaneRank, PosParam), RoutieError>(l),
            None => r == Err::<(Direction, SegmentLaneRank, PosParam), RoutieError>(RoutieError::NoSuchLocation),
        },
{
    let n_forward = segment.forward_lanes.len();
    let n_backward = segment.backward_lanes.len();
    let (direction, rank) = if n_forward == 0 && n_backward == 0 {
        return Err(RoutieError::NoSuchLocation);
    } else {
        match segment_side {
            Direction::Backward => if n_backward == 0 {
                (Direction::Forward, 0)
            } else {
                (Direction::Backward, n_backward - 1)
            },
            Direction::Forward => if n_forward == 0 {
                (Direction::Backward, n_backward - 1)
            } else {
                (Direction::Forward, n_forward - 1)
            },
        }
    };
    Ok((direction, SegmentLaneRank(rank), to_lane_position(segment_side, direction, pos_param)))
}

/// A position measured along `from`, measured along `to`.
pub fn to_lane_position(from: Direction, to: Direction, pos_param: PosParam) -> (r: PosParam)
    requires
        pos_param <= POS_PARAM_ONE,
    ensures
        r == lane_position(from, to, pos_param),
{
    if from == to { pos_param } else { POS_PARAM_ONE - pos_param }
}

/// How far an actor moves in one tick.
pub open spec fn displacement(a: ActorView) -> int {
    a.max_speed as int * SIM_TIME_STEP as int
}

/// Where an actor at `p` would be after one tick, ignoring everything else.
pub open spec fn moved(p: PosParam, a: ActorView) -> int {
    p as int + displacement(a)
}

/// An actor parked on side `side` of segment `s` at `p` sets out for the parked
/// location (`dest`, `dest_side`, `dest_p`). It boards its own boarding lane and
/// takes the route of the shortest lane path from there to the lane it would
/// board at the destination (the search target), ending in `ArriveAt(dest_p)`.
/// Where no such path exists the tick fails with `Unreachable` rather than
/// dropping or stranding the actor.
pub open spec fn travel_spec(
    topo: Topology,
    s: SegmentId,
    side: Direction,
    p: PosParam,
    dest: SegmentId,
    dest_side: Direction,
    dest_p: PosParam,
    a: ActorView,
) -> Result<Placement, RoutieError> {
    if p > POS_PARAM_ONE || dest_p > POS_PARAM_ONE {
        Err(RoutieError::InvalidPosition)
    } else if !valid_segment(topo, dest) {
        Err(RoutieError::InvalidId)
    } else {
        let here = on_road_location(side, lane_count(topo, s, Direction::Forward), lane_count(topo, s, Direction::Backward), p);
        let there = on_road_location(dest_side, lane_count(topo, dest, Direction::Forward), lane_count(topo, dest, Direction::Backward), dest_p);
        match (here, there) {
            (Some((d0, r0, board_pos)), Some((d1, r1, _))) => match lane_route(topo, (s, d0, r0), (dest, d1, r1)) {
                None => Err(RoutieError::Unreachable),
                Some(path) => match path_turns(topo, path) {
                    None => Err(RoutieError::Unreachable),
                    Some(t) => Ok(
                        (
                            Location::OnRoadSegment { segment_id: s, direction: d0, rank: r0, pos_param: board_pos },
                            ActorView { route: a.route + route_stack(t, dest_p), agenda: a.agenda.drop_last(), ..a },
                        ),
                    ),
                },
            },
            _ => Err(RoutieError::NoSuchLocation),
        }
    }
}

/// What the route search found from `start` to `goal` is a shortest walk
/// between them (one hop per junction lane), or nothing where no walk exists.
pub open spec fn route_search_holds(topo: Topology, start: QualifiedSegmentLaneRank, goal: QualifiedSegmentLaneRank) -> bool {
    match lane_route(topo, start, goal) {
        Some(p) => {
            &&& is_walk_between(topo, p, start, goal)
            &&& forall|q: Seq<QualifiedSegmentLaneRank>| is_walk_between(topo, q, start, goal) ==> q.len() >= p.len()
        },
        None => forall|q: Seq<QualifiedSegmentLaneRank>| !is_walk_between(topo, q, start, goal),
    }
}

/// The lanes between which a travelling actor searches for a route: its own
/// boarding lane and the lane it would board at the destination.
pub open spec fn travel_search(
    topo: Topology,
    s: SegmentId,
    side: Direction,
    p: PosParam,
    dest: SegmentId,
    dest_side: Direction,
    dest_p: PosParam,
) -> Option<(QualifiedSegmentLaneRank, QualifiedSegmentLaneRank)> {
    if p > POS_PARAM_ONE || dest_p > POS_PARAM_ONE || !valid_segment(topo, dest) {
        None
    } else {
        let here = on_road_location(side, lane_count(topo, s, Direction::Forward), lane_count(topo, s, Direction::Backward), p);
        let there = on_road_location(dest_side, lane_count(topo, dest, Direction::Forward), lane_count(topo, dest, Direction::Backward), dest_p);
        match (here, there) {
            (Some((d0, r0, _)), Some((d1, r1, _))) => Some(((s, d0, r0), (dest, d1, r1))),
            _ => None,
        }
    }
}

/// The route search a step at `loc` makes, if any.
pub open spec fn step_search(topo: Topology, loc: Location, a: ActorView) -> Option<(QualifiedSegmentLaneRank, QualifiedSegmentLaneRank)> {
    match loc {
        Location::OffRoad { segment_id: s, segment_side: side, pos_param: p } => if valid_segment(topo, s) && a.agenda.len() > 0 {
            match a.agenda.last() {
                Agendum::TravelTo { segment_id, segment_side, pos_param } => travel_search(topo, s, side, p, segment_id, segment_side, pos_param),
                _ => None,
            }
        } else {
            None
        },
        _ => None,
    }
}

/// Where a step searched a route, the search's answer is a shortest walk.
pub open spec fn search_sound(topo: Topology, loc: Location, a: ActorView) -> bool {
    match step_search(topo, loc, a) {
        Some((start, goal)) => route_search_holds(topo, start, goal),
        None => true,
    }
}

/// Where an actor at `loc` is one tick later, and what it is then, in a network
/// of shape `topo`; or why the tick cannot be taken.
pub open spec fn step_spec(topo: Topology, loc: Location, a: ActorView) -> Result<Placement, RoutieError> {
    match loc {
        Location::OffRoad { segment_id: s, segment_side: side, pos_param: p } => if !valid_segment(topo, s) {
            Err(RoutieError::InvalidId)
        } else if a.agenda.len() == 0 {
            Ok((loc, a))
        } else {
            match a.agenda.last() {
                Agendum::SleepFor(d) => if d <= 1 {
                    Ok((loc, ActorView { agenda: a.agenda.drop_last(), ..a }))
                } else {
                    Ok((loc, ActorView { agenda: a.agenda.drop_last().push(Agendum::SleepFor((d - 1) as i32)), ..a }))
                },
                Agendum::TravelTo { segment_id, segment_side, pos_param } => travel_spec(topo, s, side, p, segment_id, segment_side, pos_param, a),
            }
        },
        Location::OnRoadSegment { segment_id: s, direction: d, rank, pos_param: p } => if !valid_lane(topo, (s, d, rank)) {
            Err(RoutieError::InvalidId)
        } else if a.route.len() == 0 {
            Ok((Location::OffRoad { segment_id: s, segment_side: d, pos_param: p }, a))
        } else if a.route.last() is LaneChange {
            Err(RoutieError::UnsupportedStep)
        } else if moved(p, a) > u64::MAX {
            Err(RoutieError::InvalidPosition)
        } else {
            let next = moved(p, a) as u64;
            match a.route.last() {
                RouteStep::ArriveAt(target) => if next >= target {
                    Ok((Location::OnRoadSegment { segment_id: s, direction: d, rank, pos_param: target }, ActorView { route: a.route.drop_last(), ..a }))
                } else {
                    Ok((Location::OnRoadSegment { segment_id: s, direction: d, rank, pos_param: next }, a))
                },
                RouteStep::TurnAt(l) => if next <= POS_PARAM_ONE {
                    Ok((Location::OnRoadSegment { segment_id: s, direction: d, rank, pos_param: next }, a))
                } else {
                    let j = downstream_junction(topo, (s, d, rank));
                    if valid_junction_lane(topo, j, l) {
                        Ok((Location::OnRoadJunction { junction_id: j, lane_id: l, pos_param: (next - POS_PARAM_ONE) as u64 }, a))
                    } else {
                        Err(RoutieError::InvalidId)
                    }
                },
                RouteStep::LaneChange(_) => Err(RoutieError::UnsupportedStep),
            }
        },
        Location::OnRoadJunction { junction_id: j, lane_id: l, pos_param: p } => if !valid_junction_lane(topo, j, l) {
            Err(RoutieError::InvalidId)
        } else if moved(p, a) > u64::MAX {
            Err(RoutieError::InvalidPosition)
        } else if moved(p, a) <= POS_PARAM_ONE {
            Ok((Location::OnRoadJunction { junction_id: j, lane_id: l, pos_param: moved(p, a) as u64 }, a))
        } else if a.route.len() == 0 {
            Err(RoutieError::NullRoute)
        } else {
            let out = topo.junction_lanes[j.0 as int][l.0 as int].1;
            if valid_lane(topo, out) {
                Ok(
                    (
                        Location::OnRoadSegment { segment_id: out.0, direction: out.1, rank: out.2, pos_param: (moved(p, a) - POS_PARAM_ONE) as u64 },
                        ActorView { route: a.route.drop_last(), ..a },
                    ),
                )
            } else {
                Err(RoutieError::InvalidId)
            }
        },
    }
}

/// Where an actor is, as the tick finds it.
pub struct ActorContext<'a> {
    pub location: Location,
    pub actor: &'a Actor,
}

/// Whether an exec result is the placement `s` describes.
pub open spec fn same_result(r: Result<(Location, Actor), RoutieError>, s: Result<Placement, RoutieError>) -> bool {
    match (r, s) {
        (Ok((l, a)), Ok((l2, v))) => l == l2 && a@ == v,
        (Err(e), Err(e2)) => e == e2,
        _ => false,
    }
}

impl Actor {
    /// Where the actor would be after one tick from `p`, if that fits.
    fn moved_from(&self, p: PosParam) -> (r: Option<PosParam>)
        ensures
            match r {
                Some(n) => moved(p, self@) <= u64::MAX && n == moved(p, self@),
                None => moved(p, self@) > u64::MAX,
            },
    {
        match self.max_speed.checked_mul(SIM_TIME_STEP) {
            Some(d) => p.checked_add(d),
            None => {
                proof {
                    assert(self@.max_speed as int * SIM_TIME_STEP as int >= 0) by (nonlinear_arith);
                }
                None
            },
        }
    }
}

/// An actor parked at (`s`, `side`, `p`) sets out for its destination.
fn travel(network: &Network, s: SegmentId, side: Direction, p: PosParam, dest: SegmentId, dest_side: Direction, dest_p: PosParam, actor: &Actor) -> (r: Result<(Location, Actor), RoutieError>)
    requires
        network.wf(),
        valid_segment(network.topology(), s),
        actor@.agenda.len() > 0,
    ensures
        same_result(r, travel_spec(network.topology(), s, side, p, dest, dest_side, dest_p, actor@)),
        match travel_search(network.topology(), s, side, p, dest, dest_side, dest_p) {
            Some((start, goal)) => route_search_holds(network.topology(), start, goal),
            None => true,
        },
{
    proof { lemma_topology_shape(network); }
    if p > POS_PARAM_ONE || dest_p > POS_PARAM_ONE {
        return Err(RoutieError::InvalidPosition);
    }
    let here_segment = network.segments().get(&s).unwrap();
    let there_segment = match network.segments().get(&dest) {
        Some(seg) => seg,
        None => { return Err(RoutieError::InvalidId); },
    };
    let (d0, r0, board_pos) = to_on_road_location(here_segment, side, p)?;
    let (d1, r1, _) = to_on_road_location(there_segment, dest_side, dest_p)?;
    let path = match shortest_lane_path(network, (s, d0, r0), (dest, d1, r1)) {
        Some(path) => path,
        None => { return Err(RoutieError::Unreachable); },
    };
    let steps = match path_route(network, &path, dest_p) {
        Some(steps) => steps,
        None => { return Err(RoutieError::Unreachable); },
    };
    let mut next = actor.clone();
    let _ = next.agenda_pop();
    let mut k: usize = 0;
    let ghost route0 = next@.route;
    while k < steps.len()
        invariant
            k <= steps@.len(),
            next@ == (ActorView { route: route0 + steps@.take(k as int), agenda: actor@.agenda.drop_last(), ..actor@ }),
        decreases steps@.len() - k,
    {
        next.route_push(steps[k]);
        proof { assert(route0 + steps@.take(k + 1) =~= (route0 + steps@.take(k as int)).push(steps@[k as int])); }
        k = k + 1;
    }
    proof { assert(steps@.take(steps@.len() as int) =~= steps@); }
    Ok((Location::OnRoadSegment { segment_id: s, direction: d0, rank: r0, pos_param: board_pos }, next))
}

/// Where an actor at `loc` is one tick later, and what it is then.
pub fn next_placement(network: &Network, loc: Location, actor: &Actor) -> (r: Result<(Location, Actor), RoutieError>)
    requires
        network.wf(),
    ensures
        same_result(r, step_spec(network.topology(), loc, actor@)),
        search_sound(network.topology(), loc, actor@),
{
    proof { lemma_topology_shape(network); }
    match loc {
        Location::OffRoad { segment_id, segment_side, pos_param } => {
            if segment_id.0 >= network.segments().len() {
                return Err(RoutieError::InvalidId);
            }
            match actor.agenda_peek() {
                None => Ok((loc, actor.clone())),
                Some(Agendum::SleepFor(d)) => {
                    let mut next = actor.clone();
                    let _ = next.agenda_pop();
                    if d > 1 {
                        next.agenda_push(Agendum::SleepFor(d - 1));
                    }
                    Ok((loc, next))
                },
                Some(Agendum::TravelTo { segment_id: dest, segment_side: dest_side, pos_param: dest_p }) => {
                    travel(network, segment_id, segment_side, pos_param, dest, dest_side, dest_p, actor)
                },
            }
        },
        Location::OnRoadSegment { segment_id, direction, rank, pos_param } => {
            match network.lane_count(segment_id, direction) {
                Some(n) => if rank.0 >= n {
                    return Err(RoutieError::InvalidId);
                },
                None => { return Err(RoutieError::InvalidId); },
            }
            let step = match actor.route_peek() {
                None => {
                    return Ok((Location::OffRoad { segment_id, segment_side: direction, pos_param }, actor.clone()));
                },
                Some(step) => step,
            };
            if let RouteStep::LaneChange(_) = step {
                return Err(RoutieError::UnsupportedStep);
            }
            let next_pos = match actor.moved_from(pos_param) {
                Some(n) => n,
                None => { return Err(RoutieError::InvalidPosition); },
            };
            match step {
                RouteStep::ArriveAt(target) => {
                    if next_pos >= target {
                        let mut next = actor.clone();
                        let _ = next.route_pop();
                        Ok((Location::OnRoadSegment { segment_id, direction, rank, pos_param: target }, next))
                    } else {
                        Ok((Location::OnRoadSegment { segment_id, direction, rank, pos_param: next_pos }, actor.clone()))
                    }
                },
                RouteStep::TurnAt(lane_id) => {
                    if next_pos <= POS_PARAM_ONE {
                        Ok((Location::OnRoadSegment { segment_id, direction, rank, pos_param: next_pos }, actor.clone()))
                    } else {
                        let (begin, end) = network.get_segment_junctions(segment_id)?;
                        let junction_id = match direction {
                            Direction::Forward => end,
                            Direction::Backward => begin,
                        };
                        if network.junction_lane_ends(junction_id, lane_id).is_none() {
                            return Err(RoutieError::InvalidId);
                        }
                        Ok((Location::OnRoadJunction { junction_id, lane_id, pos_param: next_pos - POS_PARAM_ONE }, actor.clone()))
                    }
                },
                RouteStep::LaneChange(_) => Err(RoutieError::UnsupportedStep),
            }
        },
        Location::OnRoadJunction { junction_id, lane_id, pos_param } => {
            let (_, out) = match network.junction_lane_ends(junction_id, lane_id) {
                Some(ends) => ends,
                None => { return Err(RoutieError::InvalidId); },
            };
            let next_pos = match actor.moved_from(pos_param) {
                Some(n) => n,
                None => { return Err(RoutieError::InvalidPosition); },
            };
            if next_pos <= POS_PARAM_ONE {
                return Ok((Location::OnRoadJunction { junction_id, lane_id, pos_param: next_pos }, actor.clone()));
            }
            let mut next = actor.clone();
            if next.route_pop().is_err() {
                return Err(RoutieError::NullRoute);
            }
            match network.lane_count(out.0, out.1) {
                Some(n) => if out.2.0 >= n {
                    return Err(RoutieError::InvalidId);
                },
                None => { return Err(RoutieError::InvalidId); },
            }
            Ok((Location::OnRoadSegment { segment_id: out.0, direction: out.1, rank: out.2, pos_param: next_pos - POS_PARAM_ONE }, next))
        },
    }
}

/// An actor on a lane whose route tip is `ArriveAt(target)`, and whose next
/// position reaches `target`, stops exactly at `target` with that step popped.
pub proof fn lemma_arrival_exact(
    topo: Topology,
    segment_id: SegmentId,
    direction: Direction,
    rank: SegmentLaneRank,
    pos_param: PosParam,
    a: ActorView,
    target: PosParam,
)
    requires
        valid_lane(topo, (segment_id, direction, rank)),
        a.route.len() > 0,
        a.route.last() == RouteStep::ArriveAt(target),
        target <= moved(pos_param, a) <= u64::MAX,
    ensures
        step_spec(topo, Location::OnRoadSegment { segment_id, direction, rank, pos_param }, a) == Ok::<Placement, RoutieError>(
            (Location::OnRoadSegment { segment_id, direction, rank, pos_param: target }, ActorView { route: a.route.drop_last(), ..a }),
        ),
{
}

/// An actor on a lane whose route tip is `TurnAt(lane)`, and whose next
/// position passes the end of the lane by `delta`, enters junction lane `lane`
/// of the junction ahead at exactly `delta`.
pub proof fn lemma_junction_carry_over(
    topo: Topology,
    segment_id: SegmentId,
    direction: Direction,
    rank: SegmentLaneRank,
    pos_param: PosParam,
    a: ActorView,
    lane: JunctionLaneId,
    delta: int,
)
    requires
        valid_lane(topo, (segment_id, direction, rank)),
        valid_junction_lane(topo, downstream_junction(topo, (segment_id, direction, rank)), lane),
        a.route.len() > 0,
        a.route.last() == RouteStep::TurnAt(lane),
        delta > 0,
        moved(pos_param, a) == POS_PARAM_ONE + delta,
        moved(pos_param, a) <= u64::MAX,
    ensures
        step_spec(topo, Location::OnRoadSegment { segment_id, direction, rank, pos_param }, a) == Ok::<Placement, RoutieError>(
            (
                Location::OnRoadJunction {
                    junction_id: downstream_junction(topo, (segment_id, direction, rank)),
                    lane_id: lane,
                    pos_param: delta as u64,
                },
                a,
            ),
        ),
{
}

/// A step that succeeds lands somewhere that exists.
proof fn lemma_step_lands(topo: Topology, loc: Location, a: ActorView)
    requires
        step_spec(topo, loc, a) is Ok,
    ensures
        valid_location(topo, step_spec(topo, loc, a)->Ok_0.0),
{
}

impl<'a> ActorContext<'a> {
    /// Writes the actor, as it is one tick later, into `network_pp`, a network
    /// of the same shape; leaves `network_pp` as it was where the tick fails.
    pub fn advance(&self, network_pp: &mut Network) -> (r: Result<(), RoutieError>)
        requires
            old(network_pp).wf(),
        ensures
            final(network_pp).wf(),
            final(network_pp).topology() == old(network_pp).topology(),
            search_sound(old(network_pp).topology(), self.location, self.actor@),
            match step_spec(old(network_pp).topology(), self.location, self.actor@) {
                Ok(placed) => r is Ok && final(network_pp).occupants() == old(network_pp).occupants().insert(placed),
                Err(e) => r == Err::<(), RoutieError>(e) && final(network_pp).occupants() == old(network_pp).occupants(),
            },
    {
        let (loc, actor) = next_placement(network_pp, self.location, self.actor)?;
        proof { lemma_step_lands(network_pp.topology(), self.location, self.actor@); }
        network_pp.place(loc, actor)
    }
}

} // verus!
