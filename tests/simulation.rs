use routie::actor::{to_lane_position, to_on_road_location, Actor, ActorContext, Agendum, RouteStep};
use routie::constants::POS_PARAM_ONE;
use routie::error::RoutieError;
use routie::road::{
    Direction, JunctionId, JunctionLaneId, Location, Network, Point, Segment, SegmentId, SegmentLaneRank,
};
use routie::route::{lane_successors, path_route};
use routie::simulate::advance;

fn point(x: i64, y: i64) -> Point {
    Point { x, y }
}

/// Everyone in the network with where they are, in visiting order.
fn everyone(network: &Network) -> Vec<(Location, Vec<Option<RouteStep>>, Option<Agendum>)> {
    network
        .placed_actors()
        .into_iter()
        .map(|(loc, actor)| (loc, vec![actor.route_peek()], actor.agenda_peek()))
        .collect()
}

/// Two junctions joined by one segment with a lane each way; one actor parked
/// backward at 0.25, bound for the backward side at 0.75.
fn two_junction_scene() -> Network {
    let mut network = Network::new();
    let j1 = network.add_junction(point(250_000, 250_000));
    let j2 = network.add_junction(point(250_000, 750_000));
    let (s1, seg) = network.add_segment(j1, j2).unwrap();
    seg.add_lane(Direction::Forward);
    seg.add_lane(Direction::Backward);
    seg.add_actor(
        250_000,
        Direction::Backward,
        vec![Agendum::TravelTo { segment_id: s1, segment_side: Direction::Backward, pos_param: 750_000 }],
    );
    network.connect_junctions();
    network
}

#[test]
fn scenario_two_junctions_arrives_and_stays() {
    let mut network = two_junction_scene();
    for _ in 0..15 {
        network = advance(network).unwrap();
    }
    let all = everyone(&network);
    assert_eq!(all.len(), 1);
    assert_eq!(
        all[0].0,
        Location::OffRoad { segment_id: SegmentId(0), segment_side: Direction::Backward, pos_param: 750_000 }
    );
    assert_eq!(all[0].1, vec![None]);
    assert_eq!(all[0].2, None);
    for _ in 0..5 {
        network = advance(network).unwrap();
    }
    let later = everyone(&network);
    assert_eq!(later, all);
}

#[test]
fn scenario_two_junctions_boards_then_moves() {
    let mut network = two_junction_scene();
    network = advance(network).unwrap();
    let all = everyone(&network);
    assert_eq!(
        all[0].0,
        Location::OnRoadSegment { segment_id: SegmentId(0), direction: Direction::Backward, rank: SegmentLaneRank(0), pos_param: 250_000 }
    );
    assert_eq!(all[0].1, vec![Some(RouteStep::ArriveAt(750_000))]);
    network = advance(network).unwrap();
    let all = everyone(&network);
    assert_eq!(
        all[0].0,
        Location::OnRoadSegment { segment_id: SegmentId(0), direction: Direction::Backward, rank: SegmentLaneRank(0), pos_param: 290_000 }
    );
}

#[test]
fn arrival_is_exact_not_overshooting() {
    let mut network = two_junction_scene();
    // boarding, then twelve moves up to 0.73
    for _ in 0..13 {
        network = advance(network).unwrap();
    }
    let all = everyone(&network);
    assert_eq!(
        all[0].0,
        Location::OnRoadSegment { segment_id: SegmentId(0), direction: Direction::Backward, rank: SegmentLaneRank(0), pos_param: 730_000 }
    );
    network = advance(network).unwrap();
    let all = everyone(&network);
    assert_eq!(
        all[0].0,
        Location::OnRoadSegment { segment_id: SegmentId(0), direction: Direction::Backward, rank: SegmentLaneRank(0), pos_param: 750_000 }
    );
    assert_eq!(all[0].1, vec![None]);
}

/// Three junctions in a row, two segments with one forward lane each; an actor
/// parked forward on the first segment at 0.5, bound for the second at 0.5.
fn corridor_scene() -> Network {
    let mut network = Network::new();
    let j1 = network.add_junction(point(0, 0));
    let j2 = network.add_junction(point(500_000, 0));
    let j3 = network.add_junction(point(1_000_000, 0));
    let (_, seg) = network.add_segment(j1, j2).unwrap();
    seg.add_lane(Direction::Forward);
    seg.add_actor(
        500_000,
        Direction::Forward,
        vec![Agendum::TravelTo { segment_id: SegmentId(1), segment_side: Direction::Forward, pos_param: 500_000 }],
    );
    let (_, seg) = network.add_segment(j2, j3).unwrap();
    seg.add_lane(Direction::Forward);
    network.connect_junctions();
    network
}

#[test]
fn travel_plans_a_turn_through_the_junction() {
    let mut network = corridor_scene();
    network = advance(network).unwrap();
    let (_, actor) = network.placed_actors()[0];
    assert_eq!(actor.route_peek(), Some(RouteStep::TurnAt(JunctionLaneId(0))));
}

#[test]
fn junction_carry_over_is_exact() {
    let mut network = corridor_scene();
    // boarding, then thirteen moves: 0.5 + 13 * 0.04 = 1.02
    for _ in 0..14 {
        network = advance(network).unwrap();
    }
    let all = everyone(&network);
    assert_eq!(
        all[0].0,
        Location::OnRoadJunction { junction_id: JunctionId(1), lane_id: JunctionLaneId(0), pos_param: 20_000 }
    );
}

#[test]
fn corridor_trip_ends_parked_at_destination() {
    let mut network = corridor_scene();
    for _ in 0..60 {
        network = advance(network).unwrap();
    }
    let all = everyone(&network);
    assert_eq!(
        all[0].0,
        Location::OffRoad { segment_id: SegmentId(1), segment_side: Direction::Forward, pos_param: 500_000 }
    );
}

#[test]
fn tick_keeps_the_number_of_actors() {
    let mut network = corridor_scene();
    {
        let seg = network.segment_mut(SegmentId(1)).unwrap();
        seg.add_actor(100_000, Direction::Backward, vec![]);
        seg.add_actor(100_000, Direction::Backward, vec![Agendum::SleepFor(3)]);
        seg.get_lanes_mut(Direction::Forward).get_mut(&SegmentLaneRank(0)).unwrap().add_actor(900_000);
    }
    let before = everyone(&network).len();
    assert_eq!(before, 4);
    for _ in 0..10 {
        network = advance(network).unwrap();
        assert_eq!(everyone(&network).len(), before);
    }
}

#[test]
fn visiting_order_does_not_change_the_outcome() {
    let build = |reversed: bool| {
        let mut network = corridor_scene();
        let seg = network.segment_mut(SegmentId(1)).unwrap();
        let mut agendas = vec![vec![Agendum::SleepFor(2)], vec![], vec![Agendum::SleepFor(5)]];
        if reversed {
            agendas.reverse();
        }
        for agenda in agendas {
            seg.add_actor(300_000, Direction::Backward, agenda);
        }
        network
    };
    let sorted = |network: &Network| {
        let mut all: Vec<String> = everyone(network).iter().map(|e| format!("{:?}", e)).collect();
        all.sort();
        all
    };
    let mut a = build(false);
    let mut b = build(true);
    assert_ne!(everyone(&a), everyone(&b));
    assert_eq!(sorted(&a), sorted(&b));
    for _ in 0..5 {
        a = advance(a).unwrap();
        b = advance(b).unwrap();
        assert_eq!(sorted(&a), sorted(&b));
    }
}

#[test]
fn sleep_counts_down_then_leaves_the_agenda() {
    let mut network = Network::new();
    let j1 = network.add_junction(point(0, 0));
    let j2 = network.add_junction(point(1, 0));
    let (_, seg) = network.add_segment(j1, j2).unwrap();
    seg.add_actor(0, Direction::Forward, vec![Agendum::SleepFor(2)]);
    network = advance(network).unwrap();
    assert_eq!(everyone(&network)[0].2, Some(Agendum::SleepFor(1)));
    network = advance(network).unwrap();
    assert_eq!(everyone(&network)[0].2, None);
}

#[test]
fn connect_junctions_pairs_lanes_by_rank() {
    let mut network = Network::new();
    let j1 = network.add_junction(point(0, 0));
    let j2 = network.add_junction(point(1, 0));
    let j3 = network.add_junction(point(2, 0));
    let (a, seg) = network.add_segment(j1, j2).unwrap();
    seg.add_lane(Direction::Forward);
    seg.add_lane(Direction::Forward);
    seg.add_lane(Direction::Forward);
    let (b, seg) = network.add_segment(j2, j3).unwrap();
    seg.add_lane(Direction::Forward);
    seg.add_lane(Direction::Forward);
    network.connect_junctions();
    let junction = network.junctions().get(&j2).unwrap();
    let lanes = junction.enumerate_lanes();
    assert_eq!(lanes.len(), 2);
    for (id, lane) in lanes {
        assert_eq!(lane.input(), (a, Direction::Forward, SegmentLaneRank(id.0)));
        assert_eq!(lane.output(), (b, Direction::Forward, SegmentLaneRank(id.0)));
    }
    assert_eq!(junction.get_outputs_for_input((a, Direction::Forward, SegmentLaneRank(1))), vec![(b, Direction::Forward, SegmentLaneRank(1))]);
    assert!(network.junctions().get(&j1).unwrap().enumerate_lanes().is_empty());
}

#[test]
fn connect_junctions_wires_both_ways_at_a_shared_junction() {
    let mut network = Network::new();
    let j1 = network.add_junction(point(0, 0));
    let j2 = network.add_junction(point(1, 0));
    let j3 = network.add_junction(point(2, 0));
    let (a, seg) = network.add_segment(j1, j2).unwrap();
    seg.add_lane(Direction::Forward);
    seg.add_lane(Direction::Backward);
    let (b, seg) = network.add_segment(j2, j3).unwrap();
    seg.add_lane(Direction::Forward);
    seg.add_lane(Direction::Backward);
    network.connect_junctions();
    let junction = network.junctions().get(&j2).unwrap();
    let ends: Vec<_> = junction.enumerate_lanes().into_iter().map(|(_, l)| (l.input(), l.output())).collect();
    assert_eq!(
        ends,
        vec![
            ((a, Direction::Forward, SegmentLaneRank(0)), (b, Direction::Forward, SegmentLaneRank(0))),
            ((b, Direction::Backward, SegmentLaneRank(0)), (a, Direction::Backward, SegmentLaneRank(0))),
        ]
    );
    assert_eq!(
        lane_successors(&network, &(a, Direction::Forward, SegmentLaneRank(0))),
        vec![((b, Direction::Forward, SegmentLaneRank(0)), 1)]
    );
}

#[test]
fn segment_junctions_and_invalid_ids() {
    let mut network = Network::new();
    let j1 = network.add_junction(point(0, 0));
    let j2 = network.add_junction(point(1, 0));
    let (s, _) = network.add_segment(j1, j2).unwrap();
    assert_eq!(network.get_segment_junctions(s), Ok((j1, j2)));
    assert_eq!(network.get_segment_junctions(SegmentId(3)), Err(RoutieError::InvalidId));
    assert!(matches!(network.add_segment(j1, JunctionId(9)), Err(RoutieError::InvalidId)));
    assert_eq!(network.get_junction_segments(j1).unwrap(), &vec![s]);
}

#[test]
fn segment_loop_is_listed_once() {
    let mut network = Network::new();
    let j1 = network.add_junction(point(0, 0));
    let (s, _) = network.add_segment(j1, j1).unwrap();
    assert_eq!(network.get_junction_segments(j1).unwrap(), &vec![s]);
}

#[test]
fn boarding_picks_the_nearest_lane() {
    let mut both = Segment::new();
    both.add_lane(Direction::Forward);
    both.add_lane(Direction::Forward);
    both.add_lane(Direction::Backward);
    assert_eq!(to_on_road_location(&both, Direction::Forward, 300_000), Ok((Direction::Forward, SegmentLaneRank(1), 300_000)));
    assert_eq!(to_on_road_location(&both, Direction::Backward, 300_000), Ok((Direction::Backward, SegmentLaneRank(0), 300_000)));
    let mut forward_only = Segment::new();
    forward_only.add_lane(Direction::Forward);
    forward_only.add_lane(Direction::Forward);
    assert_eq!(to_on_road_location(&forward_only, Direction::Backward, 300_000), Ok((Direction::Forward, SegmentLaneRank(0), 700_000)));
    let mut backward_only = Segment::new();
    backward_only.add_lane(Direction::Backward);
    backward_only.add_lane(Direction::Backward);
    assert_eq!(to_on_road_location(&backward_only, Direction::Forward, 250_000), Ok((Direction::Backward, SegmentLaneRank(1), 750_000)));
    assert_eq!(to_on_road_location(&Segment::new(), Direction::Forward, 0), Err(RoutieError::NoSuchLocation));
}

#[test]
fn mirroring_round_trips() {
    for p in [0u64, 250_000, 600_000, POS_PARAM_ONE] {
        let there = to_lane_position(Direction::Backward, Direction::Forward, p);
        assert_eq!(there, POS_PARAM_ONE - p);
        assert_eq!(to_lane_position(Direction::Forward, Direction::Backward, there), p);
        assert_eq!(to_lane_position(Direction::Forward, Direction::Forward, p), p);
    }
}

#[test]
fn unreachable_destination_fails_the_tick() {
    let mut network = Network::new();
    let j1 = network.add_junction(point(0, 0));
    let j2 = network.add_junction(point(1, 0));
    let j3 = network.add_junction(point(2, 0));
    let j4 = network.add_junction(point(3, 0));
    let (_, seg) = network.add_segment(j1, j2).unwrap();
    seg.add_lane(Direction::Forward);
    seg.add_actor(0, Direction::Forward, vec![Agendum::TravelTo { segment_id: SegmentId(1), segment_side: Direction::Forward, pos_param: 0 }]);
    let (_, seg) = network.add_segment(j3, j4).unwrap();
    seg.add_lane(Direction::Forward);
    network.connect_junctions();
    assert_eq!(advance(network).err(), Some(RoutieError::Unreachable));
}

#[test]
fn boarding_a_laneless_segment_fails_the_tick() {
    let mut network = Network::new();
    let j1 = network.add_junction(point(0, 0));
    let j2 = network.add_junction(point(1, 0));
    let (s, seg) = network.add_segment(j1, j2).unwrap();
    seg.add_actor(0, Direction::Forward, vec![Agendum::TravelTo { segment_id: s, segment_side: Direction::Forward, pos_param: 0 }]);
    assert_eq!(advance(network).err(), Some(RoutieError::NoSuchLocation));
}

#[test]
fn travel_from_outside_the_segment_fails_the_tick() {
    let mut network = two_junction_scene();
    let seg = network.segment_mut(SegmentId(0)).unwrap();
    seg.add_actor(POS_PARAM_ONE + 1, Direction::Forward, vec![Agendum::TravelTo { segment_id: SegmentId(0), segment_side: Direction::Forward, pos_param: 0 }]);
    assert_eq!(advance(network).err(), Some(RoutieError::InvalidPosition));
}

#[test]
fn lane_change_is_rejected() {
    let mut network = two_junction_scene();
    let mut actor = Actor::new(vec![]);
    actor.route_push(RouteStep::LaneChange(SegmentLaneRank(0)));
    let loc = Location::OnRoadSegment { segment_id: SegmentId(0), direction: Direction::Forward, rank: SegmentLaneRank(0), pos_param: 0 };
    assert_eq!(network.place(loc, actor), Ok(()));
    assert_eq!(advance(network).err(), Some(RoutieError::UnsupportedStep));
}

#[test]
fn leaving_a_junction_lane_without_a_route_fails() {
    let mut network = corridor_scene();
    let loc = Location::OnRoadJunction { junction_id: JunctionId(1), lane_id: JunctionLaneId(0), pos_param: 990_000 };
    assert_eq!(network.place(loc, Actor::new(vec![])), Ok(()));
    assert_eq!(advance(network).err(), Some(RoutieError::NullRoute));
}

#[test]
fn turning_into_a_missing_junction_lane_fails() {
    let mut network = corridor_scene();
    let mut actor = Actor::new(vec![]);
    actor.route_push(RouteStep::TurnAt(JunctionLaneId(7)));
    let loc = Location::OnRoadSegment { segment_id: SegmentId(1), direction: Direction::Forward, rank: SegmentLaneRank(0), pos_param: 990_000 };
    assert_eq!(network.place(loc, actor), Ok(()));
    assert_eq!(advance(network).err(), Some(RoutieError::InvalidId));
}

#[test]
fn placing_at_a_missing_lane_is_refused() {
    let mut network = two_junction_scene();
    let loc = Location::OnRoadSegment { segment_id: SegmentId(0), direction: Direction::Forward, rank: SegmentLaneRank(4), pos_param: 0 };
    assert_eq!(network.place(loc, Actor::new(vec![])), Err(RoutieError::InvalidId));
}

#[test]
fn actor_context_advance_writes_one_actor() {
    let network = two_junction_scene();
    let mut next = network.clone_empty();
    let actor = Actor::new(vec![]);
    let ctx = ActorContext {
        location: Location::OnRoadSegment { segment_id: SegmentId(0), direction: Direction::Forward, rank: SegmentLaneRank(0), pos_param: 100_000 },
        actor: &actor,
    };
    assert_eq!(ctx.advance(&mut next), Ok(()));
    let all = everyone(&next);
    assert_eq!(all.len(), 1);
    assert_eq!(all[0].0, Location::OffRoad { segment_id: SegmentId(0), segment_side: Direction::Forward, pos_param: 100_000 });
}

#[test]
fn route_and_agenda_stacks() {
    let mut actor = Actor::new(vec![Agendum::SleepFor(1)]);
    assert!(actor.route_pop().is_err());
    actor.route_push(RouteStep::ArriveAt(5));
    actor.route_push(RouteStep::TurnAt(JunctionLaneId(2)));
    assert_eq!(actor.route_peek(), Some(RouteStep::TurnAt(JunctionLaneId(2))));
    assert_eq!(actor.route_pop().ok(), Some(RouteStep::TurnAt(JunctionLaneId(2))));
    assert_eq!(actor.route_pop().ok(), Some(RouteStep::ArriveAt(5)));
    assert_eq!(actor.agenda_pop().ok(), Some(Agendum::SleepFor(1)));
    assert!(actor.agenda_pop().is_err());
    assert_eq!(actor.agenda_peek(), None);
    assert_eq!(actor.max_speed(), 20_000);
}

#[test]
fn path_route_stacks_turns_over_the_arrival() {
    let network = corridor_scene();
    let path = vec![(SegmentId(0), Direction::Forward, SegmentLaneRank(0)), (SegmentId(1), Direction::Forward, SegmentLaneRank(0))];
    assert_eq!(path_route(&network, &path, 400_000), Some(vec![RouteStep::ArriveAt(400_000), RouteStep::TurnAt(JunctionLaneId(0))]));
    let single = vec![(SegmentId(1), Direction::Forward, SegmentLaneRank(0))];
    assert_eq!(path_route(&network, &single, 7), Some(vec![RouteStep::ArriveAt(7)]));
    let gap = vec![(SegmentId(1), Direction::Forward, SegmentLaneRank(0)), (SegmentId(0), Direction::Forward, SegmentLaneRank(0))];
    assert_eq!(path_route(&network, &gap, 7), None);
}

#[test]
fn lane_counts_and_junction_lane_ends() {
    let network = corridor_scene();
    assert_eq!(network.lane_count(SegmentId(0), Direction::Forward), Some(1));
    assert_eq!(network.lane_count(SegmentId(0), Direction::Backward), Some(0));
    assert_eq!(network.lane_count(SegmentId(5), Direction::Forward), None);
    assert_eq!(
        network.junction_lane_ends(JunctionId(1), JunctionLaneId(0)),
        Some(((SegmentId(0), Direction::Forward, SegmentLaneRank(0)), (SegmentId(1), Direction::Forward, SegmentLaneRank(0))))
    );
    assert_eq!(network.junction_lane_ends(JunctionId(0), JunctionLaneId(0)), None);
}

#[test]
fn arrival_keeps_the_destination_position_across_carriageways() {
    let mut network = Network::new();
    let j1 = network.add_junction(point(0, 0));
    let j2 = network.add_junction(point(1_000_000, 0));
    let (s, seg) = network.add_segment(j1, j2).unwrap();
    seg.add_lane(Direction::Forward);
    seg.add_actor(200_000, Direction::Forward, vec![Agendum::TravelTo { segment_id: s, segment_side: Direction::Backward, pos_param: 700_000 }]);
    network.connect_junctions();
    network = advance(network).unwrap();
    let (loc, actor) = network.placed_actors()[0];
    assert_eq!(loc, Location::OnRoadSegment { segment_id: s, direction: Direction::Forward, rank: SegmentLaneRank(0), pos_param: 200_000 });
    assert_eq!(actor.route_peek(), Some(RouteStep::ArriveAt(700_000)));
}
