use crate::actor::{search_sound, step_spec, ActorContext};
use crate::error::RoutieError;
use crate::flat::lemma_insert_map_to_multiset;
use crate::road::{placed_view, Network, Placement, Topology};
use vstd::multiset::Multiset;
use vstd::prelude::*;
use vstd::seq_lib::group_to_multiset_ensures;

verus! {

/// One actor's tick, on a placement.
pub open spec fn step_of(topo: Topology, placed: Placement) -> Result<Placement, RoutieError> {
    step_spec(topo, placed.0, placed.1)
}

/// Whether every actor of `s` can take its tick.
pub open spec fn all_steps_ok(topo: Topology, s: Seq<Placement>) -> bool {
    forall|i: int| 0 <= i < s.len() ==> (#[trigger] step_of(topo, s[i])) is Ok
}

/// Where the actors of `s` are one tick later, as a bag.
pub open spec fn stepped(topo: Topology, s: Seq<Placement>) -> Multiset<Placement> {
    s.map_values(|placed: Placement| step_of(topo, placed)->Ok_0).to_multiset()
}

/// The network one tick later: every actor of `network_past` advanced once,
/// each reading only `network_past`, written into a network of the same shape.
/// The tick fails, with the error of the first actor (in visiting order) that
/// cannot take it, where any cannot.
pub fn advance(network_past: Network) -> (r: Result<Network, RoutieError>)
    requires
        network_past.wf(),
    ensures
        match r {
            Ok(next) => {
                &&& next.wf()
                &&& next.topology() == network_past.topology()
                &&& all_steps_ok(network_past.topology(), network_past.placements())
                &&& next.occupants() == stepped(network_past.topology(), network_past.placements())
                &&& next.occupants().len() == network_past.occupants().len()
                &&& forall|i: int|
                    0 <= i < network_past.placements().len() ==> search_sound(
                        network_past.topology(),
                        (#[trigger] network_past.placements()[i]).0,
                        network_past.placements()[i].1,
                    )
            },
            Err(e) => exists|i: int|
                {
                    &&& 0 <= i < network_past.placements().len()
                    &&& step_of(network_past.topology(), network_past.placements()[i]) == Err::<Placement, RoutieError>(e)
                    &&& forall|m: int| 0 <= m < i ==> (#[trigger] step_of(network_past.topology(), network_past.placements()[m])) is Ok
                },
        },
{
    broadcast use group_to_multiset_ensures;
    let ghost topo = network_past.topology();
    let mut next = network_past.clone_empty();
    let placed = network_past.placed_actors();
    let ghost s = placed_view(placed@);
    let ghost f = |p: Placement| step_of(topo, p)->Ok_0;
    let mut k: usize = 0;
    while k < placed.len()
        invariant
            k <= placed@.len(),
            s == placed_view(placed@),
            s == network_past.placements(),
            topo == network_past.topology(),
            f == (|p: Placement| step_of(topo, p)->Ok_0),
            next.wf(),
            next.topology() == topo,
            forall|m: int| 0 <= m < k ==> (#[trigger] step_of(topo, s[m])) is Ok,
            forall|m: int| 0 <= m < k ==> search_sound(topo, (#[trigger] s[m]).0, s[m].1),
            next.occupants() == s.take(k as int).map_values(f).to_multiset(),
        decreases placed@.len() - k,
    {
        let ctx = ActorContext { location: placed[k].0, actor: placed[k].1 };
        proof {
            assert(s[k as int] == (ctx.location, ctx.actor@));
        }
        let ghost before = next.occupants();
        match ctx.advance(&mut next) {
            Ok(()) => {},
            Err(e) => {
                return Err(e);
            },
        }
        proof {
            assert(step_of(topo, s[k as int]) is Ok);
            assert(next.occupants() == before.insert(f(s[k as int])));
            assert(s.take(k + 1).map_values(f) =~= s.take(k as int).map_values(f).push(f(s[k as int])));
            s.take(k as int).map_values(f).to_multiset_ensures();
            assert(s.take(k + 1).map_values(f).to_multiset() == s.take(k as int).map_values(f).to_multiset().insert(f(s[k as int])));
        }
        k = k + 1;
    }
    proof {
        assert(s.take(placed@.len() as int) =~= s);
        assert(s.map_values(f).len() == s.len());
    }
    Ok(next)
}

/// The order in which a tick visits its actors does not matter: any two orders
/// of the same actors either both succeed, with the same actors at the same
/// places afterwards, or both fail.
pub proof fn lemma_order_independence(topo: Topology, s1: Seq<Placement>, s2: Seq<Placement>)
    requires
        s1.to_multiset() == s2.to_multiset(),
    ensures
        all_steps_ok(topo, s1) == all_steps_ok(topo, s2),
        stepped(topo, s1) == stepped(topo, s2),
{
    broadcast use group_to_multiset_ensures;
    assert forall|x: Placement| s1.contains(x) <==> s2.contains(x) by {
        assert(s1.contains(x) <==> s1.to_multiset().count(x) > 0);
        assert(s2.contains(x) <==> s2.to_multiset().count(x) > 0);
    }
    if all_steps_ok(topo, s1) {
        assert forall|i: int| 0 <= i < s2.len() implies (#[trigger] step_of(topo, s2[i])) is Ok by {
            assert(s2.contains(s2[i]));
            let k = choose|k: int| 0 <= k < s1.len() && s1[k] == s2[i];
            assert(step_of(topo, s1[k]) is Ok);
        }
    }
    if all_steps_ok(topo, s2) {
        assert forall|i: int| 0 <= i < s1.len() implies (#[trigger] step_of(topo, s1[i])) is Ok by {
            assert(s1.contains(s1[i]));
            let k = choose|k: int| 0 <= k < s2.len() && s2[k] == s1[i];
            assert(step_of(topo, s2[k]) is Ok);
        }
    }
    lemma_stepped_permutation(topo, s1, s2);
}

/// `stepped` depends on the bag of placements alone.
proof fn lemma_stepped_permutation(topo: Topology, s1: Seq<Placement>, s2: Seq<Placement>)
    requires
        s1.to_multiset() == s2.to_multiset(),
    ensures
        stepped(topo, s1) == stepped(topo, s2),
    decreases s1.len(),
{
    broadcast use group_to_multiset_ensures;
    broadcast use vstd::multiset::group_multiset_axioms;
    let f = |p: Placement| step_of(topo, p)->Ok_0;
    if s1.len() == 0 {
        assert(s1.to_multiset().len() == 0);
        assert(s2.len() == s2.to_multiset().len());
        assert(s2.len() == 0);
        assert(s1 =~= s2);
    } else {
        let x = s1.last();
        let t1 = s1.drop_last();
        assert(t1.push(x) =~= s1);
        assert(s1.contains(x));
        assert(s2.to_multiset().count(x) > 0);
        assert(s2.contains(x));
        let k = choose|k: int| 0 <= k < s2.len() && s2[k] == x;
        let t2 = s2.remove(k);
        assert(t2.to_multiset() == s2.to_multiset().remove(x));
        assert(t1.to_multiset() == s1.to_multiset().remove(x)) by {
            assert(s1.to_multiset() == t1.to_multiset().insert(x));
        }
        lemma_stepped_permutation(topo, t1, t2);
        assert(t2.insert(k, x) =~= s2);
        lemma_insert_map_to_multiset(t2, k, x, f);
        assert(s1.map_values(f) =~= t1.map_values(f).push(f(x)));
    }
}

} // verus!
