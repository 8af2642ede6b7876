//! Collisions: which agents touch, how they bounce off each other, and what
//! mass the lighter one hands to the heavier.
//!
//! In one pass an agent takes part in at most one collision: the agents are
//! taken in their order, each with the one other agent nearest to it, and a
//! pair is resolved only while both are still free.

use crate::agent::{radius_of, sight_range_of, Agent, Sensors};
use crate::fixed::{
    div_raw, lemma_div_raw_self, lemma_isqrt_square, lemma_mul_raw_one, lemma_quot_exact, mag,
    mul_raw, sat, Fixed, LIMIT, ONE,
};
use crate::game::{agent_ids, find_agent, lookup, Game, KdTrees};
use crate::spatial::{nearest_answers, IndexEntry, Neighbor};
use crate::vec2::{
    dist2, lemma_dist2_basics, norm2, off_unit, vec_dot, vec_minus, vec_plus, vec_scale, Vec2,
};
use vstd::prelude::*;

verus! {

/// Raw share of its mass that the lighter agent of a collision hands over.
pub const MASS_EXCHANGE_RATE: i64 = 30_000;

/// Raw factor from a velocity after a collision to the step that carries it.
pub const COLLISION_BOUNCE: i64 = 4_000_000;

/// One side of a collision, for whoever wants to react to it.
#[derive(Clone, Copy, Debug, PartialEq, Eq, Structural)]
pub struct CollisionEvent {
    pub agent_id: u32,
    pub other_agent_id: u32,
    pub other_is_guardian: bool,
}

/// A collision of two agents: who they are, which of their sub-bodies
/// touched, and the velocity of each after it.
#[derive(Clone, Copy, Debug, PartialEq, Eq, Structural)]
pub struct AgentCollisionInfo {
    pub agent_id1: u32,
    pub atom_index1: usize,
    pub other_collision_mass1: Fixed,
    pub velocity1: Vec2,
    pub is_guardian1: bool,
    pub agent_id2: u32,
    pub atom_index2: usize,
    pub velocity2: Vec2,
    pub other_collision_mass2: Fixed,
    pub is_guardian2: bool,
}

/// A collision and where in the world its two agents are.
#[derive(Clone, Copy, Debug, PartialEq, Eq, Structural)]
pub struct Contact {
    pub first: usize,
    pub second: usize,
    pub info: AgentCollisionInfo,
}

/// Two agents of raw radii `r1` and `r2` whose centres are at the squared raw
/// distance `dist2` are near enough to be looked at: nearer than their radii
/// together.
pub open spec fn broad_phase(dist2: int, r1: int, r2: int) -> bool {
    let reach = sat(r1 + r2);
    dist2 < reach * reach
}

/// Where sub-body `i` of agent `a` is.
pub open spec fn atom_center(a: Agent, i: int) -> Vec2 {
    vec_plus(a.position, a.body@[i].atom_pos)
}

/// Sub-body `i` of `a` and sub-body `j` of `b` are both in use and their
/// centres are nearer than the two radii together.
pub open spec fn atoms_touch(a: Agent, i: int, b: Agent, j: int) -> bool {
    let reach = sat(a.radius@ + b.radius@);
    &&& 0 <= i < a.body@.len()
    &&& 0 <= j < b.body@.len()
    &&& a.body@[i].is_used
    &&& b.body@[j].is_used
    &&& reach > 0
    &&& dist2(atom_center(a, i), atom_center(b, j)) < reach * reach
}

/// `(i, j)` is the first pair of sub-bodies that touch, taking those of `a`
/// in their order and for each those of `b` in theirs.
pub open spec fn is_first_touch(a: Agent, b: Agent, i: int, j: int) -> bool {
    &&& atoms_touch(a, i, b, j)
    &&& forall|i2: int, j2: int|
        (i2 < i || (i2 == i && j2 < j)) ==> !#[trigger] atoms_touch(a, i2, b, j2)
}

/// Some sub-body of `a` touches some sub-body of `b`.
pub open spec fn touching(a: Agent, b: Agent) -> bool {
    exists|i: int, j: int| atoms_touch(a, i, b, j)
}

/// The velocities after an elastic collision along the line of centres, of a
/// body of raw mass `m1` at `x1` moving with `u1` and one of `m2` at `x2`
/// moving with `u2`: each gives up, along that line, its share of the speed
/// at which they close in; across the line nothing changes. Bodies at one
/// place collide along x; bodies without mass keep their velocities.
pub open spec fn elastic(m1: int, m2: int, u1: Vec2, u2: Vec2, x1: Vec2, x2: Vec2) -> (
    Vec2,
    Vec2,
) {
    let total = sat(m1 + m2);
    if total == 0 {
        (u1, u2)
    } else {
        let line = vec_minus(x1, x2).unit();
        let closing = vec_dot(vec_minus(u1, u2), line);
        let share1 = mul_raw(div_raw(sat(m2 + m2), total), closing);
        let share2 = mul_raw(div_raw(sat(m1 + m1), total), closing);
        (vec_minus(u1, vec_scale(line, share1)), vec_plus(u2, vec_scale(line, share2)))
    }
}

/// The raw mass that the first of two colliding agents gains (or, negative,
/// loses): the lighter of the two hands a fixed share of its mass to the
/// heavier one; of two equal ones the first is the lighter.
pub open spec fn exchange(m1: int, m2: int) -> int {
    if m1 > m2 {
        mul_raw(m2, MASS_EXCHANGE_RATE as int)
    } else {
        sat(-mul_raw(m1, MASS_EXCHANGE_RATE as int))
    }
}

/// The agent `a` after a collision that leaves it with `velocity` and the
/// mass `new_mass`, against an agent of mass `other_mass`: its last position
/// is set back so that the next step of motion carries the velocity, and its
/// radius and ranges follow the new mass.
pub open spec fn struck(a: Agent, velocity: Vec2, other_mass: Fixed, new_mass: Fixed) -> Agent {
    Agent {
        last_position: vec_minus(a.position, vec_scale(velocity, COLLISION_BOUNCE as int)),
        just_collided: true,
        other_collider_mass: other_mass,
        previous_mass: a.mass,
        mass: new_mass,
        radius: Fixed { raw: radius_of(new_mass@) as i64 },
        sensors: Sensors {
            sight_range: Fixed { raw: sight_range_of(radius_of(new_mass@)) as i64 },
            hearing_range: Fixed { raw: sight_range_of(radius_of(new_mass@)) as i64 },
            ..a.sensors
        },
        ..a
    }
}

/// The first agent `a` of a collision with `b`, after it.
pub open spec fn hit_first(a: Agent, b: Agent) -> Agent {
    struck(
        a,
        elastic(a.mass@, b.mass@, a.velocity, b.velocity, a.position, b.position).0,
        b.mass,
        Fixed { raw: sat(a.mass@ + exchange(a.mass@, b.mass@)) as i64 },
    )
}

/// The second agent `b` of a collision with `a`, after it.
pub open spec fn hit_second(a: Agent, b: Agent) -> Agent {
    struck(
        b,
        elastic(a.mass@, b.mass@, a.velocity, b.velocity, a.position, b.position).1,
        a.mass,
        Fixed { raw: sat(b.mass@ - exchange(a.mass@, b.mass@)) as i64 },
    )
}

/// What is noted of a collision of `a` with `b` in which their sub-bodies
/// `atom1` and `atom2` touched.
pub open spec fn info_of(a: Agent, b: Agent, atom1: usize, atom2: usize) -> AgentCollisionInfo {
    let after = elastic(a.mass@, b.mass@, a.velocity, b.velocity, a.position, b.position);
    AgentCollisionInfo {
        agent_id1: a.id,
        atom_index1: atom1,
        other_collision_mass1: b.mass,
        velocity1: after.0,
        is_guardian1: a.is_guardian,
        agent_id2: b.id,
        atom_index2: atom2,
        velocity2: after.1,
        other_collision_mass2: a.mass,
        is_guardian2: b.is_guardian,
    }
}

/// The first of the answers `near` that is not about `id`.
pub open spec fn first_other(near: Seq<Neighbor>, id: u32) -> Option<Neighbor> {
    if near.len() >= 1 && near[0].id != id {
        Some(near[0])
    } else if near.len() >= 2 && near[1].id != id {
        Some(near[1])
    } else {
        None
    }
}

/// The agent that agent `i` collides with if both are free: the other agent
/// nearest to it in an index of `entries`, if that one is in the world, near
/// enough, and touches it.
pub open spec fn candidate(agents: Seq<Agent>, entries: Seq<IndexEntry>, i: int) -> Option<int> {
    let a = agents[i];
    if !a.position.finite() {
        None
    } else {
        match first_other(nearest_answers(entries, a.position, 2), a.id) {
            None => None,
            Some(nb) => match lookup(agents, nb.id) {
                None => None,
                Some(j) => if broad_phase(nb.dist2 as int, a.radius@, agents[j].radius@) && touching(
                    a,
                    agents[j],
                ) {
                    Some(j)
                } else {
                    None
                },
            },
        }
    }
}

/// Agent `t` takes part in one of `pairs`.
pub open spec fn involved(pairs: Seq<(int, int)>, t: int) -> bool {
    exists|p: int| 0 <= p < pairs.len() && (#[trigger] pairs[p].0 == t || pairs[p].1 == t)
}

/// The collisions among the first `upto` agents and their nearest
/// neighbours: the agents are taken in their order, and one collides with
/// its candidate if neither takes part in a collision found before.
pub open spec fn resolved_pairs(agents: Seq<Agent>, entries: Seq<IndexEntry>, upto: int) -> Seq<
    (int, int),
>
    decreases upto,
{
    if upto <= 0 {
        Seq::empty()
    } else {
        let before = resolved_pairs(agents, entries, upto - 1);
        match candidate(agents, entries, upto - 1) {
            Some(j) => if involved(before, upto - 1) || involved(before, j) {
                before
            } else {
                before.push((upto - 1, j))
            },
            None => before,
        }
    }
}

/// `contact` is the collision of the pair `pair` of `agents`.
pub open spec fn is_contact(agents: Seq<Agent>, contact: Contact, pair: (int, int)) -> bool {
    &&& contact.first == pair.0
    &&& contact.second == pair.1
    &&& is_first_touch(
        agents[pair.0],
        agents[pair.1],
        contact.info.atom_index1 as int,
        contact.info.atom_index2 as int,
    )
    &&& contact.info == info_of(
        agents[pair.0],
        agents[pair.1],
        contact.info.atom_index1,
        contact.info.atom_index2,
    )
}

/// The events of the collisions `pairs` of `agents`: two for each, the first
/// agent's side and then the second's.
pub open spec fn events_of(agents: Seq<Agent>, pairs: Seq<(int, int)>) -> Seq<CollisionEvent> {
    Seq::new(
        2 * pairs.len(),
        |e: int|
            {
                let pair = pairs[e / 2];
                if e % 2 == 0 {
                    CollisionEvent {
                        agent_id: agents[pair.0].id,
                        other_agent_id: agents[pair.1].id,
                        other_is_guardian: agents[pair.1].is_guardian,
                    }
                } else {
                    CollisionEvent {
                        agent_id: agents[pair.1].id,
                        other_agent_id: agents[pair.0].id,
                        other_is_guardian: agents[pair.0].is_guardian,
                    }
                }
            },
    )
}

/// In `pairs` every place is that of an agent, no agent collides with itself,
/// and no agent takes part in two collisions.
pub open spec fn pairs_disjoint(pairs: Seq<(int, int)>, n: int) -> bool {
    &&& forall|p: int|
        0 <= p < pairs.len() ==> 0 <= (#[trigger] pairs[p]).0 < n && 0 <= pairs[p].1 < n
            && pairs[p].0 != pairs[p].1
    &&& forall|p: int, q: int|
        0 <= p < q < pairs.len() ==> (#[trigger] pairs[p]).0 != (#[trigger] pairs[q]).0
            && pairs[p].0 != pairs[q].1 && pairs[p].1 != pairs[q].0 && pairs[p].1 != pairs[q].1
}

/// No two of `events` are about the same agent.
#[verifier::opaque]
pub open spec fn each_agent_once(events: Seq<CollisionEvent>) -> bool {
    forall|e: int, f: int|
        0 <= e < f < events.len() ==> (#[trigger] events[e]).agent_id != (#[trigger] events[f]).agent_id
}

/// Of the events of one pass no two are about the same agent, in a world
/// without two agents of one id.
pub proof fn lemma_each_agent_once(agents: Seq<Agent>, pairs: Seq<(int, int)>)
    requires
        pairs_disjoint(pairs, agents.len() as int),
        agent_ids(agents).no_duplicates(),
    ensures
        each_agent_once(events_of(agents, pairs)),
{
    reveal(each_agent_once);
    let events = events_of(agents, pairs);
    let ids = agent_ids(agents);
    assert forall|e: int, f: int| 0 <= e < f < events.len() implies (#[trigger] events[e]).agent_id
        != (#[trigger] events[f]).agent_id by {
        let p = e / 2;
        let q = f / 2;
        let a = if e % 2 == 0 {
            pairs[p].0
        } else {
            pairs[p].1
        };
        let b = if f % 2 == 0 {
            pairs[q].0
        } else {
            pairs[q].1
        };
        assert(0 <= pairs[p].0 < agents.len() && 0 <= pairs[p].1 < agents.len());
        assert(0 <= pairs[q].0 < agents.len() && 0 <= pairs[q].1 < agents.len());
        if p == q {
            assert(pairs[p].0 != pairs[p].1);
        } else {
            assert(pairs[p].0 != pairs[q].0 && pairs[p].0 != pairs[q].1);
            assert(pairs[p].1 != pairs[q].0 && pairs[p].1 != pairs[q].1);
        }
        assert(a != b);
        assert(ids[a] != ids[b]);
        assert(events[e].agent_id == agents[a].id);
        assert(events[f].agent_id == agents[b].id);
    }
}

/// The candidate of an agent is another agent of the world.
pub proof fn lemma_candidate(agents: Seq<Agent>, entries: Seq<IndexEntry>, i: int)
    requires
        0 <= i < agents.len(),
    ensures
        candidate(agents, entries, i) is Some ==> 0 <= candidate(agents, entries, i)->Some_0
            < agents.len() && candidate(agents, entries, i)->Some_0 != i,
{
    let a = agents[i];
    if candidate(agents, entries, i) is Some {
        let nb = first_other(nearest_answers(entries, a.position, 2), a.id)->Some_0;
        agent_ids(agents).index_of_first_ensures(nb.id);
    }
}

/// No agent takes part in two of the collisions of one pass.
pub proof fn lemma_no_double_collision(agents: Seq<Agent>, entries: Seq<IndexEntry>, upto: int)
    requires
        0 <= upto <= agents.len(),
    ensures
        pairs_disjoint(resolved_pairs(agents, entries, upto), agents.len() as int),
        forall|t: int| involved(resolved_pairs(agents, entries, upto), t) ==> 0 <= t < agents.len(),
    decreases upto,
{
    let pairs = resolved_pairs(agents, entries, upto);
    if upto > 0 {
        let before = resolved_pairs(agents, entries, upto - 1);
        lemma_no_double_collision(agents, entries, upto - 1);
        lemma_candidate(agents, entries, upto - 1);
        if pairs != before {
            let j = candidate(agents, entries, upto - 1)->Some_0;
            let i = upto - 1;
            assert(pairs == before.push((i, j)));
            assert forall|p: int, q: int| 0 <= p < q < pairs.len() implies (#[trigger] pairs[p]).0
                != (#[trigger] pairs[q]).0 && pairs[p].0 != pairs[q].1 && pairs[p].1 != pairs[q].0
                && pairs[p].1 != pairs[q].1 by {
                if q == before.len() {
                    assert(before[p] == pairs[p]);
                    assert(!involved(before, i));
                    assert(!involved(before, j));
                } else {
                    assert(before[p] == pairs[p] && before[q] == pairs[q]);
                }
            }
            assert forall|p: int| 0 <= p < pairs.len() implies 0 <= (#[trigger] pairs[p]).0
                < agents.len() && 0 <= pairs[p].1 < agents.len() && pairs[p].0 != pairs[p].1 by {
                if p < before.len() {
                    assert(before[p] == pairs[p]);
                }
            }
        }
        assert forall|t: int| involved(pairs, t) implies 0 <= t < agents.len() by {
            let p = choose|p: int| 0 <= p < pairs.len() && (#[trigger] pairs[p].0 == t || pairs[p].1
                == t);
            assert(0 <= pairs[p].0 < agents.len());
        }
    } else {
        assert forall|t: int| involved(pairs, t) implies 0 <= t < agents.len() by {
            let p = choose|p: int| 0 <= p < pairs.len() && (#[trigger] pairs[p].0 == t || pairs[p].1
                == t);
        }
    }
}

/// The heavier of the raw masses `m1` and `m2` can take what the lighter one
/// hands over: with it, it stays on this side of the rail.
pub open spec fn can_take(m1: int, m2: int) -> bool {
    if m1 > m2 {
        m1 + mul_raw(m2, MASS_EXCHANGE_RATE as int) <= LIMIT
    } else {
        m2 + mul_raw(m1, MASS_EXCHANGE_RATE as int) <= LIMIT
    }
}

/// A collision leaves the two masses together as they were if the heavier
/// one can take what it is handed, and only then.
pub proof fn lemma_mass_is_conserved(m1: int, m2: int)
    requires
        0 < m1 <= LIMIT,
        0 < m2 <= LIMIT,
    ensures
        sat(m1 + exchange(m1, m2)) + sat(m2 - exchange(m1, m2)) == m1 + m2 <==> can_take(m1, m2),
        0 < sat(m1 + exchange(m1, m2)),
        0 < sat(m2 - exchange(m1, m2)),
{
    lemma_share(m1);
    lemma_share(m2);
}

/// What a collision takes from the one agent it gives to the other: the two
/// masses together are after it what they were before, if the heavier one
/// can take what it is handed.
pub proof fn lemma_exchange_conserves_mass(a: Agent, b: Agent)
    requires
        a.wf(),
        b.wf(),
        can_take(a.mass@, b.mass@),
    ensures
        hit_first(a, b).mass@ + hit_second(a, b).mass@ == a.mass@ + b.mass@,
        hit_first(a, b).mass@ - a.mass@ == b.mass@ - hit_second(a, b).mass@,
{
    lemma_mass_is_conserved(a.mass@, b.mass@);
}

/// The raw masses of the first `upto` of `agents`, taken together.
pub open spec fn total_mass(agents: Seq<Agent>, upto: int) -> int
    decreases upto,
{
    if upto <= 0 {
        0
    } else {
        total_mass(agents, upto - 1) + agents[upto - 1].mass@
    }
}

/// Where `b` differs from `a` in the masses of two agents only, the masses
/// of the first `upto` differ by what these two have gained.
proof fn lemma_total_mass_of_two(a: Seq<Agent>, b: Seq<Agent>, i: int, j: int, upto: int)
    requires
        a.len() == b.len(),
        0 <= i < a.len(),
        0 <= j < a.len(),
        i != j,
        0 <= upto <= a.len(),
        forall|t: int| 0 <= t < a.len() && t != i && t != j ==> (#[trigger] b[t]).mass == a[t].mass,
    ensures
        total_mass(b, upto) - total_mass(a, upto) == (if i < upto {
            b[i].mass@ - a[i].mass@
        } else {
            0
        }) + (if j < upto {
            b[j].mass@ - a[j].mass@
        } else {
            0
        }),
    decreases upto,
{
    if upto > 0 {
        lemma_total_mass_of_two(a, b, i, j, upto - 1);
        if upto - 1 != i && upto - 1 != j {
            assert(b[upto - 1].mass == a[upto - 1].mass);
        }
    }
}

/// The agents `before` with those of the first `p` of `pairs` as they are in
/// `after`.
spec fn partly(before: Seq<Agent>, after: Seq<Agent>, pairs: Seq<(int, int)>, p: int) -> Seq<
    Agent,
> {
    Seq::new(
        before.len(),
        |t: int|
            if involved_upto(pairs, p, t) {
                after[t]
            } else {
                before[t]
            },
    )
}

/// Where the two agents of each of `pairs` have together the mass that they
/// had, the first `p` of the pairs leave the masses of all agents together
/// as they were.
proof fn lemma_partly_conserves_mass(
    before: Seq<Agent>,
    after: Seq<Agent>,
    pairs: Seq<(int, int)>,
    p: int,
)
    requires
        after.len() == before.len(),
        pairs_disjoint(pairs, before.len() as int),
        forall|q: int|
            0 <= q < pairs.len() ==> after[(#[trigger] pairs[q]).0].mass@ + after[pairs[q].1].mass@
                == before[pairs[q].0].mass@ + before[pairs[q].1].mass@,
        0 <= p <= pairs.len(),
    ensures
        total_mass(partly(before, after, pairs, p), before.len() as int) == total_mass(
            before,
            before.len() as int,
        ),
    decreases p,
{
    let n = before.len() as int;
    let now = partly(before, after, pairs, p);
    if p == 0 {
        assert forall|t: int| 0 <= t < n implies now[t] == before[t] by {
            assert(!involved_upto(pairs, 0, t));
        }
        assert(now =~= before);
    } else {
        lemma_partly_conserves_mass(before, after, pairs, p - 1);
        let mid = partly(before, after, pairs, p - 1);
        let i = pairs[p - 1].0;
        let j = pairs[p - 1].1;
        assert(0 <= i < n && 0 <= j < n && i != j);
        assert(!involved_upto(pairs, p - 1, i)) by {
            if involved_upto(pairs, p - 1, i) {
                let q = choose|q: int|
                    0 <= q < p - 1 && q < pairs.len() && (#[trigger] pairs[q].0 == i || pairs[q].1
                        == i);
                assert(pairs[q].0 != pairs[p - 1].0 && pairs[q].1 != pairs[p - 1].0);
            }
        }
        assert(!involved_upto(pairs, p - 1, j)) by {
            if involved_upto(pairs, p - 1, j) {
                let q = choose|q: int|
                    0 <= q < p - 1 && q < pairs.len() && (#[trigger] pairs[q].0 == j || pairs[q].1
                        == j);
                assert(pairs[q].0 != pairs[p - 1].1 && pairs[q].1 != pairs[p - 1].1);
            }
        }
        assert(involved_upto(pairs, p, i) && involved_upto(pairs, p, j)) by {
            assert(pairs[p - 1].0 == i || pairs[p - 1].1 == i);
            assert(pairs[p - 1].0 == j || pairs[p - 1].1 == j);
        }
        assert forall|t: int| 0 <= t < n && t != i && t != j implies (#[trigger] now[t]).mass
            == mid[t].mass by {
            if involved_upto(pairs, p, t) {
                let q = choose|q: int|
                    0 <= q < p && q < pairs.len() && (#[trigger] pairs[q].0 == t || pairs[q].1
                        == t);
                assert(q != p - 1);
                assert(involved_upto(pairs, p - 1, t));
            }
            if involved_upto(pairs, p - 1, t) {
                let q = choose|q: int|
                    0 <= q < p - 1 && q < pairs.len() && (#[trigger] pairs[q].0 == t || pairs[q].1
                        == t);
                assert(involved_upto(pairs, p, t));
            }
        }
        assert(mid[i] == before[i] && mid[j] == before[j]);
        assert(now[i] == after[i] && now[j] == after[j]);
        lemma_total_mass_of_two(mid, now, i, j, n);
    }
}

/// In every one of the collisions `pairs` of `agents` the heavier agent can
/// take what the lighter one hands over.
pub open spec fn all_can_take(agents: Seq<Agent>, pairs: Seq<(int, int)>) -> bool {
    forall|p: int|
        0 <= p < pairs.len() ==> can_take(
            agents[(#[trigger] pairs[p]).0].mass@,
            agents[pairs[p].1].mass@,
        )
}

/// A pass of collisions takes no mass out of the world and brings none in:
/// what the one agent of a collision loses the other gains, and so the masses
/// of all agents together are after the pass what they were before it. This
/// holds where in every collision the heavier agent can take what it is
/// handed; an agent at the rail cannot.
pub proof fn lemma_collisions_conserve_mass(
    before: Seq<Agent>,
    entries: Seq<IndexEntry>,
    after: Seq<Agent>,
    events: Seq<CollisionEvent>,
)
    requires
        collided(before, entries, after, events),
        forall|t: int| 0 <= t < before.len() ==> (#[trigger] before[t]).wf(),
        all_can_take(before, resolved_pairs(before, entries, before.len() as int)),
    ensures
        forall|p: int|
            0 <= p < resolved_pairs(before, entries, before.len() as int).len() ==> {
                let pair = #[trigger] resolved_pairs(before, entries, before.len() as int)[p];
                after[pair.0].mass@ + after[pair.1].mass@ == before[pair.0].mass@
                    + before[pair.1].mass@
            },
        total_mass(after, before.len() as int) == total_mass(before, before.len() as int),
{
    let n = before.len() as int;
    let pairs = resolved_pairs(before, entries, n);
    assert forall|p: int| 0 <= p < pairs.len() implies {
        let pair = #[trigger] pairs[p];
        after[pair.0].mass@ + after[pair.1].mass@ == before[pair.0].mass@ + before[pair.1].mass@
    } by {
        assert(0 <= pairs[p].0 < n && 0 <= pairs[p].1 < n);
        assert(can_take(before[pairs[p].0].mass@, before[pairs[p].1].mass@));
        lemma_exchange_conserves_mass(before[pairs[p].0], before[pairs[p].1]);
    }
    lemma_partly_conserves_mass(before, after, pairs, pairs.len() as int);
    let last = partly(before, after, pairs, pairs.len() as int);
    assert forall|t: int| 0 <= t < n implies last[t] == after[t] by {
        if !involved_upto(pairs, pairs.len() as int, t) {
            if involved(pairs, t) {
                let q = choose|q: int|
                    0 <= q < pairs.len() && (#[trigger] pairs[q].0 == t || pairs[q].1 == t);
                assert(involved_upto(pairs, pairs.len() as int, t));
            }
            assert(after[t] == before[t]);
        }
    }
    assert(last =~= after);
}

/// Raw bound on the coordinates of two velocities below which a collision
/// computes without reaching a rail.
pub const CALM: i64 = 0x0800_0000_0000_0000;

/// Two bodies of one mass leave a collision with the same velocities taken
/// together that they came with, wherever they are and whichever way they
/// move: what the one gives up along the line of centres the other takes.
pub proof fn lemma_equal_masses_keep_momentum(m: int, u1: Vec2, u2: Vec2, x1: Vec2, x2: Vec2)
    requires
        -CALM <= u1.x@ <= CALM,
        -CALM <= u1.y@ <= CALM,
        -CALM <= u2.x@ <= CALM,
        -CALM <= u2.y@ <= CALM,
    ensures
        ({
            let after = elastic(m, m, u1, u2, x1, x2);
            &&& after.0.x@ + after.1.x@ == u1.x@ + u2.x@
            &&& after.0.y@ + after.1.y@ == u1.y@ + u2.y@
        }),
{
    let total = sat(m + m);
    if total != 0 {
        let line = vec_minus(x1, x2).unit();
        crate::vec2::lemma_unit_bound(vec_minus(x1, x2));
        let closing_in = vec_minus(u1, u2);
        let closing = vec_dot(closing_in, line);
        crate::fixed::lemma_mul_raw_bound(closing_in.x@, line.x@);
        crate::fixed::lemma_mul_raw_bound(closing_in.y@, line.y@);
        assert(mag(closing) <= mag(closing_in.x@) + mag(closing_in.y@));
        lemma_div_raw_self(total);
        lemma_mul_raw_one(closing);
        let share = mul_raw(div_raw(total, total), closing);
        assert(share == closing);
        crate::fixed::lemma_mul_raw_bound(share, line.x@);
        crate::fixed::lemma_mul_raw_bound(share, line.y@);
        let tx = mul_raw(line.x@, share);
        let ty = mul_raw(line.y@, share);
        assert(mag(tx) <= 4 * CALM && mag(ty) <= 4 * CALM);
    }
}

/// The arithmetic of a head-on rebound along one coordinate. With a line of
/// centres `(lx, ly)`, a velocity `(ux, uy)` that is `s` times the line, the
/// two parts `c1` and `c2` of the closing speed, and `tx` that much of the
/// line, each rounded by less than one of the unit `t`: what is taken from
/// the velocity is twice the velocity, but for the roundings and for how far
/// the line is from the length one.
proof fn lemma_rebound_arith(
    t: int,
    lx: int,
    ly: int,
    s: int,
    ux: int,
    uy: int,
    c1: int,
    c2: int,
    tx: int,
)
    requires
        t > 0,
        -t <= lx <= t,
        -t <= ly <= t,
        -t < ux * t - lx * s < t,
        -t < uy * t - ly * s < t,
        -t < c1 * t - (ux + ux) * lx < t,
        -t < c2 * t - (uy + uy) * ly < t,
        -t < tx * t - lx * (c1 + c2) < t,
    ensures
        mag(ux + ux - tx) * t * t < 9 * t * t + 2 * (mag(s) * mag(lx * lx + ly * ly - t * t)),
{
    let ex = ux * t - lx * s;
    let ey = uy * t - ly * s;
    let p = (ux + ux) * lx;
    let q = (uy + uy) * ly;
    let f1 = c1 * t - p;
    let f2 = c2 * t - q;
    let c = c1 + c2;
    let g = tx * t - lx * c;
    let n = lx * lx + ly * ly;
    let e = n - t * t;
    let k = lx * s;
    let ktt = k * t * t;
    let w = c * t;
    let z = w * t;
    let inner = 2 * (lx * ex) + 2 * (ly * ey) + (f1 + f2) * t;
    let a3 = (ux + ux) * t * t * t;
    let b3 = tx * t * t * t;
    let d = (ux + ux - tx) * t * t * t;
    let t1 = k * e;
    let t2 = ex * t * t;
    let t3 = lx * inner;
    let t4 = g * t * t;
    assert(d == a3 - b3) by (nonlinear_arith)
        requires
            d == (ux + ux - tx) * t * t * t,
            a3 == (ux + ux) * t * t * t,
            b3 == tx * t * t * t,
    ;
    assert(a3 == 2 * ktt + 2 * t2) by (nonlinear_arith)
        requires
            a3 == (ux + ux) * t * t * t,
            ex == ux * t - k,
            t2 == ex * t * t,
            ktt == k * t * t,
    ;
    assert(w == p + q + f1 + f2) by (nonlinear_arith)
        requires
            w == (c1 + c2) * t,
            f1 == c1 * t - p,
            f2 == c2 * t - q,
    ;
    let px = 2 * (lx * lx * s) + 2 * (lx * ex);
    let qy = 2 * (ly * ly * s) + 2 * (ly * ey);
    assert(p * t == px) by (nonlinear_arith)
        requires
            p == (ux + ux) * lx,
            ex == ux * t - lx * s,
            px == 2 * (lx * lx * s) + 2 * (lx * ex),
    ;
    assert(q * t == qy) by (nonlinear_arith)
        requires
            q == (uy + uy) * ly,
            ey == uy * t - ly * s,
            qy == 2 * (ly * ly * s) + 2 * (ly * ey),
    ;
    assert(z == px + qy + (f1 + f2) * t) by (nonlinear_arith)
        requires
            z == w * t,
            w == p + q + f1 + f2,
            p * t == px,
            q * t == qy,
    ;
    assert(b3 == lx * z + t4) by (nonlinear_arith)
        requires
            b3 == tx * t * t * t,
            g == tx * t - lx * c,
            w == c * t,
            z == w * t,
            t4 == g * t * t,
    ;
    let kn = k * n;
    assert(lx * z == 2 * kn + t3) by (nonlinear_arith)
        requires
            z == 2 * (lx * lx * s) + 2 * (ly * ly * s) + inner,
            k == lx * s,
            n == lx * lx + ly * ly,
            kn == k * n,
            t3 == lx * inner,
    ;
    assert(ktt - kn == -t1) by (nonlinear_arith)
        requires
            t1 == k * e,
            e == n - t * t,
            ktt == k * t * t,
            kn == k * n,
    ;
    assert(d == 2 * t2 - 2 * t1 - t3 - t4);
    let se = mag(s) * mag(e);
    let r = (t - 1) * t;
    assert(mag(t1) <= t * se) by (nonlinear_arith)
        requires
            t1 == k * e,
            k == lx * s,
            se == mag(s) * mag(e),
            -t <= lx <= t,
    ;
    assert(mag(t2) <= r * t) by (nonlinear_arith)
        requires
            t2 == ex * t * t,
            r == (t - 1) * t,
            -t < ex < t,
            t > 0,
    ;
    assert(mag(lx * ex) <= r) by (nonlinear_arith)
        requires
            r == (t - 1) * t,
            -t <= lx <= t,
            -t < ex < t,
            t > 0,
    ;
    assert(mag(ly * ey) <= r) by (nonlinear_arith)
        requires
            r == (t - 1) * t,
            -t <= ly <= t,
            -t < ey < t,
            t > 0,
    ;
    assert(mag((f1 + f2) * t) <= 2 * r) by (nonlinear_arith)
        requires
            r == (t - 1) * t,
            -t < f1 < t,
            -t < f2 < t,
            t > 0,
    ;
    assert(mag(inner) <= 6 * r);
    assert(mag(t3) <= 6 * (r * t)) by (nonlinear_arith)
        requires
            t3 == lx * inner,
            -t <= lx <= t,
            mag(inner) <= 6 * r,
            r >= 0,
            t > 0,
    ;
    assert(mag(t4) <= r * t) by (nonlinear_arith)
        requires
            t4 == g * t * t,
            r == (t - 1) * t,
            -t < g < t,
            t > 0,
    ;
    assert(mag(d) <= 2 * (t * se) + 9 * (r * t));
    let m = mag(ux + ux - tx);
    assert(mag(d) == m * t * t * t) by (nonlinear_arith)
        requires
            d == (ux + ux - tx) * t * t * t,
            m == mag(ux + ux - tx),
            t > 0,
    ;
    assert(m * t * t < 9 * t * t + 2 * se) by (nonlinear_arith)
        requires
            m * t * t * t <= 2 * (t * se) + 9 * (r * t),
            r == (t - 1) * t,
            t > 0,
    ;
}

/// Two bodies of one mass that meet head-on, with the opposite velocities
/// `s` and `-s` along their line of centres, whichever way that line lies,
/// leave with their velocities nearly exchanged. Each coordinate of each
/// velocity is off the negative of what the body came with by less than nine
/// raw units and twice the speed times how far the line of centres, as it is
/// computed, is from the length one.
pub proof fn lemma_head_on(m: int, s: int, x1: Vec2, x2: Vec2)
    requires
        0 < m,
        m + m <= LIMIT,
        -CALM <= s <= CALM,
    ensures
        ({
            let line = vec_minus(x1, x2).unit();
            let u1 = vec_scale(line, s);
            let u2 = vec_scale(line, -s);
            let after = elastic(m, m, u1, u2, x1, x2);
            let slack = 9 * ONE * ONE + 2 * (mag(s) * off_unit(line));
            &&& mag(after.0.x@ + u1.x@) * ONE * ONE < slack
            &&& mag(after.0.y@ + u1.y@) * ONE * ONE < slack
            &&& mag(after.1.x@ + u2.x@) * ONE * ONE < slack
            &&& mag(after.1.y@ + u2.y@) * ONE * ONE < slack
        }),
{
    let t = ONE as int;
    let line = vec_minus(x1, x2).unit();
    let lx = line.x@;
    let ly = line.y@;
    let ux = mul_raw(lx, s);
    let uy = mul_raw(ly, s);
    let c1 = mul_raw(ux + ux, lx);
    let c2 = mul_raw(uy + uy, ly);
    let tx = mul_raw(lx, c1 + c2);
    let ty = mul_raw(ly, c1 + c2);
    lemma_head_on_parts(m, s, x1, x2);
    assert(-t < ux * t - lx * s < t && -t < uy * t - ly * s < t) by {
        crate::fixed::lemma_mul_raw_near(s, lx);
        crate::fixed::lemma_mul_raw_near(s, ly);
        assert(s * lx == lx * s && s * ly == ly * s) by (nonlinear_arith);
    }
    assert(-t < c1 * t - (ux + ux) * lx < t && -t < c2 * t - (uy + uy) * ly < t) by {
        crate::fixed::lemma_mul_raw_near(ux + ux, lx);
        crate::fixed::lemma_mul_raw_near(uy + uy, ly);
    }
    assert(-t < tx * t - lx * (c1 + c2) < t && -t < ty * t - ly * (c2 + c1) < t) by {
        crate::fixed::lemma_mul_raw_near(c1 + c2, lx);
        crate::fixed::lemma_mul_raw_near(c1 + c2, ly);
        assert((c1 + c2) * lx == lx * (c1 + c2) && (c1 + c2) * ly == ly * (c2 + c1))
            by (nonlinear_arith);
    }
    lemma_rebound_arith(t, lx, ly, s, ux, uy, c1, c2, tx);
    lemma_rebound_arith(t, ly, lx, s, uy, ux, c2, c1, ty);
    assert(ly * ly + lx * lx - t * t == lx * lx + ly * ly - t * t);
}

/// The parts of a head-on collision of two bodies of one mass: nothing in it
/// reaches a rail, and each body leaves with its velocity less the closing
/// speed along the line of centres.
proof fn lemma_head_on_parts(m: int, s: int, x1: Vec2, x2: Vec2)
    requires
        0 < m,
        m + m <= LIMIT,
        -CALM <= s <= CALM,
    ensures
        ({
            let line = vec_minus(x1, x2).unit();
            let ux = mul_raw(line.x@, s);
            let uy = mul_raw(line.y@, s);
            let c = mul_raw(ux + ux, line.x@) + mul_raw(uy + uy, line.y@);
            let tx = mul_raw(line.x@, c);
            let ty = mul_raw(line.y@, c);
            let u1 = vec_scale(line, s);
            let u2 = vec_scale(line, -s);
            let after = elastic(m, m, u1, u2, x1, x2);
            &&& -ONE <= line.x@ <= ONE
            &&& -ONE <= line.y@ <= ONE
            &&& -LIMIT <= ux + ux <= LIMIT
            &&& -LIMIT <= uy + uy <= LIMIT
            &&& -LIMIT <= c <= LIMIT
            &&& after.0.x@ + u1.x@ == ux + ux - tx
            &&& after.0.y@ + u1.y@ == uy + uy - ty
            &&& after.1.x@ + u2.x@ == tx - ux - ux
            &&& after.1.y@ + u2.y@ == ty - uy - uy
        }),
{
    let gap = vec_minus(x1, x2);
    let line = gap.unit();
    crate::vec2::lemma_unit_bound(gap);
    let u1 = vec_scale(line, s);
    let u2 = vec_scale(line, -s);
    lemma_opposite_velocities(line, s);
    lemma_equal_masses_part(m, u1, u2, x1, x2);
}

/// The velocities `s` and `-s` along `line` are each other's negatives, and
/// no faster than `s`.
proof fn lemma_opposite_velocities(line: Vec2, s: int)
    requires
        -ONE <= line.x@ <= ONE,
        -ONE <= line.y@ <= ONE,
        -LIMIT <= s <= LIMIT,
    ensures
        vec_scale(line, s).x@ == mul_raw(line.x@, s),
        vec_scale(line, s).y@ == mul_raw(line.y@, s),
        vec_scale(line, -s).x@ == -mul_raw(line.x@, s),
        vec_scale(line, -s).y@ == -mul_raw(line.y@, s),
        mag(mul_raw(line.x@, s)) <= mag(s),
        mag(mul_raw(line.y@, s)) <= mag(s),
{
    crate::fixed::lemma_mul_raw_bound(s, line.x@);
    crate::fixed::lemma_mul_raw_bound(s, line.y@);
    crate::fixed::lemma_mul_raw_odd(line.x@, s);
    crate::fixed::lemma_mul_raw_odd(line.y@, s);
}

/// What two bodies of one mass give and take in a collision: the speed at
/// which they close in, along the line of centres. Nothing in it reaches a
/// rail while the velocities are calm.
proof fn lemma_equal_masses_part(m: int, u1: Vec2, u2: Vec2, x1: Vec2, x2: Vec2)
    requires
        0 < m,
        m + m <= LIMIT,
        -CALM <= u1.x@ <= CALM,
        -CALM <= u1.y@ <= CALM,
        -CALM <= u2.x@ <= CALM,
        -CALM <= u2.y@ <= CALM,
    ensures
        ({
            let line = vec_minus(x1, x2).unit();
            let closing = mul_raw(u1.x@ - u2.x@, line.x@) + mul_raw(u1.y@ - u2.y@, line.y@);
            let after = elastic(m, m, u1, u2, x1, x2);
            &&& -LIMIT <= closing <= LIMIT
            &&& after.0.x@ == u1.x@ - mul_raw(line.x@, closing)
            &&& after.0.y@ == u1.y@ - mul_raw(line.y@, closing)
            &&& after.1.x@ == u2.x@ + mul_raw(line.x@, closing)
            &&& after.1.y@ == u2.y@ + mul_raw(line.y@, closing)
        }),
{
    let total = sat(m + m);
    let line = vec_minus(x1, x2).unit();
    crate::vec2::lemma_unit_bound(vec_minus(x1, x2));
    let closing_in = vec_minus(u1, u2);
    let closing = vec_dot(closing_in, line);
    crate::fixed::lemma_mul_raw_bound(closing_in.x@, line.x@);
    crate::fixed::lemma_mul_raw_bound(closing_in.y@, line.y@);
    assert(mag(closing) <= mag(closing_in.x@) + mag(closing_in.y@));
    lemma_div_raw_self(total);
    lemma_mul_raw_one(closing);
    let share = mul_raw(div_raw(total, total), closing);
    assert(share == closing);
    crate::fixed::lemma_mul_raw_bound(share, line.x@);
    crate::fixed::lemma_mul_raw_bound(share, line.y@);
    let tx = mul_raw(line.x@, share);
    let ty = mul_raw(line.y@, share);
    assert(mag(tx) <= 4 * CALM && mag(ty) <= 4 * CALM);
}

/// Two bodies of one mass that meet head-on along x, with opposite
/// velocities, leave with their velocities exchanged: each with the negative
/// of what it came with.
pub proof fn lemma_head_on_along_x(m: int, u: int, x1: Vec2, x2: Vec2)
    requires
        0 < m,
        m + m <= LIMIT,
        -LIMIT <= u + u <= LIMIT,
        x1.y == x2.y,
        x1.x != x2.x,
        -LIMIT <= x1.x@ - x2.x@ <= LIMIT,
    ensures
        ({
            let u1 = Vec2 { x: Fixed { raw: u as i64 }, y: Fixed { raw: 0 } };
            let u2 = Vec2 { x: Fixed { raw: (-u) as i64 }, y: Fixed { raw: 0 } };
            elastic(m, m, u1, u2, x1, x2) == (u2, u1)
        }),
{
    let u1 = Vec2 { x: Fixed { raw: u as i64 }, y: Fixed { raw: 0 } };
    let u2 = Vec2 { x: Fixed { raw: (-u) as i64 }, y: Fixed { raw: 0 } };
    let dx = x1.x@ - x2.x@;
    let gap = vec_minus(x1, x2);
    assert(gap.x@ == dx && gap.y@ == 0);
    lemma_isqrt_square(dx);
    assert(norm2(dx, 0) == dx * dx) by (nonlinear_arith);
    let len = mag(dx);
    let line = gap.unit();
    lemma_quot_exact(ONE as int, len);
    lemma_quot_exact(-(ONE as int), len);
    assert(dx * ONE == (if dx > 0 {
        ONE as int
    } else {
        -(ONE as int)
    }) * len) by (nonlinear_arith)
        requires
            len == mag(dx),
    ;
    assert(0int * ONE == 0 * len) by (nonlinear_arith);
    lemma_quot_exact(0, len);
    let s: int = if dx > 0 {
        1
    } else {
        -1
    };
    assert(line.x@ == s * ONE && line.y@ == 0);
    let closing_in = vec_minus(u1, u2);
    assert(closing_in.x@ == u + u && closing_in.y@ == 0);
    lemma_mul_raw_one(u + u);
    lemma_mul_raw_one(0);
    let closing = vec_dot(closing_in, line);
    assert(closing == s * (u + u));
    lemma_div_raw_self(m + m);
    lemma_mul_raw_one(closing);
    let share = mul_raw(div_raw(sat(m + m), sat(m + m)), closing);
    assert(share == closing);
    lemma_mul_raw_one(share);
    assert(mul_raw(line.x@, share) == u + u);
    assert(mul_raw(line.y@, share) == 0);
    let after = elastic(m, m, u1, u2, x1, x2);
    assert(after.0.x@ == -u && after.0.y@ == 0);
    assert(after.1.x@ == u && after.1.y@ == 0);
}

/// Two bodies of one mass that meet head-on along y, with opposite
/// velocities, leave with their velocities exchanged: each with the negative
/// of what it came with.
pub proof fn lemma_head_on_along_y(m: int, u: int, x1: Vec2, x2: Vec2)
    requires
        0 < m,
        m + m <= LIMIT,
        -LIMIT <= u + u <= LIMIT,
        x1.x == x2.x,
        x1.y != x2.y,
        -LIMIT <= x1.y@ - x2.y@ <= LIMIT,
    ensures
        ({
            let u1 = Vec2 { x: Fixed { raw: 0 }, y: Fixed { raw: u as i64 } };
            let u2 = Vec2 { x: Fixed { raw: 0 }, y: Fixed { raw: (-u) as i64 } };
            elastic(m, m, u1, u2, x1, x2) == (u2, u1)
        }),
{
    let u1 = Vec2 { x: Fixed { raw: 0 }, y: Fixed { raw: u as i64 } };
    let u2 = Vec2 { x: Fixed { raw: 0 }, y: Fixed { raw: (-u) as i64 } };
    let dy = x1.y@ - x2.y@;
    let gap = vec_minus(x1, x2);
    assert(gap.y@ == dy && gap.x@ == 0);
    lemma_isqrt_square(dy);
    assert(norm2(0, dy) == dy * dy) by (nonlinear_arith);
    let len = mag(dy);
    let line = gap.unit();
    lemma_quot_exact(ONE as int, len);
    lemma_quot_exact(-(ONE as int), len);
    assert(dy * ONE == (if dy > 0 {
        ONE as int
    } else {
        -(ONE as int)
    }) * len) by (nonlinear_arith)
        requires
            len == mag(dy),
    ;
    assert(0int * ONE == 0 * len) by (nonlinear_arith);
    lemma_quot_exact(0, len);
    let s: int = if dy > 0 {
        1
    } else {
        -1
    };
    assert(line.y@ == s * ONE && line.x@ == 0);
    let closing_in = vec_minus(u1, u2);
    assert(closing_in.y@ == u + u && closing_in.x@ == 0);
    lemma_mul_raw_one(u + u);
    lemma_mul_raw_one(0);
    let closing = vec_dot(closing_in, line);
    assert(closing == s * (u + u));
    lemma_div_raw_self(m + m);
    lemma_mul_raw_one(closing);
    let share = mul_raw(div_raw(sat(m + m), sat(m + m)), closing);
    assert(share == closing);
    lemma_mul_raw_one(share);
    assert(mul_raw(line.y@, share) == u + u);
    assert(mul_raw(line.x@, share) == 0);
    let after = elastic(m, m, u1, u2, x1, x2);
    assert(after.0.y@ == -u && after.0.x@ == 0);
    assert(after.1.y@ == u && after.1.x@ == 0);
}

/// The share that changes hands is less than the mass it is taken from.
pub proof fn lemma_share(m: int)
    requires
        0 < m,
    ensures
        0 <= mul_raw(m, MASS_EXCHANGE_RATE as int) < m,
{
    let n = m * MASS_EXCHANGE_RATE;
    assert(0 <= n < m * ONE) by (nonlinear_arith)
        requires
            0 < m,
            n == m * 30_000,
    ;
    assert(0 <= n / (ONE as int) < m) by (nonlinear_arith)
        requires
            0 <= n < m * 1_000_000,
    ;
}

/// A collision leaves both agents with a positive mass.
pub proof fn lemma_mass_stays_positive(m1: int, m2: int)
    requires
        0 < m1,
        0 < m2,
    ensures
        0 < sat(m1 + exchange(m1, m2)),
        0 < sat(m2 - exchange(m1, m2)),
{
    lemma_share(m1);
    lemma_share(m2);
}

/// Two agents of radii `r1` and `r2` whose centres are at the squared raw
/// distance `dist2` are near enough to be looked at.
pub fn broad_phase_hit(dist2: u128, r1: Fixed, r2: Fixed) -> (r: bool)
    ensures
        r == broad_phase(dist2 as int, r1@, r2@),
{
    let reach: Fixed = r1.plus(r2);
    dist2 < square_raw(reach.raw)
}

/// The square of a raw value between the rails.
fn square_raw(v: i64) -> (r: u128)
    requires
        -LIMIT <= v <= LIMIT,
    ensures
        r == v * v,
        r <= 0x1000_0000_0000_0000_0000_0000_0000_0000,
{
    let m: u128 = if v < 0 {
        (-v) as u128
    } else {
        v as u128
    };
    assert(m * m == v * v && m * m <= 0x1000_0000_0000_0000_0000_0000_0000_0000)
        by (nonlinear_arith)
        requires
            0 <= m <= 0x4000_0000_0000_0000,
            m == v || m == -v,
    ;
    m * m
}

/// Sub-body `i` of `a` touches sub-body `j` of `b`.
pub fn atoms_touching(a: &Agent, i: usize, b: &Agent, j: usize) -> (r: bool)
    requires
        i < a.body@.len(),
        j < b.body@.len(),
    ensures
        r == atoms_touch(*a, i as int, *b, j as int),
{
    if !a.body[i].is_used || !b.body[j].is_used {
        return false;
    }
    let reach: Fixed = a.radius.plus(b.radius);
    if reach.raw <= 0 {
        return false;
    }
    let c1: Vec2 = a.position.plus(a.body[i].atom_pos);
    let c2: Vec2 = b.position.plus(b.body[j].atom_pos);
    proof {
        lemma_dist2_basics(c1, c2);
    }
    c1.distance_squared(c2) < square_raw(reach.raw)
}

/// The first pair of sub-bodies of `a` and `b` that touch, if any do.
pub fn narrow_phase(a: &Agent, b: &Agent) -> (r: Option<(usize, usize)>)
    ensures
        match r {
            Some(pair) => is_first_touch(*a, *b, pair.0 as int, pair.1 as int),
            None => !touching(*a, *b),
        },
{
    let mut i: usize = 0;
    while i < a.body.len()
        invariant
            0 <= i <= a.body@.len(),
            forall|i2: int, j2: int| i2 < i ==> !#[trigger] atoms_touch(*a, i2, *b, j2),
        decreases a.body@.len() - i,
    {
        let mut j: usize = 0;
        while j < b.body.len()
            invariant
                0 <= i < a.body@.len(),
                0 <= j <= b.body@.len(),
                forall|i2: int, j2: int| i2 < i ==> !#[trigger] atoms_touch(*a, i2, *b, j2),
                forall|j2: int| j2 < j ==> !#[trigger] atoms_touch(*a, i as int, *b, j2),
            decreases b.body@.len() - j,
        {
            if atoms_touching(a, i, b, j) {
                return Some((i, j));
            }
            j = j + 1;
        }
        i = i + 1;
    }
    None
}

/// The velocities of two bodies after an elastic collision along their line
/// of centres.
pub fn elastic_velocities(m1: Fixed, m2: Fixed, u1: Vec2, u2: Vec2, x1: Vec2, x2: Vec2) -> (r: (
    Vec2,
    Vec2,
))
    ensures
        r == elastic(m1@, m2@, u1, u2, x1, x2),
{
    let total: Fixed = m1.plus(m2);
    if total.raw == 0 {
        return (u1, u2);
    }
    let line: Vec2 = x1.minus(x2).normalize();
    let closing: Fixed = u1.minus(u2).dot(line);
    let share1: Fixed = m2.plus(m2).over(total).times(closing);
    let share2: Fixed = m1.plus(m1).over(total).times(closing);
    (u1.minus(line.scale(share1)), u2.plus(line.scale(share2)))
}

/// The mass that the first of two colliding agents gains, or loses.
pub fn mass_exchange(m1: Fixed, m2: Fixed) -> (r: Fixed)
    ensures
        r@ == exchange(m1@, m2@),
{
    if m1.raw > m2.raw {
        m2.times(Fixed::new(MASS_EXCHANGE_RATE))
    } else {
        m1.times(Fixed::new(MASS_EXCHANGE_RATE)).neg()
    }
}

/// No agent is named by two of `contacts`, nor twice by one.
pub open spec fn no_agent_twice(contacts: Seq<Contact>) -> bool {
    &&& forall|p: int|
        0 <= p < contacts.len() ==> (#[trigger] contacts[p]).info.agent_id1
            != contacts[p].info.agent_id2
    &&& forall|p: int, q: int|
        0 <= p < q < contacts.len() ==> {
            let a = (#[trigger] contacts[p]).info;
            let b = (#[trigger] contacts[q]).info;
            a.agent_id1 != b.agent_id1 && a.agent_id1 != b.agent_id2 && a.agent_id2 != b.agent_id1
                && a.agent_id2 != b.agent_id2
        }
}

/// The collision that agent `i` has with its candidate, if it has one.
pub fn candidate_contact(game: &Game, kdtrees: &KdTrees, i: usize) -> (r: Option<Contact>)
    requires
        i < game.agents@.len(),
        kdtrees.agent_kdtree.wf(),
    ensures
        match r {
            Some(c) => candidate(game.agents@, kdtrees.agent_kdtree.entries@, i as int) == Some(
                c.second as int,
            ) && is_contact(game.agents@, c, (i as int, c.second as int)),
            None => candidate(game.agents@, kdtrees.agent_kdtree.entries@, i as int) is None,
        },
{
    let a: &Agent = &game.agents[i];
    match kdtrees.agent_kdtree.nearest_k(a.position, 2) {
        Err(_) => None,
        Ok(near) => {
            let other: Option<Neighbor> = if near.len() >= 1 && near[0].id != a.id {
                Some(near[0])
            } else if near.len() >= 2 && near[1].id != a.id {
                Some(near[1])
            } else {
                None
            };
            match other {
                None => None,
                Some(nb) => match find_agent(&game.agents, nb.id) {
                    None => None,
                    Some(j) => {
                        let b: &Agent = &game.agents[j];
                        if !broad_phase_hit(nb.dist2, a.radius, b.radius) {
                            return None;
                        }
                        match narrow_phase(a, b) {
                            None => None,
                            Some(pair) => {
                                proof {
                                    assert(atoms_touch(*a, pair.0 as int, *b, pair.1 as int));
                                }
                                let after: (Vec2, Vec2) = elastic_velocities(
                                    a.mass,
                                    b.mass,
                                    a.velocity,
                                    b.velocity,
                                    a.position,
                                    b.position,
                                );
                                Some(
                                    Contact {
                                        first: i,
                                        second: j,
                                        info: AgentCollisionInfo {
                                            agent_id1: a.id,
                                            atom_index1: pair.0,
                                            other_collision_mass1: b.mass,
                                            velocity1: after.0,
                                            is_guardian1: a.is_guardian,
                                            agent_id2: b.id,
                                            atom_index2: pair.1,
                                            velocity2: after.1,
                                            other_collision_mass2: a.mass,
                                            is_guardian2: b.is_guardian,
                                        },
                                    },
                                )
                            },
                        }
                    },
                },
            }
        },
    }
}

/// The collisions of one pass, in the order in which they were found: the
/// agents are taken in their order, each with the other agent nearest to it
/// in the index; the two collide if they are near enough, if sub-bodies of
/// theirs touch, and if neither takes part in a collision found before.
pub fn detect_collisions(game: &Game, kdtrees: &KdTrees) -> (r: Vec<Contact>)
    requires
        kdtrees.agent_kdtree.wf(),
    ensures
        r@.len() == resolved_pairs(
            game.agents@,
            kdtrees.agent_kdtree.entries@,
            game.agents@.len() as int,
        ).len(),
        forall|p: int|
            0 <= p < r@.len() ==> is_contact(
                game.agents@,
                #[trigger] r@[p],
                resolved_pairs(
                    game.agents@,
                    kdtrees.agent_kdtree.entries@,
                    game.agents@.len() as int,
                )[p],
            ),
        pairs_disjoint(
            resolved_pairs(game.agents@, kdtrees.agent_kdtree.entries@, game.agents@.len() as int),
            game.agents@.len() as int,
        ),
        agent_ids(game.agents@).no_duplicates() ==> no_agent_twice(r@),
{
    let n: usize = game.agents.len();
    let ghost agents = game.agents@;
    let ghost entries = kdtrees.agent_kdtree.entries@;
    let mut taken: Vec<bool> = Vec::new();
    let mut t: usize = 0;
    while t < n
        invariant
            0 <= t <= n,
            taken@.len() == t,
            forall|s: int| 0 <= s < t ==> !#[trigger] taken@[s],
        decreases n - t,
    {
        taken.push(false);
        t = t + 1;
    }
    let mut contacts: Vec<Contact> = Vec::new();
    let mut i: usize = 0;
    proof {
        assert forall|s: int| 0 <= s < n implies taken@[s] == involved(
            resolved_pairs(agents, entries, 0),
            s,
        ) by {
            if involved(resolved_pairs(agents, entries, 0), s) {
                let pairs = resolved_pairs(agents, entries, 0);
                let p = choose|p: int| 0 <= p < pairs.len() && (#[trigger] pairs[p].0 == s
                    || pairs[p].1 == s);
            }
        }
    }
    while i < n
        invariant
            0 <= i <= n,
            n == game.agents@.len(),
            agents == game.agents@,
            entries == kdtrees.agent_kdtree.entries@,
            kdtrees.agent_kdtree.wf(),
            taken@.len() == n,
            contacts@.len() == resolved_pairs(agents, entries, i as int).len(),
            forall|p: int|
                0 <= p < contacts@.len() ==> is_contact(
                    agents,
                    #[trigger] contacts@[p],
                    resolved_pairs(agents, entries, i as int)[p],
                ),
            forall|s: int|
                0 <= s < n ==> #[trigger] taken@[s] == involved(
                    resolved_pairs(agents, entries, i as int),
                    s,
                ),
        decreases n - i,
    {
        let ghost before = resolved_pairs(agents, entries, i as int);
        let ghost after = resolved_pairs(agents, entries, i + 1);
        proof {
            lemma_candidate(agents, entries, i as int);
        }
        if !taken[i] {
            match candidate_contact(game, kdtrees, i) {
                Some(c) => {
                    let j: usize = c.second;
                    if !taken[j] {
                        contacts.push(c);
                        taken[i] = true;
                        taken[j] = true;
                        proof {
                            assert(after == before.push((i as int, j as int)));
                            assert forall|p: int| 0 <= p < contacts@.len() implies is_contact(
                                agents,
                                #[trigger] contacts@[p],
                                after[p],
                            ) by {
                                if p < before.len() {
                                    assert(after[p] == before[p]);
                                }
                            }
                            assert forall|s: int| 0 <= s < n implies #[trigger] taken@[s]
                                == involved(after, s) by {
                                if involved(before, s) {
                                    let p = choose|p: int|
                                        0 <= p < before.len() && (#[trigger] before[p].0 == s
                                            || before[p].1 == s);
                                    assert(after[p] == before[p]);
                                    assert(after[p].0 == s || after[p].1 == s);
                                }
                                if s == i || s == j {
                                    let l = before.len() as int;
                                    assert(after[l].0 == s || after[l].1 == s);
                                }
                                if involved(after, s) {
                                    let p = choose|p: int|
                                        0 <= p < after.len() && (#[trigger] after[p].0 == s
                                            || after[p].1 == s);
                                    if p < before.len() {
                                        assert(before[p] == after[p]);
                                        assert(before[p].0 == s || before[p].1 == s);
                                    }
                                }
                            }
                        }
                    } else {
                        proof {
                            assert(after == before);
                        }
                    }
                },
                None => {
                    proof {
                        assert(after == before);
                    }
                },
            }
        } else {
            proof {
                assert(after == before);
            }
        }
        i = i + 1;
    }
    proof {
        let pairs = resolved_pairs(agents, entries, n as int);
        lemma_no_double_collision(agents, entries, n as int);
        if agent_ids(agents).no_duplicates() {
            assert forall|p: int| 0 <= p < contacts@.len() implies (#[trigger] contacts@[p])
                .info.agent_id1 != contacts@[p].info.agent_id2 by {
                assert(is_contact(agents, contacts@[p], pairs[p]));
                assert(agent_ids(agents)[pairs[p].0] != agent_ids(agents)[pairs[p].1]);
            }
            assert forall|p: int, q: int| 0 <= p < q < contacts@.len() implies {
                let a = (#[trigger] contacts@[p]).info;
                let b = (#[trigger] contacts@[q]).info;
                a.agent_id1 != b.agent_id1 && a.agent_id1 != b.agent_id2 && a.agent_id2
                    != b.agent_id1 && a.agent_id2 != b.agent_id2
            } by {
                assert(is_contact(agents, contacts@[p], pairs[p]));
                assert(is_contact(agents, contacts@[q], pairs[q]));
                let ids = agent_ids(agents);
                assert(ids[pairs[p].0] != ids[pairs[q].0]);
                assert(ids[pairs[p].0] != ids[pairs[q].1]);
                assert(ids[pairs[p].1] != ids[pairs[q].0]);
                assert(ids[pairs[p].1] != ids[pairs[q].1]);
            }
        }
    }
    contacts
}

/// Agent `i` is apart from the other agent nearest to it in an index of
/// `entries`: their centres are no nearer than their radii together. An agent
/// that is lost, or without such a neighbour in the world, is apart from all.
pub open spec fn apart(agents: Seq<Agent>, entries: Seq<IndexEntry>, i: int) -> bool {
    let a = agents[i];
    a.position.finite() ==> match first_other(nearest_answers(entries, a.position, 2), a.id) {
        None => true,
        Some(nb) => match lookup(agents, nb.id) {
            None => true,
            Some(j) => {
                let reach = sat(a.radius@ + agents[j].radius@);
                nb.dist2 >= reach * reach
            },
        },
    }
}

/// Where each of the first `upto` agents is apart from the agent nearest to
/// it, none of them collides, whatever their sub-bodies do.
pub proof fn lemma_apart_agents_do_not_collide(
    agents: Seq<Agent>,
    entries: Seq<IndexEntry>,
    upto: int,
)
    requires
        forall|i: int| 0 <= i < upto ==> #[trigger] apart(agents, entries, i),
    ensures
        resolved_pairs(agents, entries, upto).len() == 0,
    decreases upto,
{
    if upto > 0 {
        lemma_apart_agents_do_not_collide(agents, entries, upto - 1);
        assert(apart(agents, entries, upto - 1));
        assert(candidate(agents, entries, upto - 1) is None);
    }
}

/// `after` and `events` are what one pass of collisions, on an index of
/// `entries`, makes of the agents `before`: the two agents of every collision
/// of the pass have taken the blow, every other agent is as it was, and the
/// events are those of the collisions, in their order.
pub open spec fn collided(
    before: Seq<Agent>,
    entries: Seq<IndexEntry>,
    after: Seq<Agent>,
    events: Seq<CollisionEvent>,
) -> bool {
    let pairs = resolved_pairs(before, entries, before.len() as int);
    &&& after.len() == before.len()
    &&& pairs_disjoint(pairs, before.len() as int)
    &&& forall|p: int|
        0 <= p < pairs.len() ==> after[(#[trigger] pairs[p]).0] == hit_first(
            before[pairs[p].0],
            before[pairs[p].1],
        ) && after[pairs[p].1] == hit_second(before[pairs[p].0], before[pairs[p].1])
    &&& forall|t: int|
        0 <= t < before.len() && !involved(pairs, t) ==> #[trigger] after[t] == before[t]
    &&& events == events_of(before, pairs)
}

/// Where every agent is apart from the agent nearest to it, a pass of
/// collisions reports nothing and leaves every agent as it was.
pub proof fn lemma_apart_agents_stay(
    before: Seq<Agent>,
    entries: Seq<IndexEntry>,
    after: Seq<Agent>,
    events: Seq<CollisionEvent>,
)
    requires
        collided(before, entries, after, events),
        forall|i: int| 0 <= i < before.len() ==> #[trigger] apart(before, entries, i),
    ensures
        events.len() == 0,
        after == before,
{
    let pairs = resolved_pairs(before, entries, before.len() as int);
    lemma_apart_agents_do_not_collide(before, entries, before.len() as int);
    assert forall|t: int| 0 <= t < before.len() implies after[t] == before[t] by {
        assert(!involved(pairs, t));
    }
    assert(after =~= before);
}

/// Agent `t` takes part in one of the first `p` of `pairs`.
pub open spec fn involved_upto(pairs: Seq<(int, int)>, p: int, t: int) -> bool {
    exists|q: int| 0 <= q < p && q < pairs.len() && (#[trigger] pairs[q].0 == t || pairs[q].1 == t)
}

/// `now` is `before` after the first `p` collisions of `pairs`: the two
/// agents of each have taken the blow, the others are as they were.
pub open spec fn applied(before: Seq<Agent>, now: Seq<Agent>, pairs: Seq<(int, int)>, p: int) -> bool {
    &&& now.len() == before.len()
    &&& forall|q: int|
        0 <= q < p && q < pairs.len() ==> now[(#[trigger] pairs[q]).0] == hit_first(
            before[pairs[q].0],
            before[pairs[q].1],
        ) && now[pairs[q].1] == hit_second(before[pairs[q].0], before[pairs[q].1])
    &&& forall|t: int|
        0 <= t < before.len() && !involved_upto(pairs, p, t) ==> #[trigger] now[t] == before[t]
}

/// `events` holds the events of the first `p` collisions of `pairs`.
pub open spec fn reported(
    before: Seq<Agent>,
    pairs: Seq<(int, int)>,
    p: int,
    events: Seq<CollisionEvent>,
) -> bool {
    &&& events.len() == 2 * p
    &&& forall|e: int| 0 <= e < 2 * p ==> #[trigger] events[e] == events_of(before, pairs)[e]
}

/// One more collision resolved.
proof fn lemma_apply_step(
    before: Seq<Agent>,
    mid: Seq<Agent>,
    now: Seq<Agent>,
    pairs: Seq<(int, int)>,
    p: int,
)
    requires
        applied(before, mid, pairs, p),
        0 <= p < pairs.len(),
        pairs_disjoint(pairs, before.len() as int),
        now.len() == mid.len(),
        now[pairs[p].0] == hit_first(mid[pairs[p].0], mid[pairs[p].1]),
        now[pairs[p].1] == hit_second(mid[pairs[p].0], mid[pairs[p].1]),
        forall|t: int|
            0 <= t < mid.len() && t != pairs[p].0 && t != pairs[p].1 ==> #[trigger] now[t] == mid[t],
    ensures
        applied(before, now, pairs, p + 1),
        mid[pairs[p].0] == before[pairs[p].0],
        mid[pairs[p].1] == before[pairs[p].1],
{
    let i = pairs[p].0;
    let j = pairs[p].1;
    assert(!involved_upto(pairs, p, i)) by {
        if involved_upto(pairs, p, i) {
            let q = choose|q: int|
                0 <= q < p && q < pairs.len() && (#[trigger] pairs[q].0 == i || pairs[q].1 == i);
            assert(pairs[q].0 != pairs[p].0 && pairs[q].1 != pairs[p].0);
        }
    }
    assert(!involved_upto(pairs, p, j)) by {
        if involved_upto(pairs, p, j) {
            let q = choose|q: int|
                0 <= q < p && q < pairs.len() && (#[trigger] pairs[q].0 == j || pairs[q].1 == j);
            assert(pairs[q].0 != pairs[p].1 && pairs[q].1 != pairs[p].1);
        }
    }
    assert(0 <= i < before.len() && 0 <= j < before.len());
    assert forall|q: int| 0 <= q < p + 1 && q < pairs.len() implies now[(#[trigger] pairs[q]).0]
        == hit_first(before[pairs[q].0], before[pairs[q].1]) && now[pairs[q].1] == hit_second(
        before[pairs[q].0],
        before[pairs[q].1],
    ) by {
        if q < p {
            assert(pairs[q].0 != pairs[p].0 && pairs[q].0 != pairs[p].1);
            assert(pairs[q].1 != pairs[p].0 && pairs[q].1 != pairs[p].1);
            assert(0 <= pairs[q].0 < before.len() && 0 <= pairs[q].1 < before.len());
        }
    }
    assert forall|t: int| 0 <= t < before.len() && !involved_upto(pairs, p + 1, t) implies #[trigger] now[t]
        == before[t] by {
        if t == i || t == j {
            assert(pairs[p].0 == t || pairs[p].1 == t);
            assert(involved_upto(pairs, p + 1, t));
        }
        if involved_upto(pairs, p, t) {
            let q = choose|q: int|
                0 <= q < p && q < pairs.len() && (#[trigger] pairs[q].0 == t || pairs[q].1 == t);
            assert(involved_upto(pairs, p + 1, t));
        }
    }
}

/// Two more events reported.
proof fn lemma_report_step(
    before: Seq<Agent>,
    pairs: Seq<(int, int)>,
    p: int,
    events: Seq<CollisionEvent>,
    next: Seq<CollisionEvent>,
)
    requires
        reported(before, pairs, p, events),
        0 <= p < pairs.len(),
        next == events.push(
            CollisionEvent {
                agent_id: before[pairs[p].0].id,
                other_agent_id: before[pairs[p].1].id,
                other_is_guardian: before[pairs[p].1].is_guardian,
            },
        ).push(
            CollisionEvent {
                agent_id: before[pairs[p].1].id,
                other_agent_id: before[pairs[p].0].id,
                other_is_guardian: before[pairs[p].0].is_guardian,
            },
        ),
    ensures
        reported(before, pairs, p + 1, next),
{
    let model = events_of(before, pairs);
    assert forall|e: int| 0 <= e < 2 * (p + 1) implies #[trigger] next[e] == model[e] by {
        if e < 2 * p {
            assert(next[e] == events[e]);
        } else if e == 2 * p {
            assert(e / 2 == p && e % 2 == 0);
        } else {
            assert(e / 2 == p && e % 2 == 1);
        }
    }
}

/// After the last collision: what the pass leaves.
proof fn lemma_apply_done(
    before: Seq<Agent>,
    entries: Seq<IndexEntry>,
    now: Seq<Agent>,
    pairs: Seq<(int, int)>,
    events: Seq<CollisionEvent>,
)
    requires
        pairs == resolved_pairs(before, entries, before.len() as int),
        applied(before, now, pairs, pairs.len() as int),
        reported(before, pairs, pairs.len() as int, events),
        pairs_disjoint(pairs, before.len() as int),
        agent_ids(before).no_duplicates(),
        forall|t: int| 0 <= t < before.len() ==> (#[trigger] before[t]).wf(),
    ensures
        collided(before, entries, now, events),
        agent_ids(now).no_duplicates(),
        forall|t: int| 0 <= t < now.len() ==> (#[trigger] now[t]).wf(),
{
    let n = pairs.len() as int;
    assert forall|t: int| 0 <= t < before.len() && !involved(pairs, t) implies #[trigger] now[t]
        == before[t] by {
        if involved_upto(pairs, n, t) {
            let q = choose|q: int|
                0 <= q < n && q < pairs.len() && (#[trigger] pairs[q].0 == t || pairs[q].1 == t);
            assert(involved(pairs, t));
        }
    }
    assert(events =~= events_of(before, pairs));
    assert forall|t: int| 0 <= t < now.len() implies (#[trigger] now[t]).wf() && now[t].id
        == before[t].id by {
        assert(before[t].wf());
        if involved_upto(pairs, n, t) {
            let q = choose|q: int|
                0 <= q < n && q < pairs.len() && (#[trigger] pairs[q].0 == t || pairs[q].1 == t);
            let a = before[pairs[q].0];
            let b = before[pairs[q].1];
            assert(0 <= pairs[q].0 < before.len() && 0 <= pairs[q].1 < before.len());
            assert(a.wf() && b.wf());
            lemma_mass_stays_positive(a.mass@, b.mass@);
            let after = elastic(a.mass@, b.mass@, a.velocity, b.velocity, a.position, b.position);
            lemma_struck_wf(
                a,
                after.0,
                b.mass,
                Fixed { raw: sat(a.mass@ + exchange(a.mass@, b.mass@)) as i64 },
            );
            lemma_struck_wf(
                b,
                after.1,
                a.mass,
                Fixed { raw: sat(b.mass@ - exchange(a.mass@, b.mass@)) as i64 },
            );
        }
    }
    assert(agent_ids(now) =~= agent_ids(before));
}

/// Resolves one collision: each of its two agents takes the blow, and one
/// event for each side is added to `events`.
fn resolve_contact(game: &mut Game, c: &Contact, events: &mut Vec<CollisionEvent>)
    requires
        c.first < old(game).agents@.len(),
        c.second < old(game).agents@.len(),
        c.first != c.second,
        c.info == info_of(
            old(game).agents@[c.first as int],
            old(game).agents@[c.second as int],
            c.info.atom_index1,
            c.info.atom_index2,
        ),
    ensures
        final(game).agents@.len() == old(game).agents@.len(),
        final(game).agents@[c.first as int] == hit_first(
            old(game).agents@[c.first as int],
            old(game).agents@[c.second as int],
        ),
        final(game).agents@[c.second as int] == hit_second(
            old(game).agents@[c.first as int],
            old(game).agents@[c.second as int],
        ),
        forall|t: int|
            0 <= t < old(game).agents@.len() && t != c.first && t != c.second
                ==> #[trigger] final(game).agents@[t] == old(game).agents@[t],
        final(events)@ == old(events)@.push(
            CollisionEvent {
                agent_id: old(game).agents@[c.first as int].id,
                other_agent_id: old(game).agents@[c.second as int].id,
                other_is_guardian: old(game).agents@[c.second as int].is_guardian,
            },
        ).push(
            CollisionEvent {
                agent_id: old(game).agents@[c.second as int].id,
                other_agent_id: old(game).agents@[c.first as int].id,
                other_is_guardian: old(game).agents@[c.first as int].is_guardian,
            },
        ),
        final(game).time == old(game).time,
        final(game).game_stage == old(game).game_stage,
        final(game).foods == old(game).foods,
        final(game).won == old(game).won,
{
    let mass1: Fixed = c.info.other_collision_mass2;
    let mass2: Fixed = c.info.other_collision_mass1;
    let gain: Fixed = mass_exchange(mass1, mass2);
    game.agents[c.first].strike(c.info.velocity1, mass2, mass1.plus(gain));
    game.agents[c.second].strike(c.info.velocity2, mass1, mass2.minus(gain));
    events.push(
        CollisionEvent {
            agent_id: c.info.agent_id1,
            other_agent_id: c.info.agent_id2,
            other_is_guardian: c.info.is_guardian2,
        },
    );
    events.push(
        CollisionEvent {
            agent_id: c.info.agent_id2,
            other_agent_id: c.info.agent_id1,
            other_is_guardian: c.info.is_guardian1,
        },
    );
}

/// A blow leaves an agent what it is called and what it remembers, and well
/// formed if its new mass is positive.
pub proof fn lemma_struck_wf(a: Agent, velocity: Vec2, other_mass: Fixed, new_mass: Fixed)
    requires
        a.wf(),
        new_mass@ > 0,
    ensures
        struck(a, velocity, other_mass, new_mass).wf(),
        struck(a, velocity, other_mass, new_mass).id == a.id,
{
}

/// Contact `p` is the collision of pair `p`.
pub open spec fn contact_matches(before: Seq<Agent>, c: Contact, pair: (int, int)) -> bool {
    &&& c.first == pair.0
    &&& c.second == pair.1
    &&& c.info == info_of(before[pair.0], before[pair.1], c.info.atom_index1, c.info.atom_index2)
}

/// One pass of collisions. The collisions are those of [`detect_collisions`].
/// The two agents of each bounce off each other and the lighter one hands
/// mass to the heavier; one event is reported for each side. The agents that
/// take part in none stay as they are.
pub fn collisions(game: &mut Game, kdtrees: &KdTrees) -> (events: Vec<CollisionEvent>)
    requires
        old(game).wf(),
        kdtrees.agent_kdtree.wf(),
    ensures
        final(game).wf(),
        final(game).agents@.len() == old(game).agents@.len(),
        collided(
            old(game).agents@,
            kdtrees.agent_kdtree.entries@,
            final(game).agents@,
            events@,
        ),
        each_agent_once(events@),
        final(game).time == old(game).time,
        final(game).game_stage == old(game).game_stage,
        final(game).foods == old(game).foods,
        final(game).won == old(game).won,
{
    let contacts: Vec<Contact> = detect_collisions(game, kdtrees);
    let ghost before = game.agents@;
    let ghost n = before.len() as int;
    let ghost pairs = resolved_pairs(before, kdtrees.agent_kdtree.entries@, n);
    let mut events: Vec<CollisionEvent> = Vec::new();
    let mut p: usize = 0;
    proof {
        assert forall|q: int| 0 <= q < contacts@.len() implies contact_matches(
            before,
            #[trigger] contacts@[q],
            pairs[q],
        ) by {
            assert(is_contact(before, contacts@[q], pairs[q]));
        }
        assert forall|t: int| 0 <= t < before.len() && !involved_upto(pairs, 0, t) implies #[trigger] game.agents@[t]
            == before[t] by {}
    }
    while p < contacts.len()
        invariant
            0 <= p <= contacts@.len(),
            contacts@.len() == pairs.len(),
            n == before.len(),
            pairs_disjoint(pairs, n),
            forall|q: int|
                0 <= q < contacts@.len() ==> contact_matches(
                    before,
                    #[trigger] contacts@[q],
                    pairs[q],
                ),
            applied(before, game.agents@, pairs, p as int),
            reported(before, pairs, p as int, events@),
            game.time == old(game).time,
            game.game_stage == old(game).game_stage,
            game.foods == old(game).foods,
            game.won == old(game).won,
        decreases contacts@.len() - p,
    {
        let c: Contact = contacts[p];
        let ghost mid = game.agents@;
        let ghost reported_before = events@;
        proof {
            assert(contact_matches(before, contacts@[p as int], pairs[p as int]));
            let i = pairs[p as int].0;
            let j = pairs[p as int].1;
            assert(0 <= i < n && 0 <= j < n && i != j);
            assert(!involved_upto(pairs, p as int, i)) by {
                if involved_upto(pairs, p as int, i) {
                    let q = choose|q: int|
                        0 <= q < p && q < pairs.len() && (#[trigger] pairs[q].0 == i || pairs[q].1
                            == i);
                    assert(pairs[q].0 != pairs[p as int].0 && pairs[q].1 != pairs[p as int].0);
                }
            }
            assert(!involved_upto(pairs, p as int, j)) by {
                if involved_upto(pairs, p as int, j) {
                    let q = choose|q: int|
                        0 <= q < p && q < pairs.len() && (#[trigger] pairs[q].0 == j || pairs[q].1
                            == j);
                    assert(pairs[q].0 != pairs[p as int].1 && pairs[q].1 != pairs[p as int].1);
                }
            }
            assert(mid[i] == before[i]);
            assert(mid[j] == before[j]);
        }
        resolve_contact(game, &c, &mut events);
        proof {
            lemma_apply_step(before, mid, game.agents@, pairs, p as int);
            lemma_report_step(before, pairs, p as int, reported_before, events@);
        }
        p = p + 1;
    }
    proof {
        lemma_apply_done(before, kdtrees.agent_kdtree.entries@, game.agents@, pairs, events@);
        lemma_each_agent_once(before, pairs);
    }
    events
}

impl Agent {
    /// Takes the blow of a collision that leaves the agent with `velocity`
    /// and the mass `new_mass`, against an agent of mass `other_mass`.
    pub fn strike(&mut self, velocity: Vec2, other_mass: Fixed, new_mass: Fixed)
        ensures
            *final(self) == struck(*old(self), velocity, other_mass, new_mass),
    {
        self.last_position = self.position.minus(velocity.scale(Fixed::new(COLLISION_BOUNCE)));
        self.just_collided = true;
        self.other_collider_mass = other_mass;
        self.previous_mass = self.mass;
        self.mass = new_mass;
        self.update_mass_properties();
    }
}

} // verus!
