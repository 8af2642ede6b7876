//! Goals: when an agent picks a new one, which one, and where it then heads.
//!
//! An agent keeps its goal for as long as its memory lasts. After that a
//! guardian that has seen the player's agent goes after it; any agent may, by
//! chance, go after one that it has seen, but not after the one it hit last.

use crate::agent::{sight_ids, Agent, AgentSight, Goal, MAIN_CHARACTER_ID};
use crate::fixed::{Fixed, ONE};
use crate::game::{agent_entries, agent_ids, entries_of, find_agent, lookup, Game, LEVEL_HEIGHT};
use crate::random::{random_between, random_units};
use crate::spatial::IndexEntry;
use crate::vec2::Vec2;
use vstd::prelude::*;

verus! {

/// Raw chance that an agent considers one that it has seen.
pub const CONSIDER_CHANCE: i64 = 100_000;

/// Raw chance that an agent goes after one that it considers.
pub const BULLY_CHANCE: i64 = 200_000;

/// Raw half-width of the sideways step of a search.
pub const JITTER: i64 = 100_000;

/// The least id of a guardian.
pub const GUARDIANS_FROM: u32 = 20;

/// The least id above those of the guardians that hold their posts.
pub const GUARDIANS_POSTED_BELOW: u32 = 35;

/// The least id above those of the guardians.
pub const GUARDIANS_BELOW: u32 = 40;

/// The two draws that an agent takes on one that it has seen.
#[derive(Clone, Copy, Debug, PartialEq, Eq, Structural)]
pub struct Whim {
    /// Below the chance to consider: the agent considers the other one.
    pub consider: Fixed,
    /// Below the chance to bully: the agent goes after the one considered.
    pub bully: Fixed,
}

/// The first agent, from place `from` of `records` on, that the draws
/// `whims` send an agent after: one that it saw, that it did not hit last,
/// and on which both draws fell below their chances. There is no draw on a
/// record beyond the end of `whims`.
pub open spec fn first_pick(
    records: Seq<AgentSight>,
    last_hit: u32,
    whims: Seq<Whim>,
    from: int,
) -> Option<u32>
    decreases records.len() - from,
{
    if from < 0 || from >= records.len() || from >= whims.len() {
        None
    } else if whims[from].consider@ < CONSIDER_CHANCE && records[from].id != last_hit
        && whims[from].bully@ < BULLY_CHANCE {
        Some(records[from].id)
    } else {
        first_pick(records, last_hit, whims, from + 1)
    }
}

/// The goal that an agent picks at `time` on the draws `whims`, if it picks
/// one: none while the goal it has is younger than its memory lasts; then, for
/// a guardian that has seen the player's agent, to go after that; else to go
/// after the first agent that the draws send it after.
pub open spec fn picked_goal(agent: Agent, time: Fixed, whims: Seq<Whim>) -> Option<Goal> {
    if !(time.diff(agent.goal_time)@ > agent.memory_time@) {
        None
    } else if agent.is_guardian && sight_ids(agent.sensors.agent_sight@).contains(
        MAIN_CHARACTER_ID,
    ) {
        Some(Goal::Bully(MAIN_CHARACTER_ID))
    } else {
        match first_pick(agent.sensors.agent_sight@, agent.last_agent_hit, whims, 0) {
            Some(id) => Some(Goal::Bully(id)),
            None => None,
        }
    }
}

/// The agent after it has decided at `time` on the draws `whims`: with the
/// goal it picked, from now on, or as it was.
pub open spec fn decided(agent: Agent, time: Fixed, whims: Seq<Whim>) -> Agent {
    match picked_goal(agent, time, whims) {
        Some(goal) => Agent { goal, goal_time: time, ..agent },
        None => agent,
    }
}

/// `agent` may go after the agent `id` by chance: it has seen it, and it did
/// not hit it last.
pub open spec fn may_go_after(agent: Agent, id: u32) -> bool {
    &&& sight_ids(agent.sensors.agent_sight@).contains(id)
    &&& id != agent.last_agent_hit
}

/// `after` is `before` after it has decided at `time`, whatever it drew.
/// While its goal is no older than its memory lasts it stays as it is. After
/// that a guardian that has seen the player's agent goes after it, from now
/// on; any other agent stays as it is or goes, from now on, after an agent
/// that it may go after.
pub open spec fn has_decided(before: Agent, after: Agent, time: Fixed) -> bool {
    if !(time.diff(before.goal_time)@ > before.memory_time@) {
        after == before
    } else if before.is_guardian && sight_ids(before.sensors.agent_sight@).contains(
        MAIN_CHARACTER_ID,
    ) {
        after == (Agent { goal: Goal::Bully(MAIN_CHARACTER_ID), goal_time: time, ..before })
    } else {
        after == before || (exists|id: u32|
            may_go_after(before, id) && after == (Agent {
                goal: Goal::Bully(id),
                goal_time: time,
                ..before
            }))
    }
}

/// Whatever the draws, an agent that decides on them has decided.
pub proof fn lemma_decided(agent: Agent, time: Fixed, whims: Seq<Whim>)
    ensures
        has_decided(agent, decided(agent, time, whims), time),
{
    let records = agent.sensors.agent_sight@;
    lemma_first_pick(records, agent.last_agent_hit, whims, 0);
    match picked_goal(agent, time, whims) {
        Some(Goal::Bully(id)) => {
            if !(agent.is_guardian && sight_ids(records).contains(MAIN_CHARACTER_ID)) {
                assert(may_go_after(agent, id));
            }
        },
        _ => {},
    }
}

/// What `first_pick` picks is the id of a record, and not the agent hit last.
pub proof fn lemma_first_pick(records: Seq<AgentSight>, last_hit: u32, whims: Seq<Whim>, from: int)
    ensures
        match first_pick(records, last_hit, whims, from) {
            Some(id) => sight_ids(records).contains(id) && id != last_hit,
            None => true,
        },
    decreases records.len() - from,
{
    if from < 0 || from >= records.len() || from >= whims.len() {
    } else if whims[from].consider@ < CONSIDER_CHANCE && records[from].id != last_hit
        && whims[from].bully@ < BULLY_CHANCE {
        assert(sight_ids(records)[from] == records[from].id);
    } else {
        lemma_first_pick(records, last_hit, whims, from + 1);
    }
}

/// Whether the agent remembers having seen the agent `id`.
pub fn has_seen(agent: &Agent, id: u32) -> (r: bool)
    ensures
        r == sight_ids(agent.sensors.agent_sight@).contains(id),
{
    let found: Option<usize> = crate::agent::find_sight(&agent.sensors.agent_sight, id);
    proof {
        sight_ids(agent.sensors.agent_sight@).index_of_first_ensures(id);
    }
    found.is_some()
}

impl Agent {
    /// Decides at `time`, on the draws `whims`, whether to take a new goal.
    pub fn decide(&mut self, time: Fixed, whims: &Vec<Whim>)
        ensures
            *final(self) == decided(*old(self), time, whims@),
    {
        if !(time.minus(self.goal_time).raw > self.memory_time.raw) {
            return ;
        }
        if self.is_guardian && has_seen(self, MAIN_CHARACTER_ID) {
            self.goal = Goal::Bully(MAIN_CHARACTER_ID);
            self.goal_time = time;
            return ;
        }
        let n: usize = self.sensors.agent_sight.len();
        let mut k: usize = 0;
        while k < n && k < whims.len()
            invariant
                0 <= k <= n,
                n == self.sensors.agent_sight@.len(),
                *self == *old(self),
                time.diff(self.goal_time)@ > self.memory_time@,
                !(self.is_guardian && sight_ids(self.sensors.agent_sight@).contains(
                    MAIN_CHARACTER_ID,
                )),
                first_pick(self.sensors.agent_sight@, self.last_agent_hit, whims@, 0) == first_pick(
                    self.sensors.agent_sight@,
                    self.last_agent_hit,
                    whims@,
                    k as int,
                ),
            decreases n - k,
        {
            let seen: u32 = self.sensors.agent_sight[k].id;
            if whims[k].consider.raw < CONSIDER_CHANCE && seen != self.last_agent_hit
                && whims[k].bully.raw < BULLY_CHANCE {
                self.goal = Goal::Bully(seen);
                self.goal_time = time;
                return ;
            }
            k = k + 1;
        }
    }
}

/// One pair of draws for each of `n` agents seen, each draw from `[0, 1)`.
pub fn random_whims(n: usize) -> (r: Vec<Whim>)
    ensures
        r@.len() == n,
        forall|i: int|
            0 <= i < n ==> 0 <= (#[trigger] r@[i]).consider@ < ONE && 0 <= r@[i].bully@ < ONE,
{
    let first: Vec<Fixed> = random_units(n);
    let second: Vec<Fixed> = random_units(n);
    let mut whims: Vec<Whim> = Vec::new();
    let mut i: usize = 0;
    while i < n
        invariant
            0 <= i <= n,
            first@.len() == n,
            second@.len() == n,
            whims@.len() == i,
            forall|j: int| 0 <= j < n ==> 0 <= (#[trigger] first@[j])@ < ONE,
            forall|j: int| 0 <= j < n ==> 0 <= (#[trigger] second@[j])@ < ONE,
            forall|j: int|
                0 <= j < i ==> 0 <= (#[trigger] whims@[j]).consider@ < ONE && 0
                    <= whims@[j].bully@ < ONE,
        decreases n - i,
    {
        whims.push(Whim { consider: first[i], bully: second[i] });
        i = i + 1;
    }
    whims
}

/// Every agent decides at `time` whether to take a new goal: its draws are
/// taken here. An agent whose goal is no older than its memory lasts stays as
/// it is. Of the others, a guardian that has seen the player's agent goes
/// after it, from now on; any other stays as it is or goes, from now on, after
/// an agent that it has seen and did not hit last. Nothing else changes.
pub fn agent_decisions(game: &mut Game, time: Fixed)
    ensures
        final(game).agents@.len() == old(game).agents@.len(),
        forall|i: int|
            0 <= i < old(game).agents@.len() ==> has_decided(
                old(game).agents@[i],
                #[trigger] final(game).agents@[i],
                time,
            ),
        old(game).wf() ==> final(game).wf(),
        final(game).time == old(game).time,
        final(game).game_stage == old(game).game_stage,
        final(game).foods == old(game).foods,
        final(game).won == old(game).won,
{
    let n: usize = game.agents.len();
    let mut i: usize = 0;
    while i < n
        invariant
            0 <= i <= n,
            n == game.agents@.len(),
            n == old(game).agents@.len(),
            forall|j: int| i <= j < n ==> #[trigger] game.agents@[j] == old(game).agents@[j],
            forall|j: int|
                0 <= j < i ==> has_decided(old(game).agents@[j], #[trigger] game.agents@[j], time),
            forall|j: int|
                0 <= j < n ==> (#[trigger] game.agents@[j]).id == old(game).agents@[j].id && (old(
                    game,
                ).agents@[j].wf() ==> game.agents@[j].wf()),
            game.time == old(game).time,
            game.game_stage == old(game).game_stage,
            game.foods == old(game).foods,
            game.won == old(game).won,
        decreases n - i,
    {
        let whims: Vec<Whim> = random_whims(game.agents[i].sensors.agent_sight.len());
        proof {
            lemma_decided(game.agents@[i as int], time, whims@);
        }
        game.agents[i].decide(time, &whims);
        i = i + 1;
    }
    proof {
        assert(agent_ids(game.agents@) =~= agent_ids(old(game).agents@));
    }
}

/// The goal that the guard duty gives the agent `id` at a time when the
/// player's agent is at height `height`, if it gives it one. While the
/// player is in the upper half of the world every guardian goes after it.
/// While it is below, the guardians of the lower ids go to their posts, and
/// every other agent with an id below the end of the guardians' goes after
/// the player.
pub open spec fn duty(id: u32, guardian_pos: Vec2, height: Fixed) -> Option<Goal> {
    if height@ > quot_half_height() {
        if GUARDIANS_FROM <= id < GUARDIANS_BELOW {
            Some(Goal::Bully(MAIN_CHARACTER_ID))
        } else {
            None
        }
    } else if GUARDIANS_FROM <= id < GUARDIANS_POSTED_BELOW {
        Some(Goal::GoTo(guardian_pos))
    } else if id < GUARDIANS_BELOW {
        Some(Goal::Bully(MAIN_CHARACTER_ID))
    } else {
        None
    }
}

/// Half the raw height of the world.
pub open spec fn quot_half_height() -> int {
    LEVEL_HEIGHT / 2
}

/// The agent after the guard duty at `time`, with the player's agent at
/// height `height`.
pub open spec fn on_duty(agent: Agent, time: Fixed, height: Fixed) -> Agent {
    match duty(agent.id, agent.guardian_pos, height) {
        Some(goal) => Agent { goal, goal_time: time, ..agent },
        None => agent,
    }
}

/// The agent `agent` after the guardians of the world `agents` have been
/// sent at `time`: on its duty, once time has begun and while the world has
/// the player's agent; else as it is.
pub open spec fn sent(agent: Agent, agents: Seq<Agent>, time: Fixed) -> Agent {
    match lookup(agents, MAIN_CHARACTER_ID) {
        Some(p) => if time@ > 0 {
            on_duty(agent, time, agents[p].position.y)
        } else {
            agent
        },
        None => agent,
    }
}

/// Gives the guardians their goals at `time`, once time has begun and while
/// the world has the player's agent: see [`duty`].
pub fn send_guardians(game: &mut Game, time: Fixed)
    ensures
        final(game).agents@.len() == old(game).agents@.len(),
        forall|i: int|
            0 <= i < old(game).agents@.len() ==> #[trigger] final(game).agents@[i] == (
            match lookup(old(game).agents@, MAIN_CHARACTER_ID) {
                Some(p) => if time@ > 0 {
                    on_duty(old(game).agents@[i], time, old(game).agents@[p].position.y)
                } else {
                    old(game).agents@[i]
                },
                None => old(game).agents@[i],
            }),
        old(game).wf() ==> final(game).wf(),
        final(game).time == old(game).time,
        final(game).game_stage == old(game).game_stage,
        final(game).foods == old(game).foods,
        final(game).won == old(game).won,
{
    if time.raw <= 0 {
        return ;
    }
    let height: Fixed = match find_agent(&game.agents, MAIN_CHARACTER_ID) {
        Some(p) => game.agents[p].position.y,
        None => {
            return ;
        },
    };
    let n: usize = game.agents.len();
    let mut i: usize = 0;
    while i < n
        invariant
            0 <= i <= n,
            n == game.agents@.len(),
            n == old(game).agents@.len(),
            forall|j: int| i <= j < n ==> #[trigger] game.agents@[j] == old(game).agents@[j],
            forall|j: int|
                0 <= j < i ==> #[trigger] game.agents@[j] == on_duty(
                    old(game).agents@[j],
                    time,
                    height,
                ),
            game.time == old(game).time,
            game.game_stage == old(game).game_stage,
            game.foods == old(game).foods,
            game.won == old(game).won,
        decreases n - i,
    {
        let id: u32 = game.agents[i].id;
        if height.raw > LEVEL_HEIGHT / 2 {
            if GUARDIANS_FROM <= id && id < GUARDIANS_BELOW {
                game.agents[i].goal = Goal::Bully(MAIN_CHARACTER_ID);
                game.agents[i].goal_time = time;
            }
        } else if GUARDIANS_FROM <= id && id < GUARDIANS_POSTED_BELOW {
            let post: Vec2 = game.agents[i].guardian_pos;
            game.agents[i].goal = Goal::GoTo(post);
            game.agents[i].goal_time = time;
        } else if id < GUARDIANS_BELOW {
            game.agents[i].goal = Goal::Bully(MAIN_CHARACTER_ID);
            game.agents[i].goal_time = time;
        }
        i = i + 1;
    }
    proof {
        assert(agent_ids(game.agents@) =~= agent_ids(old(game).agents@));
    }
}

/// `jitter` is a sideways step that a search may take.
pub open spec fn is_jitter(jitter: Vec2) -> bool {
    -JITTER <= jitter.x@ < JITTER && -JITTER <= jitter.y@ < JITTER
}

/// Every agent turns its goal into a target, with the sideways steps
/// `jitters`, one for each agent. The agents are where they are before the
/// pass. Nothing but the targets changes.
pub fn agent_action_with(game: &mut Game, jitters: &Vec<Vec2>)
    requires
        jitters@.len() == old(game).agents@.len(),
    ensures
        final(game).agents@.len() == old(game).agents@.len(),
        forall|i: int|
            0 <= i < old(game).agents@.len() ==> #[trigger] final(game).agents@[i] == (Agent {
                target_position: old(game).agents@[i].target_for(
                    agent_entries(old(game).agents@),
                    jitters@[i],
                ),
                ..old(game).agents@[i]
            }),
        old(game).wf() ==> final(game).wf(),
        final(game).time == old(game).time,
        final(game).game_stage == old(game).game_stage,
        final(game).foods == old(game).foods,
        final(game).won == old(game).won,
{
    let agent_positions: Vec<IndexEntry> = entries_of(&game.agents);
    let n: usize = game.agents.len();
    let mut i: usize = 0;
    while i < n
        invariant
            0 <= i <= n,
            n == game.agents@.len(),
            n == old(game).agents@.len(),
            n == jitters@.len(),
            agent_positions@ == agent_entries(old(game).agents@),
            forall|j: int| i <= j < n ==> #[trigger] game.agents@[j] == old(game).agents@[j],
            forall|j: int|
                0 <= j < i ==> #[trigger] game.agents@[j] == (Agent {
                    target_position: old(game).agents@[j].target_for(
                        agent_entries(old(game).agents@),
                        jitters@[j],
                    ),
                    ..old(game).agents@[j]
                }),
            game.time == old(game).time,
            game.game_stage == old(game).game_stage,
            game.foods == old(game).foods,
            game.won == old(game).won,
        decreases n - i,
    {
        game.agents[i].act(&agent_positions, jitters[i]);
        i = i + 1;
    }
    proof {
        assert(agent_ids(game.agents@) =~= agent_ids(old(game).agents@));
    }
}

/// `n` sideways steps, each coordinate drawn from the width of a search's
/// step.
pub fn random_jitters(n: usize) -> (r: Vec<Vec2>)
    ensures
        r@.len() == n,
        forall|i: int| 0 <= i < n ==> is_jitter(#[trigger] r@[i]),
{
    let mut jitters: Vec<Vec2> = Vec::new();
    let mut i: usize = 0;
    while i < n
        invariant
            0 <= i <= n,
            jitters@.len() == i,
            forall|j: int| 0 <= j < i ==> is_jitter(#[trigger] jitters@[j]),
        decreases n - i,
    {
        let x: Fixed = random_between(Fixed::new(-JITTER), Fixed::new(JITTER));
        let y: Fixed = random_between(Fixed::new(-JITTER), Fixed::new(JITTER));
        jitters.push(Vec2::new(x, y));
        i = i + 1;
    }
    jitters
}

/// `after` is `before` with the target that its goal gives it, for some
/// sideways step that a search may take.
pub open spec fn acted(before: Agent, after: Agent, positions: Seq<IndexEntry>) -> bool {
    exists|jitter: Vec2|
        is_jitter(jitter) && after == (Agent {
            target_position: #[trigger] before.target_for(positions, jitter),
            ..before
        })
}

/// Every agent turns its goal into a target; the sideways step of a search
/// is drawn here. Nothing but the targets changes.
pub fn agent_action(game: &mut Game)
    ensures
        final(game).agents@.len() == old(game).agents@.len(),
        forall|i: int|
            0 <= i < old(game).agents@.len() ==> acted(
                old(game).agents@[i],
                #[trigger] final(game).agents@[i],
                agent_entries(old(game).agents@),
            ),
        old(game).wf() ==> final(game).wf(),
        final(game).time == old(game).time,
        final(game).game_stage == old(game).game_stage,
        final(game).foods == old(game).foods,
        final(game).won == old(game).won,
{
    let jitters: Vec<Vec2> = random_jitters(game.agents.len());
    agent_action_with(game, &jitters);
    proof {
        assert forall|i: int| 0 <= i < old(game).agents@.len() implies acted(
            old(game).agents@[i],
            #[trigger] game.agents@[i],
            agent_entries(old(game).agents@),
        ) by {
            assert(is_jitter(jitters@[i]));
            let target = old(game).agents@[i].target_for(
                agent_entries(old(game).agents@),
                jitters@[i],
            );
            assert(game.agents@[i] == (Agent { target_position: target, ..old(game).agents@[i] }));
        }
    }
}

} // verus!
