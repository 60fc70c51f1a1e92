//! The grid on which a battle is fought.

use crate::dice::roll;
use crate::models::Agent;
use rand::rngs::StdRng;
use vstd::prelude::*;

verus! {

/// Number of columns of the grid; a column index is `0 <= x < ARENA_WIDTH`.
pub const ARENA_WIDTH: i32 = 100;

/// Number of rows of the grid; a row index is `0 <= y < ARENA_HEIGHT`.
pub const ARENA_HEIGHT: i32 = 100;

/// Number of cells of the grid, and so the most agents that fit on it with a
/// cell each.
pub const ARENA_CELLS: usize = 10_000;

/// Whether the cell `(x, y)` lies on the grid.
pub open spec fn within_bounds(x: int, y: int) -> bool {
    0 <= x < ARENA_WIDTH && 0 <= y < ARENA_HEIGHT
}

/// The value of the range `low..=high` that is nearest to `value`.
pub open spec fn clamped(value: int, low: int, high: int) -> int {
    if value < low {
        low
    } else if value > high {
        high
    } else {
        value
    }
}

/// Decides whether the cell `(x, y)` lies on the grid.
pub fn is_within_bounds(x: i32, y: i32) -> (inside: bool)
    ensures
        inside == within_bounds(x as int, y as int),
{
    x >= 0 && x < ARENA_WIDTH && y >= 0 && y < ARENA_HEIGHT
}

/// Whether some living agent of `agents` stands on `cell`.
pub open spec fn held_by_living(agents: Seq<Agent>, cell: (i32, i32)) -> bool {
    exists|i: int|
        0 <= i < agents.len() && (#[trigger] agents[i]).alive && agents[i].x == cell.0
            && agents[i].y == cell.1
}

/// Lists the cells on which living agents stand, each cell once.
pub fn get_occupied_positions(agents: &Vec<Agent>) -> (cells: Vec<(i32, i32)>)
    ensures
        cells@.no_duplicates(),
        forall|cell: (i32, i32)| cells@.contains(cell) <==> held_by_living(agents@, cell),
{
    let mut cells: Vec<(i32, i32)> = Vec::new();
    let mut i: usize = 0;
    while i < agents.len()
        invariant
            i <= agents.len(),
            cells@.no_duplicates(),
            forall|cell: (i32, i32)|
                cells@.contains(cell) <==> held_by_living(agents@.take(i as int), cell),
        decreases agents.len() - i,
    {
        let ghost before = cells@;
        let agent = agents[i];
        let cell = (agent.x, agent.y);
        let mut known = false;
        if agent.alive {
            let mut k: usize = 0;
            while k < cells.len()
                invariant
                    k <= cells.len(),
                    known <==> exists|j: int| 0 <= j < k && cells@[j] == cell,
                decreases cells.len() - k,
            {
                if cells[k].0 == cell.0 && cells[k].1 == cell.1 {
                    known = true;
                }
                k += 1;
            }
            if !known {
                cells.push(cell);
            }
        }
        proof {
            let seen = agents@.take(i as int);
            let next = agents@.take(i as int + 1);
            assert(next.drop_last() =~= seen);
            assert forall|c: (i32, i32)| cells@.contains(c) <==> held_by_living(next, c) by {
                if held_by_living(next, c) {
                    let j = choose|j: int|
                        0 <= j < next.len() && (#[trigger] next[j]).alive && next[j].x == c.0
                            && next[j].y == c.1;
                    if j < i {
                        assert(seen[j] == next[j]);
                        assert(held_by_living(seen, c));
                        assert(before.contains(c));
                        let w = choose|w: int| 0 <= w < before.len() && before[w] == c;
                        assert(cells@[w] == c);
                    } else {
                        assert(c == cell);
                        if known {
                            assert(cells@.contains(c));
                        } else {
                            assert(cells@[cells@.len() - 1] == c);
                        }
                    }
                }
                if cells@.contains(c) {
                    let w = choose|w: int| 0 <= w < cells@.len() && cells@[w] == c;
                    if w < before.len() {
                        assert(before[w] == c);
                        assert(before.contains(c));
                        let j = choose|j: int|
                            0 <= j < seen.len() && (#[trigger] seen[j]).alive && seen[j].x == c.0
                                && seen[j].y == c.1;
                        assert(next[j] == seen[j]);
                    } else {
                        assert(c == cell);
                        assert(next[i as int].alive);
                    }
                }
            }
        }
        i += 1;
    }
    proof {
        assert(agents@.take(agents.len() as int) =~= agents@);
    }
    cells
}

/// The agent after it drifted by `(dx, dy)` on a grid of `width` columns and
/// `height` rows: each coordinate moves by its part and is held to the grid.
pub open spec fn wandered(a: Agent, dx: int, dy: int, width: int, height: int) -> Agent {
    Agent {
        x: clamped(a.x + dx, 0, width - 1) as i32,
        y: clamped(a.y + dy, 0, height - 1) as i32,
        ..a
    }
}

/// Whether `b` is `a` after it drifted by at most one cell along each axis.
pub open spec fn may_wander(a: Agent, b: Agent, width: int, height: int) -> bool {
    exists|dx: int, dy: int|
        -1 <= dx <= 1 && -1 <= dy <= 1 && b == #[trigger] wandered(a, dx, dy, width, height)
}

/// A grid of fixed size on which agents can be placed and can drift.
pub struct Arena {
    width: i32,
    height: i32,
}

impl Arena {
    /// Number of columns.
    pub closed spec fn columns(&self) -> int {
        self.width as int
    }

    /// Number of rows.
    pub closed spec fn rows(&self) -> int {
        self.height as int
    }

    /// Every grid has at least one cell.
    #[verifier::type_invariant]
    spec fn has_cells(&self) -> bool {
        self.width >= 1 && self.height >= 1
    }

    /// The grid of `ARENA_WIDTH` columns and `ARENA_HEIGHT` rows.
    pub fn new() -> (arena: Arena)
        ensures
            arena.columns() == ARENA_WIDTH,
            arena.rows() == ARENA_HEIGHT,
    {
        Arena { width: ARENA_WIDTH, height: ARENA_HEIGHT }
    }

    /// Draws a cell of the grid.
    pub fn random_position(rng: &mut StdRng) -> (cell: (i32, i32))
        ensures
            within_bounds(cell.0 as int, cell.1 as int),
    {
        let x = roll(rng, 0, ARENA_WIDTH - 1);
        let y = roll(rng, 0, ARENA_HEIGHT - 1);
        (x, y)
    }

    /// The agent after it drifted by `(dx, dy)`, held to the grid.
    pub fn drift(&self, agent: &Agent, dx: i32, dy: i32) -> (drifted: Agent)
        ensures
            drifted == wandered(*agent, dx as int, dy as int, self.columns(), self.rows()),
    {
        proof {
            use_type_invariant(self);
        }
        let mut drifted = *agent;
        drifted.x = hold_to(agent.x as i64 + dx as i64, self.width);
        drifted.y = hold_to(agent.y as i64 + dy as i64, self.height);
        drifted
    }

    /// Lets every living agent drift by at most one cell along each axis,
    /// held to the grid. The dead stay where they are.
    pub fn update_positions(&mut self, agents: &mut Vec<Agent>, rng: &mut StdRng)
        ensures
            final(self).columns() == old(self).columns(),
            final(self).rows() == old(self).rows(),
            final(agents).len() == old(agents).len(),
            forall|i: int|
                0 <= i < old(agents).len() ==> if old(agents)@[i].alive {
                    may_wander(
                        old(agents)@[i],
                        #[trigger] final(agents)@[i],
                        old(self).columns(),
                        old(self).rows(),
                    )
                } else {
                    final(agents)@[i] == old(agents)@[i]
                },
    {
        let ghost start = agents@;
        let mut i: usize = 0;
        while i < agents.len()
            invariant
                i <= agents.len(),
                agents.len() == start.len(),
                *self == *old(self),
                forall|j: int| i <= j < start.len() ==> #[trigger] agents@[j] == start[j],
                forall|j: int|
                    0 <= j < i ==> if start[j].alive {
                        may_wander(start[j], #[trigger] agents@[j], self.columns(), self.rows())
                    } else {
                        agents@[j] == start[j]
                    },
            decreases agents.len() - i,
        {
            let agent = agents[i];
            if agent.alive {
                let dx = roll(rng, -1, 1);
                let dy = roll(rng, -1, 1);
                let drifted = self.drift(&agent, dx, dy);
                agents.set(i, drifted);
            }
            i += 1;
        }
    }
}

/// Holds a coordinate to an axis of `size` cells.
pub(crate) fn hold_to(value: i64, size: i32) -> (held: i32)
    requires
        size >= 1,
    ensures
        held == clamped(value as int, 0, size - 1),
{
    if value < 0 {
        0
    } else if value > (size - 1) as i64 {
        size - 1
    } else {
        value as i32
    }
}

} // verus!
