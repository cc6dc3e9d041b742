//! The spatial index: for each grid cell, the agents standing on it in
//! ascending order of their index.
use vstd::prelude::*;
use crate::agent::Agent;

verus! {

/// The indices of the agents of `agents` that stand on cell `(x, y)`, in
/// ascending order.
pub open spec fn occupants(agents: Seq<Agent>, x: usize, y: usize) -> Seq<usize>
    decreases agents.len(),
{
    if agents.len() == 0 {
        seq![]
    } else {
        let prev = occupants(agents.drop_last(), x, y);
        if agents.last().x == x && agents.last().y == y {
            prev.push((agents.len() - 1) as usize)
        } else {
            prev
        }
    }
}

/// `grid` is a `width` by `height` index whose every cell lists exactly the
/// occupants that `agents` places there.
pub open spec fn indexes(grid: Seq<Vec<Vec<usize>>>, agents: Seq<Agent>, width: usize, height: usize) -> bool {
    &&& grid.len() == width
    &&& forall|x: int| 0 <= x < width ==> (#[trigger] grid[x])@.len() == height
    &&& forall|x: usize, y: usize|
        x < width && y < height ==> (#[trigger] grid[x as int]@[y as int])@ == occupants(agents, x, y)
}

/// An index lists an agent on a cell exactly when the agent stands there.
pub proof fn lemma_occupants(agents: Seq<Agent>, x: usize, y: usize)
    requires
        agents.len() <= usize::MAX,
    ensures
        forall|k: int| 0 <= k < occupants(agents, x, y).len() ==> {
            let j = #[trigger] occupants(agents, x, y)[k];
            &&& j < agents.len()
            &&& agents[j as int].x == x
            &&& agents[j as int].y == y
        },
        forall|j: usize| j < agents.len() && agents[j as int].x == x && agents[j as int].y == y
            ==> #[trigger] occupants(agents, x, y).contains(j),
    decreases agents.len(),
{
    if agents.len() > 0 {
        let rest = agents.drop_last();
        lemma_occupants(rest, x, y);
        let prev = occupants(rest, x, y);
        let occ = occupants(agents, x, y);
        assert forall|k: int| 0 <= k < occ.len() implies {
            let j = #[trigger] occ[k];
            &&& j < agents.len()
            &&& agents[j as int].x == x
            &&& agents[j as int].y == y
        } by {
            if k < prev.len() {
                assert(occ[k] == prev[k]);
                assert(agents[prev[k] as int] == rest[prev[k] as int]);
            }
        }
        assert forall|j: usize| j < agents.len() && agents[j as int].x == x && agents[j as int].y == y
            implies #[trigger] occ.contains(j) by {
            if j < rest.len() {
                assert(rest[j as int] == agents[j as int]);
                assert(prev.contains(j));
                let k = choose|k: int| 0 <= k < prev.len() && prev[k] == j;
                assert(occ[k] == j);
            } else {
                assert(occ[occ.len() - 1] == j);
            }
        }
    }
}

/// The index depends on positions alone.
pub proof fn lemma_occupants_positions(a: Seq<Agent>, b: Seq<Agent>, x: usize, y: usize)
    requires
        a.len() == b.len(),
        forall|j: int| 0 <= j < a.len() ==> (#[trigger] a[j]).x == b[j].x && a[j].y == b[j].y,
    ensures
        occupants(a, x, y) == occupants(b, x, y),
    decreases a.len(),
{
    if a.len() > 0 {
        let (a1, b1) = (a.drop_last(), b.drop_last());
        assert forall|j: int| 0 <= j < a1.len() implies (#[trigger] a1[j]).x == b1[j].x && a1[j].y == b1[j].y by {
            assert(a1[j] == a[j] && b1[j] == b[j]);
        }
        lemma_occupants_positions(a1, b1, x, y);
    }
}

/// An index of `width` by `height` cells, all of them empty.
pub fn empty_grid(width: usize, height: usize) -> (r: Vec<Vec<Vec<usize>>>)
    ensures
        indexes(r@, seq![], width, height),
{
    let mut grid: Vec<Vec<Vec<usize>>> = Vec::new();
    let mut x: usize = 0;
    while x < width
        invariant
            x <= width,
            grid@.len() == x,
            forall|i: int| 0 <= i < x ==> (#[trigger] grid@[i])@.len() == height,
            forall|i: usize, j: usize| i < x && j < height ==> (#[trigger] grid@[i as int]@[j as int])@ == Seq::<usize>::empty(),
        decreases width - x,
    {
        let mut column: Vec<Vec<usize>> = Vec::new();
        let mut y: usize = 0;
        while y < height
            invariant
                y <= height,
                column@.len() == y,
                forall|j: int| 0 <= j < y ==> (#[trigger] column@[j])@ == Seq::<usize>::empty(),
            decreases height - y,
        {
            column.push(Vec::new());
            y = y + 1;
        }
        grid.push(column);
        x = x + 1;
    }
    assert forall|i: usize, j: usize| i < width && j < height implies (#[trigger] grid@[i as int]@[j as int])@ == occupants(seq![], i, j) by {
        assert(occupants(Seq::<Agent>::empty(), i, j) == Seq::<usize>::empty());
    }
    grid
}

} // verus!
