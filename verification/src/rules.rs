//! The Game-of-Life transition rule, stated over mathematical sets of
//! lattice points, together with the chunk partition of the lattice and the
//! general laws the simulation obeys.

use vstd::prelude::*;

use crate::coord::{adjacent, in_bounds};

verus! {

/// Chunks are squares of `CHUNK_SIZE` by `CHUNK_SIZE` cells, obtained by
/// floor-dividing both coordinates of a point.
pub const CHUNK_SIZE: i32 = 128;

/// One when the point `(x, y)` is live, zero otherwise.
pub open spec fn occ(live: Set<(int, int)>, x: int, y: int) -> int {
    if live.contains((x, y)) {
        1
    } else {
        0
    }
}

/// How many of the eight neighbours of `p` are live. Cells never count
/// themselves, and the lattice does not wrap around: points beyond the
/// representable range are never live, so they contribute nothing.
pub open spec fn live_neighbours(live: Set<(int, int)>, p: (int, int)) -> int {
    occ(live, p.0 - 1, p.1 - 1) + occ(live, p.0, p.1 - 1) + occ(live, p.0 + 1, p.1 - 1) + occ(
        live,
        p.0 - 1,
        p.1,
    ) + occ(live, p.0 + 1, p.1) + occ(live, p.0 - 1, p.1 + 1) + occ(live, p.0, p.1 + 1) + occ(
        live,
        p.0 + 1,
        p.1 + 1,
    )
}

/// Whether `p` is live in the generation after `live`: a live cell survives
/// with two or three live neighbours, a dead representable cell is born with
/// exactly three, and everything else is dead.
pub open spec fn next_alive(live: Set<(int, int)>, p: (int, int)) -> bool {
    in_bounds(p) && if live.contains(p) {
        live_neighbours(live, p) == 2 || live_neighbours(live, p) == 3
    } else {
        live_neighbours(live, p) == 3
    }
}

/// The generation that follows `live`.
pub open spec fn next_gen(live: Set<(int, int)>) -> Set<(int, int)> {
    Set::new(|p: (int, int)| next_alive(live, p))
}

/// `n` generations after `live`.
pub open spec fn step_n(live: Set<(int, int)>, n: nat) -> Set<(int, int)>
    decreases n,
{
    if n == 0 {
        live
    } else {
        step_n(next_gen(live), (n - 1) as nat)
    }
}

/// The representable points that neighbour at least one live cell: the only
/// points a generation step has to examine, since every survivor and every
/// birth has a live neighbour.
pub open spec fn candidate_set(live: Set<(int, int)>) -> Set<(int, int)> {
    Set::new(
        |q: (int, int)|
            in_bounds(q) && exists|p: (int, int)| live.contains(p) && adjacent(q, p),
    )
}

/// The population after toggling the cell at `p`.
pub open spec fn toggled(live: Set<(int, int)>, p: (int, int)) -> Set<(int, int)> {
    if live.contains(p) {
        live.remove(p)
    } else {
        live.insert(p)
    }
}

/// The chunk a point belongs to.
pub open spec fn chunk_of(p: (int, int)) -> (int, int) {
    (p.0 / (CHUNK_SIZE as int), p.1 / (CHUNK_SIZE as int))
}

/// The chunks that contain at least one cell of `live`.
pub open spec fn chunks_of(live: Set<(int, int)>) -> Set<(int, int)> {
    Set::new(|ch: (int, int)| exists|p: (int, int)| live.contains(p) && ch == chunk_of(p))
}

/// Every cell of the next generation has at least two live neighbours, so
/// it lies in the candidate set: examining candidates alone loses nothing.
pub(crate) proof fn lemma_next_gen_in_candidates(live: Set<(int, int)>)
    ensures
        forall|p: (int, int)| #[trigger] next_gen(live).contains(p) ==> candidate_set(
            live,
        ).contains(p),
{
    assert forall|p: (int, int)| #[trigger] next_gen(live).contains(p) implies candidate_set(
        live,
    ).contains(p) by {
        assert(next_alive(live, p));
        if live.contains((p.0 - 1, p.1 - 1)) {
            assert(adjacent(p, (p.0 - 1, p.1 - 1)));
        } else if live.contains((p.0, p.1 - 1)) {
            assert(adjacent(p, (p.0, p.1 - 1)));
        } else if live.contains((p.0 + 1, p.1 - 1)) {
            assert(adjacent(p, (p.0 + 1, p.1 - 1)));
        } else if live.contains((p.0 - 1, p.1)) {
            assert(adjacent(p, (p.0 - 1, p.1)));
        } else if live.contains((p.0 + 1, p.1)) {
            assert(adjacent(p, (p.0 + 1, p.1)));
        } else if live.contains((p.0 - 1, p.1 + 1)) {
            assert(adjacent(p, (p.0 - 1, p.1 + 1)));
        } else if live.contains((p.0, p.1 + 1)) {
            assert(adjacent(p, (p.0, p.1 + 1)));
        } else if live.contains((p.0 + 1, p.1 + 1)) {
            assert(adjacent(p, (p.0 + 1, p.1 + 1)));
        } else {
            assert(live_neighbours(live, p) == 0);
            assert(false);
        }
    }
}

/// The birth and survival rule, cell by cell: a live cell with fewer than
/// two or more than three live neighbours dies, a live cell with two or
/// three survives, and a dead cell is born exactly when it has three.
pub proof fn lemma_rule_correctness(live: Set<(int, int)>, p: (int, int))
    requires
        in_bounds(p),
    ensures
        live.contains(p) && live_neighbours(live, p) < 2 ==> !next_gen(live).contains(p),
        live.contains(p) && (live_neighbours(live, p) == 2 || live_neighbours(live, p) == 3)
            ==> next_gen(live).contains(p),
        live.contains(p) && live_neighbours(live, p) >= 4 ==> !next_gen(live).contains(p),
        !live.contains(p) ==> (next_gen(live).contains(p) <==> live_neighbours(live, p) == 3),
{
}

/// The four cells of a two-by-two block anchored at its lower-left corner.
pub open spec fn block_at(x: int, y: int) -> Set<(int, int)> {
    set![(x, y), (x + 1, y), (x, y + 1), (x + 1, y + 1)]
}

/// A two-by-two block of live cells is a still life: one generation step
/// leaves it exactly as it is.
pub proof fn lemma_block_still_life(x: int, y: int)
    requires
        in_bounds((x, y)),
        in_bounds((x + 1, y + 1)),
    ensures
        next_gen(block_at(x, y)) == block_at(x, y),
{
    let b = block_at(x, y);
    assert forall|p: (int, int)| next_gen(b).contains(p) <==> b.contains(p) by {
        if b.contains(p) {
            assert(live_neighbours(b, p) == 3);
        } else if next_gen(b).contains(p) {
            assert(live_neighbours(b, p) == 3);
            assert(false);
        }
    }
    assert(next_gen(b) =~= b);
}

/// Toggling the same cell twice restores the original population.
pub proof fn lemma_toggle_self_inverse(live: Set<(int, int)>, p: (int, int))
    ensures
        toggled(toggled(live, p), p) == live,
{
    if live.contains(p) {
        assert(toggled(toggled(live, p), p) =~= live);
    } else {
        assert(toggled(toggled(live, p), p) =~= live);
    }
}

/// Running `n + 1` generations is one further generation after running `n`:
/// stepping many times at once agrees with stepping once repeatedly.
pub proof fn lemma_step_n_unfolds(live: Set<(int, int)>, n: nat)
    ensures
        step_n(live, n + 1) == next_gen(step_n(live, n)),
    decreases n,
{
    reveal_with_fuel(step_n, 2);
    if n > 0 {
        lemma_step_n_unfolds(next_gen(live), (n - 1) as nat);
    }
}

} // verus!
