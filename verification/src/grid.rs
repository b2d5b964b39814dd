//! The sparse grid: the set of live cells, stored as a vector of
//! coordinates in strictly ascending row-major order, and the set of active
//! chunks that gates point queries.

use vstd::prelude::*;

use crate::coord::{
    adjacent, in_bounds, neighbour_set, point_set, row_major_lt, strictly_sorted, Coord,
};
use crate::rules::{
    candidate_set, chunk_of, chunks_of, lemma_next_gen_in_candidates, lemma_step_n_unfolds,
    live_neighbours, next_alive, next_gen, step_n, toggled, CHUNK_SIZE,
};
use crate::sorted::{
    contains_coord, insert_sorted, lemma_point_set_in_bounds, lemma_point_set_push, remove_sorted,
};

verus! {

/// A closed rectangular window on the lattice, both corners included.
pub open spec fn in_rect(p: (int, int), lo: (int, int), hi: (int, int)) -> bool {
    lo.0 <= p.0 <= hi.0 && lo.1 <= p.1 <= hi.1
}

/// The set of lattice points a sequence of query results denotes.
pub open spec fn result_points(s: Seq<(Coord, Cell)>) -> Set<(int, int)> {
    Set::new(|p: (int, int)| exists|i: int| 0 <= i < s.len() && s[i].0@ == p)
}

/// The representable points that neighbour one of the first `n` entries.
spec fn prefix_candidates(s: Seq<Coord>, n: int) -> Set<(int, int)> {
    Set::new(|q: (int, int)| in_bounds(q) && exists|k: int| 0 <= k < n && adjacent(q, s[k]@))
}

/// The payload of a live cell. It carries no data in this design: a cell is
/// alive exactly when its coordinate is part of the population.
#[derive(Clone, Copy, PartialEq, Eq, Structural, Debug)]
pub struct Cell;

/// The simulation state: every live cell, plus the chunks considered
/// active. A chunk outside the active set is known to hold no live cell, so
/// point queries may dismiss it at once.
pub struct Grid {
    cells: Vec<Coord>,
    active: Vec<Coord>,
}

/// Floor division of a coordinate by the chunk size, exact also for
/// negative values (ordinary signed division would round towards zero).
fn floor_div_chunk(a: i32) -> (q: i32)
    ensures
        q as int == (a as int) / (CHUNK_SIZE as int),
{
    let s: u64 = ((a as i64) + 2147483648) as u64;
    let d: u64 = s / 128;
    proof {
        vstd::arithmetic::div_mod::lemma_fundamental_div_mod(s as int, 128);
        vstd::arithmetic::div_mod::lemma_fundamental_div_mod_converse(
            a as int,
            128,
            d as int - 16777216,
            (s as int) % 128,
        );
    }
    ((d as i64) - 16777216) as i32
}

/// The chunk a cell belongs to, as a coordinate pair of chunk indices.
fn chunk_coord(c: Coord) -> (r: Coord)
    ensures
        r@ == chunk_of(c@),
{
    Coord { x: floor_div_chunk(c.x), y: floor_div_chunk(c.y) }
}

/// `result_points` of a sequence with an entry pushed at the end.
proof fn lemma_result_points_push(s: Seq<(Coord, Cell)>, e: (Coord, Cell))
    ensures
        result_points(s.push(e)) == result_points(s).insert(e.0@),
{
    let t = s.push(e);
    assert forall|p: (int, int)| result_points(t).contains(p) implies result_points(s).insert(
        e.0@,
    ).contains(p) by {
        let j = choose|j: int| 0 <= j < t.len() && t[j].0@ == p;
        if j < s.len() {
            assert(s[j].0@ == p);
        }
    }
    assert forall|p: (int, int)| result_points(s).insert(e.0@).contains(p) implies result_points(
        t,
    ).contains(p) by {
        if p == e.0@ {
            assert(t[s.len() as int].0@ == p);
        } else {
            let j = choose|j: int| 0 <= j < s.len() && s[j].0@ == p;
            assert(t[j].0@ == p);
        }
    }
    assert(result_points(t) =~= result_points(s).insert(e.0@));
}

/// Accumulates the representable neighbours of `c` into the sorted vector
/// `cand`.
fn add_neighbours(cand: &mut Vec<Coord>, c: Coord)
    requires
        strictly_sorted(old(cand)@),
    ensures
        strictly_sorted(final(cand)@),
        point_set(final(cand)@) == point_set(old(cand)@).union(neighbour_set(c@)),
{
    let nb = c.neighbours();
    let mut j: usize = 0;
    while j < nb.len()
        invariant
            j <= nb@.len(),
            strictly_sorted(nb@),
            point_set(nb@) == neighbour_set(c@),
            strictly_sorted(cand@),
            point_set(cand@) == point_set(old(cand)@).union(
                point_set(nb@.subrange(0, j as int)),
            ),
        decreases nb@.len() - j,
    {
        insert_sorted(cand, nb[j]);
        proof {
            assert(nb@.subrange(0, j + 1) =~= nb@.subrange(0, j as int).push(nb@[j as int]));
            lemma_point_set_push(nb@.subrange(0, j as int), nb@[j as int]);
            assert(point_set(cand@) =~= point_set(old(cand)@).union(
                point_set(nb@.subrange(0, j + 1)),
            ));
        }
        j += 1;
    }
    proof {
        assert(nb@.subrange(0, nb@.len() as int) =~= nb@);
    }
}

/// Collects every representable neighbour of a live cell: the candidate
/// coordinates a generation step has to examine.
fn gather_candidates(cells: &Vec<Coord>) -> (cand: Vec<Coord>)
    ensures
        strictly_sorted(cand@),
        point_set(cand@) == candidate_set(point_set(cells@)),
{
    let mut cand: Vec<Coord> = Vec::new();
    let mut i: usize = 0;
    while i < cells.len()
        invariant
            i <= cells@.len(),
            strictly_sorted(cand@),
            point_set(cand@) == prefix_candidates(cells@, i as int),
        decreases cells@.len() - i,
    {
        add_neighbours(&mut cand, cells[i]);
        proof {
            let s = cells@;
            let nbs = neighbour_set(s[i as int]@);
            assert forall|q: (int, int)| prefix_candidates(s, i as int).union(nbs).contains(q)
                implies prefix_candidates(s, i + 1).contains(q) by {
                if prefix_candidates(s, i as int).contains(q) {
                    let k = choose|k: int| 0 <= k < i && adjacent(q, s[k]@);
                    assert(0 <= k < i + 1 && adjacent(q, s[k]@));
                } else {
                    assert(adjacent(q, s[i as int]@));
                }
            }
            assert forall|q: (int, int)| prefix_candidates(s, i + 1).contains(q)
                implies prefix_candidates(s, i as int).union(nbs).contains(q) by {
                let k = choose|k: int| 0 <= k < i + 1 && adjacent(q, s[k]@);
                if k < i {
                    assert(prefix_candidates(s, i as int).contains(q));
                } else {
                    assert(nbs.contains(q));
                }
            }
            assert(point_set(cand@) =~= prefix_candidates(s, i + 1));
        }
        i += 1;
    }
    proof {
        let s = cells@;
        let live = point_set(s);
        assert forall|q: (int, int)| prefix_candidates(s, s.len() as int).contains(q)
            implies candidate_set(live).contains(q) by {
            let k = choose|k: int| 0 <= k < s.len() && adjacent(q, s[k]@);
            assert(live.contains(s[k]@));
        }
        assert forall|q: (int, int)| candidate_set(live).contains(q) implies prefix_candidates(
            s,
            s.len() as int,
        ).contains(q) by {
            let p = choose|p: (int, int)| live.contains(p) && adjacent(q, p);
            let k = choose|k: int| 0 <= k < s.len() && s[k]@ == p;
            assert(0 <= k < s.len() && adjacent(q, s[k]@));
        }
        assert(point_set(cand@) =~= candidate_set(live));
    }
    cand
}

/// Whether the lattice point `(x, y)` is live; points beyond the
/// representable range never are.
fn neighbour_alive(cells: &Vec<Coord>, x: i64, y: i64) -> (r: bool)
    ensures
        r == point_set(cells@).contains((x as int, y as int)),
{
    if x >= (i32::MIN as i64) && x <= (i32::MAX as i64) && y >= (i32::MIN as i64) && y <= (
    i32::MAX as i64) {
        contains_coord(cells, Coord { x: x as i32, y: y as i32 })
    } else {
        proof {
            if point_set(cells@).contains((x as int, y as int)) {
                lemma_point_set_in_bounds(cells@, (x as int, y as int));
            }
        }
        false
    }
}

/// Counts the live neighbours of `c`: zero to eight, never counting the
/// cell itself, with no wrap-around at the coordinate limits.
fn live_neighbour_count(cells: &Vec<Coord>, c: Coord) -> (n: u32)
    ensures
        n as int == live_neighbours(point_set(cells@), c@),
{
    let x = c.x as i64;
    let y = c.y as i64;
    let mut n: u32 = 0;
    if neighbour_alive(cells, x - 1, y - 1) {
        n += 1;
    }
    if neighbour_alive(cells, x, y - 1) {
        n += 1;
    }
    if neighbour_alive(cells, x + 1, y - 1) {
        n += 1;
    }
    if neighbour_alive(cells, x - 1, y) {
        n += 1;
    }
    if neighbour_alive(cells, x + 1, y) {
        n += 1;
    }
    if neighbour_alive(cells, x - 1, y + 1) {
        n += 1;
    }
    if neighbour_alive(cells, x, y + 1) {
        n += 1;
    }
    if neighbour_alive(cells, x + 1, y + 1) {
        n += 1;
    }
    n
}

/// Applies the birth and survival rule to every candidate, producing the
/// next population in ascending row-major order.
fn next_population(cells: &Vec<Coord>, cand: &Vec<Coord>) -> (next: Vec<Coord>)
    requires
        strictly_sorted(cells@),
        strictly_sorted(cand@),
        point_set(cand@) == candidate_set(point_set(cells@)),
    ensures
        strictly_sorted(next@),
        point_set(next@) == next_gen(point_set(cells@)),
{
    let ghost live = point_set(cells@);
    let mut next: Vec<Coord> = Vec::new();
    let mut i: usize = 0;
    while i < cand.len()
        invariant
            i <= cand@.len(),
            strictly_sorted(cand@),
            live == point_set(cells@),
            strictly_sorted(next@),
            forall|a: int, k: int|
                0 <= a < next@.len() && i <= k < cand@.len() ==> row_major_lt(
                    next@[a]@,
                    cand@[k]@,
                ),
            forall|p: (int, int)| #[trigger]
                point_set(next@).contains(p) ==> next_alive(live, p) && (exists|k: int|
                    0 <= k < i && cand@[k]@ == p),
            forall|k: int|
                0 <= k < i && next_alive(live, #[trigger] cand@[k]@) ==> point_set(
                    next@,
                ).contains(cand@[k]@),
        decreases cand@.len() - i,
    {
        let c = cand[i];
        let was = contains_coord(cells, c);
        let n = live_neighbour_count(cells, c);
        if (was && (n == 2 || n == 3)) || (!was && n == 3) {
            proof {
                assert(next_alive(live, c@));
                lemma_point_set_push(next@, c);
            }
            next.push(c);
        } else {
            proof {
                assert(!next_alive(live, c@));
            }
        }
        i += 1;
    }
    proof {
        lemma_next_gen_in_candidates(live);
        assert forall|p: (int, int)| next_gen(live).contains(p) implies point_set(
            next@,
        ).contains(p) by {
            assert(candidate_set(live).contains(p));
            assert(point_set(cand@).contains(p));
            let k = choose|k: int| 0 <= k < cand@.len() && cand@[k]@ == p;
            assert(next_alive(live, cand@[k]@));
        }
        assert(point_set(next@) =~= next_gen(live));
    }
    next
}

/// Rebuilds the active-chunk index: exactly the chunks that contain at
/// least one cell of the given population.
fn chunk_index_of(cells: &Vec<Coord>) -> (act: Vec<Coord>)
    ensures
        strictly_sorted(act@),
        point_set(act@) == chunks_of(point_set(cells@)),
{
    let mut act: Vec<Coord> = Vec::new();
    let mut i: usize = 0;
    while i < cells.len()
        invariant
            i <= cells@.len(),
            strictly_sorted(act@),
            forall|ch: (int, int)| #[trigger]
                point_set(act@).contains(ch) ==> exists|k: int|
                    0 <= k < i && ch == chunk_of(cells@[k]@),
            forall|k: int|
                0 <= k < i ==> point_set(act@).contains(chunk_of(#[trigger] cells@[k]@)),
        decreases cells@.len() - i,
    {
        let ch = chunk_coord(cells[i]);
        insert_sorted(&mut act, ch);
        i += 1;
    }
    proof {
        let live = point_set(cells@);
        assert forall|ch: (int, int)| point_set(act@).contains(ch) implies chunks_of(
            live,
        ).contains(ch) by {
            let k = choose|k: int| 0 <= k < cells@.len() && ch == chunk_of(cells@[k]@);
            assert(live.contains(cells@[k]@));
        }
        assert forall|ch: (int, int)| chunks_of(live).contains(ch) implies point_set(
            act@,
        ).contains(ch) by {
            let p = choose|p: (int, int)| live.contains(p) && ch == chunk_of(p);
            let k = choose|k: int| 0 <= k < cells@.len() && cells@[k]@ == p;
            assert(point_set(act@).contains(chunk_of(cells@[k]@)));
        }
        assert(point_set(act@) =~= chunks_of(live));
    }
    act
}

impl Grid {
    /// The set of live lattice points.
    pub closed spec fn live(self) -> Set<(int, int)> {
        point_set(self.cells@)
    }

    /// The chunk identifiers currently marked active.
    pub closed spec fn active_chunks(self) -> Set<(int, int)> {
        point_set(self.active@)
    }

    /// Well-formedness: both vectors are strictly sorted, and the chunk of
    /// every live cell is active, so the chunk gate never hides a live cell.
    pub closed spec fn wf(self) -> bool {
        &&& strictly_sorted(self.cells@)
        &&& strictly_sorted(self.active@)
        &&& forall|p: (int, int)|
            #[trigger] self.live().contains(p) ==> self.active_chunks().contains(chunk_of(p))
    }

    /// Toggles the cell at `coord`: a live cell dies, a dead one becomes
    /// live. Either way the chunk of `coord` is marked active, since a
    /// toggle proves the region is in play.
    pub fn cycle(&mut self, coord: Coord)
        requires
            old(self).wf(),
        ensures
            final(self).wf(),
            final(self).live() == toggled(old(self).live(), coord@),
            final(self).active_chunks() == old(self).active_chunks().insert(chunk_of(coord@)),
    {
        let ch = chunk_coord(coord);
        insert_sorted(&mut self.active, ch);
        if contains_coord(&self.cells, coord) {
            remove_sorted(&mut self.cells, coord);
        } else {
            insert_sorted(&mut self.cells, coord);
        }
        proof {
            assert forall|p: (int, int)| #[trigger] self.live().contains(p)
                implies self.active_chunks().contains(chunk_of(p)) by {
                if p == coord@ {
                    assert(self.active_chunks().contains(chunk_of(coord@)));
                } else {
                    assert(old(self).live().contains(p));
                }
            }
        }
    }

    /// Point query: whether the cell at `coord` is alive. When the chunk of
    /// `coord` is not active the population is not consulted at all; the
    /// well-formedness invariant guarantees the answer is still exact.
    pub fn get(&self, coord: Coord) -> (alive: bool)
        requires
            self.wf(),
        ensures
            alive == self.live().contains(coord@),
    {
        let ch = chunk_coord(coord);
        if !contains_coord(&self.active, ch) {
            proof {
                if self.live().contains(coord@) {
                    assert(self.active_chunks().contains(chunk_of(coord@)));
                }
            }
            return false;
        }
        contains_coord(&self.cells, coord)
    }

    /// Range query: exactly the live cells whose coordinates lie in the
    /// closed rectangle spanned by `lo` and `hi` on each axis, paired with
    /// their payloads, in ascending row-major order.
    pub fn get_range(&self, lo: Coord, hi: Coord) -> (found: Vec<(Coord, Cell)>)
        requires
            self.wf(),
        ensures
            forall|a: int, b: int|
                0 <= a < b < found@.len() ==> row_major_lt(found@[a].0@, found@[b].0@),
            forall|p: (int, int)| #[trigger]
                result_points(found@).contains(p) <==> self.live().contains(p) && in_rect(
                    p,
                    lo@,
                    hi@,
                ),
    {
        let mut found: Vec<(Coord, Cell)> = Vec::new();
        let mut i: usize = 0;
        while i < self.cells.len()
            invariant
                i <= self.cells@.len(),
                strictly_sorted(self.cells@),
                forall|a: int, b: int|
                    0 <= a < b < found@.len() ==> row_major_lt(found@[a].0@, found@[b].0@),
                forall|a: int, k: int|
                    0 <= a < found@.len() && i <= k < self.cells@.len() ==> row_major_lt(
                        found@[a].0@,
                        self.cells@[k]@,
                    ),
                forall|p: (int, int)| #[trigger]
                    result_points(found@).contains(p) ==> in_rect(p, lo@, hi@) && (exists|k: int|
                        0 <= k < i && self.cells@[k]@ == p),
                forall|k: int|
                    0 <= k < i && in_rect(#[trigger] self.cells@[k]@, lo@, hi@) ==> result_points(
                        found@,
                    ).contains(self.cells@[k]@),
            decreases self.cells@.len() - i,
        {
            let c = self.cells[i];
            if lo.x <= c.x && c.x <= hi.x && lo.y <= c.y && c.y <= hi.y {
                proof {
                    lemma_result_points_push(found@, (c, Cell));
                }
                found.push((c, Cell));
            }
            i += 1;
        }
        proof {
            assert forall|p: (int, int)| result_points(found@).contains(p)
                implies self.live().contains(p) && in_rect(p, lo@, hi@) by {
                let k = choose|k: int| 0 <= k < self.cells@.len() && self.cells@[k]@ == p;
                assert(self.cells@[k]@ == p);
            }
            assert forall|p: (int, int)| self.live().contains(p) && in_rect(p, lo@, hi@)
                implies result_points(found@).contains(p) by {
                let k = choose|k: int| 0 <= k < self.cells@.len() && self.cells@[k]@ == p;
                assert(in_rect(self.cells@[k]@, lo@, hi@));
            }
        }
        found
    }

    /// Advances the population by exactly one generation under the birth
    /// and survival rule, then rebuilds the active-chunk index so that it
    /// holds exactly the chunks the new population touches.
    pub fn step(&mut self)
        requires
            old(self).wf(),
        ensures
            final(self).wf(),
            final(self).live() == next_gen(old(self).live()),
            final(self).active_chunks() == chunks_of(final(self).live()),
    {
        let cand = gather_candidates(&self.cells);
        let next = next_population(&self.cells, &cand);
        let active = chunk_index_of(&next);
        self.cells = next;
        self.active = active;
        proof {
            assert forall|p: (int, int)| #[trigger] self.live().contains(p)
                implies self.active_chunks().contains(chunk_of(p)) by {
                assert(chunks_of(self.live()).contains(chunk_of(p)));
            }
        }
    }

    /// Applies `step` exactly `n` times in sequence; `n == 0` leaves the
    /// grid unchanged.
    pub fn multistep(&mut self, n: u128)
        requires
            old(self).wf(),
        ensures
            final(self).wf(),
            final(self).live() == step_n(old(self).live(), n as nat),
            n == 0 ==> final(self).active_chunks() == old(self).active_chunks(),
            n > 0 ==> final(self).active_chunks() == chunks_of(final(self).live()),
    {
        let mut k: u128 = 0;
        while k < n
            invariant
                k <= n,
                self.wf(),
                self.live() == step_n(old(self).live(), k as nat),
                k == 0 ==> self.active_chunks() == old(self).active_chunks(),
                k > 0 ==> self.active_chunks() == chunks_of(self.live()),
            decreases n - k,
        {
            let ghost before = self.live();
            self.step();
            proof {
                lemma_step_n_unfolds(old(self).live(), k as nat);
                assert(self.live() == next_gen(before));
                assert(self.live() == step_n(old(self).live(), (k + 1) as nat));
            }
            k += 1;
        }
    }

    /// The chunk gate is sound: in a well-formed grid, a point whose chunk
    /// is not active is dead, so the short-circuit in `get` never hides a
    /// live cell; a cell is only ever reported alive when it is part of the
    /// population.
    pub proof fn lemma_chunk_gate_sound(self, p: (int, int))
        requires
            self.wf(),
        ensures
            !self.active_chunks().contains(chunk_of(p)) ==> !self.live().contains(p),
    {
        if self.live().contains(p) {
            assert(self.active_chunks().contains(chunk_of(p)));
        }
    }
}

impl Default for Grid {
    /// The empty grid: no live cell, no active chunk.
    fn default() -> (g: Grid)
        ensures
            g.wf(),
            g.live() == Set::<(int, int)>::empty(),
            g.active_chunks() == Set::<(int, int)>::empty(),
    {
        let g = Grid { cells: Vec::new(), active: Vec::new() };
        proof {
            assert(g.live() =~= Set::<(int, int)>::empty());
            assert(g.active_chunks() =~= Set::<(int, int)>::empty());
        }
        g
    }
}

} // verus!
