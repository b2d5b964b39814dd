//! Maintenance of coordinate vectors that are strictly sorted in row-major
//! order: membership test, ordered insertion, and removal, each specified
//! against the set of points the vector denotes.

use vstd::prelude::*;

use crate::coord::{point_set, row_major_lt, strictly_sorted, Coord};

verus! {

/// Exec mirror of `row_major_lt`.
pub(crate) fn coord_before(a: &Coord, b: &Coord) -> (r: bool)
    ensures
        r == row_major_lt(a@, b@),
{
    a.y < b.y || (a.y == b.y && a.x < b.x)
}

/// Whether `c` denotes a point of the vector.
pub(crate) fn contains_coord(v: &Vec<Coord>, c: Coord) -> (r: bool)
    ensures
        r == point_set(v@).contains(c@),
{
    let mut i: usize = 0;
    while i < v.len()
        invariant
            i <= v@.len(),
            forall|k: int| 0 <= k < i ==> v@[k]@ != c@,
        decreases v@.len() - i,
    {
        if v[i].x == c.x && v[i].y == c.y {
            assert(v@[i as int]@ == c@);
            return true;
        }
        i += 1;
    }
    proof {
        if point_set(v@).contains(c@) {
            let k = choose|k: int| 0 <= k < v@.len() && v@[k]@ == c@;
            assert(false);
        }
    }
    false
}

/// `point_set` of a sequence with an element inserted at any position.
proof fn lemma_point_set_insert(s: Seq<Coord>, k: int, c: Coord)
    requires
        0 <= k <= s.len(),
    ensures
        point_set(s.insert(k, c)) == point_set(s).insert(c@),
{
    let t = s.insert(k, c);
    s.insert_ensures(k, c);
    assert forall|p: (int, int)| point_set(t).contains(p) implies point_set(s).insert(
        c@,
    ).contains(p) by {
        let j = choose|j: int| 0 <= j < t.len() && t[j]@ == p;
        if j < k {
            assert(s[j]@ == p);
        } else if j == k {
            assert(c@ == p);
        } else {
            assert(t[(j - 1) + 1]@ == p);
            assert(s[j - 1]@ == p);
        }
    }
    assert forall|p: (int, int)| point_set(s).insert(c@).contains(p) implies point_set(
        t,
    ).contains(p) by {
        if p == c@ {
            assert(t[k]@ == p);
        } else {
            let j = choose|j: int| 0 <= j < s.len() && s[j]@ == p;
            if j < k {
                assert(t[j]@ == p);
            } else {
                assert(t[j + 1]@ == p);
            }
        }
    }
    assert(point_set(t) =~= point_set(s).insert(c@));
}

/// Every point a coordinate vector denotes is representable.
pub(crate) proof fn lemma_point_set_in_bounds(s: Seq<Coord>, p: (int, int))
    requires
        point_set(s).contains(p),
    ensures
        crate::coord::in_bounds(p),
{
    let i = choose|i: int| 0 <= i < s.len() && s[i]@ == p;
    assert(s[i]@ == p);
}

/// `point_set` of a sequence with an element pushed at the end.
pub(crate) proof fn lemma_point_set_push(s: Seq<Coord>, c: Coord)
    ensures
        point_set(s.push(c)) == point_set(s).insert(c@),
{
    assert(s.push(c) =~= s.insert(s.len() as int, c));
    lemma_point_set_insert(s, s.len() as int, c);
}

/// `point_set` of a sequence of pairwise-distinct points with the entry at
/// one position removed.
proof fn lemma_point_set_remove(s: Seq<Coord>, k: int)
    requires
        0 <= k < s.len(),
        forall|i: int, j: int| 0 <= i < j < s.len() ==> s[i]@ != s[j]@,
    ensures
        point_set(s.remove(k)) == point_set(s).remove(s[k]@),
{
    let t = s.remove(k);
    s.remove_ensures(k);
    assert forall|p: (int, int)| point_set(t).contains(p) implies point_set(s).remove(
        s[k]@,
    ).contains(p) by {
        let j = choose|j: int| 0 <= j < t.len() && t[j]@ == p;
        if j < k {
            assert(s[j]@ == p);
        } else {
            assert(s[j + 1]@ == p);
        }
    }
    assert forall|p: (int, int)| point_set(s).remove(s[k]@).contains(p) implies point_set(
        t,
    ).contains(p) by {
        let j = choose|j: int| 0 <= j < s.len() && s[j]@ == p;
        if j < k {
            assert(t[j]@ == p);
        } else {
            assert(j != k);
            assert(t[j - 1]@ == p);
        }
    }
    assert(point_set(t) =~= point_set(s).remove(s[k]@));
}

/// Inserts `c` at its row-major position, leaving the vector unchanged when
/// the point is already present.
pub(crate) fn insert_sorted(v: &mut Vec<Coord>, c: Coord)
    requires
        strictly_sorted(old(v)@),
    ensures
        strictly_sorted(final(v)@),
        point_set(final(v)@) == point_set(old(v)@).insert(c@),
        final(v)@.len() <= old(v)@.len() + 1,
{
    let mut i: usize = 0;
    while i < v.len() && coord_before(&v[i], &c)
        invariant
            i <= v@.len(),
            v@ == old(v)@,
            forall|k: int| 0 <= k < i ==> row_major_lt(v@[k]@, c@),
        decreases v@.len() - i,
    {
        i += 1;
    }
    if i < v.len() && v[i].x == c.x && v[i].y == c.y {
        proof {
            assert(v@[i as int]@ == c@);
            assert(point_set(v@).contains(c@));
            assert(point_set(v@).insert(c@) =~= point_set(v@));
        }
        return;
    }
    proof {
        assert forall|k: int| i <= k < v@.len() implies row_major_lt(c@, v@[k]@) by {
            if i < v@.len() {
                assert(!row_major_lt(v@[i as int]@, c@));
                assert(v@[i as int]@ != c@);
                assert(row_major_lt(c@, v@[i as int]@));
                if k > i {
                    assert(row_major_lt(v@[i as int]@, v@[k]@));
                }
            }
        }
        lemma_point_set_insert(v@, i as int, c);
        old(v)@.insert_ensures(i as int, c);
    }
    v.insert(i, c);
    proof {
        let t = v@;
        let s = old(v)@;
        assert forall|a: int, b: int| 0 <= a < b < t.len() implies row_major_lt(t[a]@, t[b]@) by {
            if b < i {
                assert(t[a]@ == s[a]@ && t[b]@ == s[b]@);
            } else if b == i {
                assert(t[a]@ == s[a]@);
            } else if a < i {
                assert(t[a]@ == s[a]@ && t[b]@ == s[b - 1]@);
                if a < b - 1 {
                    assert(row_major_lt(s[a]@, s[b - 1]@));
                } else {
                    assert(row_major_lt(s[a]@, c@));
                    assert(row_major_lt(c@, s[b - 1]@));
                }
            } else if a == i {
                assert(t[b]@ == s[b - 1]@);
                assert(row_major_lt(c@, s[b - 1]@));
            } else {
                assert(t[a]@ == s[a - 1]@ && t[b]@ == s[b - 1]@);
            }
        }
    }
}

/// Removes the point `c`, which must be present, keeping the rest in order.
pub(crate) fn remove_sorted(v: &mut Vec<Coord>, c: Coord)
    requires
        strictly_sorted(old(v)@),
        point_set(old(v)@).contains(c@),
    ensures
        strictly_sorted(final(v)@),
        point_set(final(v)@) == point_set(old(v)@).remove(c@),
{
    let mut i: usize = 0;
    while i < v.len()
        invariant
            i <= v@.len(),
            v@ == old(v)@,
            strictly_sorted(v@),
            forall|k: int| 0 <= k < i ==> v@[k]@ != c@,
        decreases v@.len() - i,
    {
        if v[i].x == c.x && v[i].y == c.y {
            proof {
                assert(v@[i as int]@ == c@);
                assert forall|a: int, b: int| 0 <= a < b < v@.len() implies v@[a]@ != v@[b]@ by {
                    assert(row_major_lt(v@[a]@, v@[b]@));
                }
                lemma_point_set_remove(v@, i as int);
                v@.remove_ensures(i as int);
            }
            let ghost s = v@;
            v.remove(i);
            proof {
                let t = v@;
                assert forall|a: int, b: int| 0 <= a < b < t.len() implies row_major_lt(
                    t[a]@,
                    t[b]@,
                ) by {
                    if b < i {
                        assert(t[a]@ == s[a]@ && t[b]@ == s[b]@);
                    } else if a < i {
                        assert(t[a]@ == s[a]@ && t[b]@ == s[b + 1]@);
                    } else {
                        assert(t[a]@ == s[a + 1]@ && t[b]@ == s[b + 1]@);
                    }
                }
            }
            return;
        }
        i += 1;
    }
    proof {
        let k = choose|k: int| 0 <= k < v@.len() && v@[k]@ == c@;
        assert(false);
    }
}

} // verus!
