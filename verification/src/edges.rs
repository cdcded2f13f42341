//! The boundary edges of a triangle list.
//!
//! An edge is an unordered pair of vertex indices, written smaller index
//! first. An edge that exactly one triangle uses lies on the silhouette of
//! the mesh; every other edge is shared and lies inside.
use vstd::prelude::*;
use vstd::seq_lib::to_multiset_build;

verus! {

/// An edge: two vertex indices, the smaller first.
pub type Edge = (usize, usize);

/// The edge between two vertices.
pub open spec fn edge_between(a: usize, b: usize) -> Edge {
    if a < b {
        (a, b)
    } else {
        (b, a)
    }
}

/// The edge that starts at position `slot` of a triangle list: it runs from
/// that corner of its triangle to the next corner of the same triangle.
pub open spec fn edge_at(indices: Seq<usize>, slot: int) -> Edge {
    let first = slot - slot % 3;
    edge_between(indices[slot], indices[first + (slot % 3 + 1) % 3])
}

/// Every edge of a triangle list, three for each triangle.
pub open spec fn edges(indices: Seq<usize>) -> Seq<Edge> {
    Seq::new(indices.len(), |slot: int| edge_at(indices, slot))
}

/// How often `e` occurs among the first `n` entries of `s`.
pub open spec fn occurrences(s: Seq<Edge>, e: Edge, n: nat) -> nat
    decreases n,
{
    if n == 0 {
        0
    } else {
        occurrences(s, e, (n - 1) as nat) + if s[n - 1] == e {
            1nat
        } else {
            0nat
        }
    }
}

/// How many triangle sides of a triangle list are the edge `e`.
pub open spec fn edge_uses(indices: Seq<usize>, e: Edge) -> nat {
    occurrences(edges(indices), e, indices.len())
}

/// The order of edges: by smaller index, then by larger index.
pub open spec fn edge_before(a: Edge, b: Edge) -> bool {
    a.0 < b.0 || (a.0 == b.0 && a.1 < b.1)
}

/// Whether `boundary` lists the boundary edges of a triangle list: exactly the
/// edges that one triangle side uses, each once, in the order of edges.
pub open spec fn is_boundary(indices: Seq<usize>, boundary: Seq<Edge>) -> bool {
    &&& forall|i: int, j: int|
        0 <= i < j < boundary.len() ==> edge_before(#[trigger] boundary[i], #[trigger] boundary[j])
    &&& forall|e: Edge| #[trigger] boundary.contains(e) <==> edge_uses(indices, e) == 1
}

/// Only one list is the boundary of a triangle list.
pub proof fn lemma_boundary_unique(indices: Seq<usize>, a: Seq<Edge>, b: Seq<Edge>)
    requires
        is_boundary(indices, a),
        is_boundary(indices, b),
    ensures
        a == b,
{
    assert forall|e: Edge| a.contains(e) == b.contains(e) by {
        assert(a.contains(e) <==> edge_uses(indices, e) == 1);
        assert(b.contains(e) <==> edge_uses(indices, e) == 1);
    }
    lemma_same_members_same_list(a, b);
}

/// Two strictly ordered lists with the same members are the same list.
proof fn lemma_same_members_same_list(a: Seq<Edge>, b: Seq<Edge>)
    requires
        forall|i: int, j: int|
            0 <= i < j < a.len() ==> edge_before(#[trigger] a[i], #[trigger] a[j]),
        forall|i: int, j: int|
            0 <= i < j < b.len() ==> edge_before(#[trigger] b[i], #[trigger] b[j]),
        forall|e: Edge| a.contains(e) == b.contains(e),
    ensures
        a == b,
    decreases a.len(),
{
    if a.len() == 0 {
        if b.len() > 0 {
            assert(b.contains(b[0]));
            assert(a.contains(b[0]) == b.contains(b[0]));
        }
        assert(a =~= b);
    } else if b.len() == 0 {
        assert(a.contains(a[0]));
        assert(a.contains(a[0]) == b.contains(a[0]));
    } else {
        let x = a.last();
        let y = b.last();
        assert(a.contains(x));
        assert(b.contains(y));
        assert(a.contains(x) == b.contains(x));
        assert(a.contains(y) == b.contains(y));
        let ix = choose|i: int| 0 <= i < b.len() && b[i] == x;
        let iy = choose|i: int| 0 <= i < a.len() && a[i] == y;
        assert(x == y) by {
            if ix < b.len() - 1 {
                assert(edge_before(b[ix], b[b.len() - 1]));
            }
            if iy < a.len() - 1 {
                assert(edge_before(a[iy], a[a.len() - 1]));
            }
        }
        let a1 = a.drop_last();
        let b1 = b.drop_last();
        assert forall|e: Edge| a1.contains(e) == b1.contains(e) by {
            assert(a.contains(e) == b.contains(e));
            if a1.contains(e) {
                let i = choose|i: int| 0 <= i < a1.len() && a1[i] == e;
                assert(a[i] == e);
                assert(edge_before(a[i], a[a.len() - 1]));
                assert(a.contains(e));
                let j = choose|j: int| 0 <= j < b.len() && b[j] == e;
                assert(j < b.len() - 1);
                assert(b1[j] == e);
            }
            if b1.contains(e) {
                let i = choose|i: int| 0 <= i < b1.len() && b1[i] == e;
                assert(b[i] == e);
                assert(edge_before(b[i], b[b.len() - 1]));
                assert(b.contains(e));
                let j = choose|j: int| 0 <= j < a.len() && a[j] == e;
                assert(j < a.len() - 1);
                assert(a1[j] == e);
            }
        }
        lemma_same_members_same_list(a1, b1);
        assert(a =~= a1.push(x));
        assert(b =~= b1.push(y));
    }
}

/// Counting by position agrees with the multiset of the list.
proof fn lemma_occurrences_count(s: Seq<Edge>, e: Edge, n: nat)
    requires
        n <= s.len(),
    ensures
        occurrences(s, e, n) == s.take(n as int).to_multiset().count(e),
    decreases n,
{
    if n == 0 {
        assert(s.take(0) =~= Seq::<Edge>::empty());
        assert(s.take(0).to_multiset().count(e) == 0) by {
            s.take(0).to_multiset_ensures();
            if s.take(0).to_multiset().count(e) > 0 {
                assert(s.take(0).contains(e));
            }
        }
    } else {
        lemma_occurrences_count(s, e, (n - 1) as nat);
        let shorter = s.take(n - 1);
        assert(s.take(n as int) =~= shorter.push(s[n - 1]));
        to_multiset_build(shorter, s[n - 1]);
    }
}

/// An ordered list holds an entry as often as the run of that entry is long.
proof fn lemma_occurrences_run(s: Seq<Edge>, e: Edge, lo: int, hi: int, n: nat)
    requires
        0 <= lo <= hi <= s.len(),
        n <= s.len(),
        forall|k: int| 0 <= k < lo ==> #[trigger] s[k] != e,
        forall|k: int| lo <= k < hi ==> #[trigger] s[k] == e,
        forall|k: int| hi <= k < s.len() ==> #[trigger] s[k] != e,
    ensures
        occurrences(s, e, n) == if n <= lo {
            0
        } else if n <= hi {
            n - lo
        } else {
            hi - lo
        },
    decreases n,
{
    if n > 0 {
        lemma_occurrences_run(s, e, lo, hi, (n - 1) as nat);
    }
}

/// An entry that is counted occurs.
proof fn lemma_counted_occurs(s: Seq<Edge>, e: Edge, n: nat)
    requires
        n <= s.len(),
        occurrences(s, e, n) > 0,
    ensures
        exists|k: int| 0 <= k < n && s[k] == e,
    decreases n,
{
    if s[n - 1] != e {
        lemma_counted_occurs(s, e, (n - 1) as nat);
    }
}

/// `<[T]>::sort_unstable` on pairs of integers: the same pairs, each as often
/// as before, in the lexicographic order that the standard library documents
/// for tuples.
#[verifier::external_body]
fn sort_edges(list: &mut Vec<Edge>)
    ensures
        final(list)@.to_multiset() == old(list)@.to_multiset(),
        forall|i: int, j: int|
            0 <= i < j < final(list)@.len() ==> !edge_before(
                #[trigger] final(list)@[j],
                #[trigger] final(list)@[i],
            ),
{
    list.sort_unstable()
}

/// Lists the boundary edges of a triangle list.
pub fn boundary_edges(indices: &Vec<usize>) -> (boundary: Vec<Edge>)
    requires
        indices@.len() % 3 == 0,
    ensures
        is_boundary(indices@, boundary@),
        boundary@.len() <= indices@.len(),
{
    let count = indices.len();
    let mut all: Vec<Edge> = Vec::new();
    let mut slot: usize = 0;
    while slot < count
        invariant
            count == indices@.len(),
            count % 3 == 0,
            slot <= count,
            all@.len() == slot,
            forall|k: int| 0 <= k < slot ==> #[trigger] all@[k] == edge_at(indices@, k),
        decreases count - slot,
    {
        let corner = slot % 3;
        let first = slot - corner;
        let a = indices[slot];
        let b = indices[first + (corner + 1) % 3];
        all.push(if a < b {
            (a, b)
        } else {
            (b, a)
        });
        slot += 1;
    }
    assert(all@ =~= edges(indices@));
    let ghost unsorted = all@;
    sort_edges(&mut all);
    let ghost sorted = all@;
    proof {
        unsorted.to_multiset_ensures();
        sorted.to_multiset_ensures();
        assert forall|e: Edge| occurrences(sorted, e, count as nat) == edge_uses(indices@, e) by {
            lemma_occurrences_count(sorted, e, count as nat);
            lemma_occurrences_count(unsorted, e, count as nat);
            assert(sorted.take(count as int) =~= sorted);
            assert(unsorted.take(count as int) =~= unsorted);
        }
    }
    let mut boundary: Vec<Edge> = Vec::new();
    let mut i: usize = 0;
    while i < count
        invariant
            count == sorted.len(),
            all@ == sorted,
            i <= count,
            boundary@.len() <= i,
            forall|p: int, q: int|
                0 <= p < q < count ==> !edge_before(#[trigger] sorted[q], #[trigger] sorted[p]),
            0 < i < count ==> edge_before(sorted[i - 1], sorted[i as int]),
            forall|p: int, q: int|
                0 <= p < q < boundary@.len() ==> edge_before(
                    #[trigger] boundary@[p],
                    #[trigger] boundary@[q],
                ),
            forall|m: int|
                0 <= m < boundary@.len() ==> occurrences(sorted, #[trigger] boundary@[m], count as nat)
                    == 1,
            forall|m: int|
                0 <= m < boundary@.len() ==> exists|k: int|
                    0 <= k < i && sorted[k] == #[trigger] boundary@[m],
            forall|k: int|
                0 <= k < i && occurrences(sorted, #[trigger] sorted[k], count as nat) == 1
                    ==> boundary@.contains(sorted[k]),
        decreases count - i,
    {
        let e = all[i];
        let mut j: usize = i + 1;
        while j < count && all[j].0 == e.0 && all[j].1 == e.1
            invariant
                count == sorted.len(),
                all@ == sorted,
                i < j <= count,
                e == sorted[i as int],
                forall|k: int| i <= k < j ==> #[trigger] sorted[k] == e,
            decreases count - j,
        {
            j += 1;
        }
        proof {
            assert forall|k: int| 0 <= k < i implies #[trigger] sorted[k] != e by {
                assert(!edge_before(sorted[i - 1], sorted[k]));
            }
            assert forall|k: int| j <= k < count implies #[trigger] sorted[k] != e by {
                assert(!edge_before(sorted[k], sorted[j as int]));
                assert(!edge_before(sorted[j as int], sorted[i as int]));
            }
            lemma_occurrences_run(sorted, e, i as int, j as int, count as nat);
        }
        let ghost before = boundary@;
        if j - i == 1 {
            boundary.push(e);
            proof {
                assert forall|p: int, q: int| 0 <= p < q < boundary@.len() implies edge_before(
                    #[trigger] boundary@[p],
                    #[trigger] boundary@[q],
                ) by {
                    if q == before.len() {
                        let k = choose|k: int| 0 <= k < i && sorted[k] == before[p];
                        assert(!edge_before(sorted[i - 1], sorted[k]));
                    }
                }
            }
        }
        proof {
            assert forall|m: int| 0 <= m < boundary@.len() implies exists|k: int|
                0 <= k < j && sorted[k] == #[trigger] boundary@[m] by {
                if m < before.len() {
                    let k = choose|k: int| 0 <= k < i && sorted[k] == before[m];
                    assert(sorted[k] == boundary@[m]);
                } else {
                    assert(sorted[i as int] == boundary@[m]);
                }
            }
            assert forall|k: int|
                0 <= k < j && occurrences(sorted, #[trigger] sorted[k], count as nat)
                    == 1 implies boundary@.contains(sorted[k]) by {
                if k < i {
                    assert(before.contains(sorted[k]));
                    let m = choose|m: int| 0 <= m < before.len() && before[m] == sorted[k];
                    assert(boundary@[m] == sorted[k]);
                } else {
                    assert(sorted[k] == e);
                    assert(boundary@[before.len() as int] == e);
                }
            }
            if j < count {
                assert(!edge_before(sorted[j as int], sorted[j - 1]));
            }
        }
        i = j;
    }
    proof {
        assert forall|e: Edge| #[trigger] boundary@.contains(e) <==> edge_uses(indices@, e)
            == 1 by {
            if boundary@.contains(e) {
                let m = choose|m: int| 0 <= m < boundary@.len() && boundary@[m] == e;
                assert(occurrences(sorted, boundary@[m], count as nat) == 1);
            }
            if edge_uses(indices@, e) == 1 {
                lemma_counted_occurs(sorted, e, count as nat);
                let k = choose|k: int| 0 <= k < count && sorted[k] == e;
                assert(occurrences(sorted, sorted[k], count as nat) == 1);
            }
        }
    }
    boundary
}

} // verus!
