//! Laying out the rings of a polygon for triangulation.
//!
//! A triangulator takes one flat list of vertices, the exterior ring first
//! and every interior ring after it, and the index at which each interior
//! ring starts. Rings are stored closed; the closing point of a ring is
//! dropped from the list, so that no vertex occurs twice.
use crate::error::Error;
use crate::geometry::{is_ring, ring_views, Point, Polygon, PolygonView};
use vstd::prelude::*;

verus! {

/// The rings of a polygon, the exterior first.
pub open spec fn rings_of(p: PolygonView) -> Seq<Seq<Point>> {
    seq![p.exterior] + p.interiors
}

/// The first `n` rings laid out one after the other, each without its
/// closing point.
pub open spec fn flattened(rings: Seq<Seq<Point>>, n: nat) -> Seq<Point>
    decreases n,
{
    if n == 0 {
        Seq::empty()
    } else {
        flattened(rings, (n - 1) as nat) + rings[n - 1].drop_last()
    }
}

/// How many vertices the first `n` rings of the given sizes lay out: one
/// less than its size for each ring.
pub open spec fn laid_out(sizes: Seq<usize>, n: nat) -> int
    decreases n,
{
    if n == 0 {
        0
    } else {
        laid_out(sizes, (n - 1) as nat) + (sizes[n - 1] - 1)
    }
}

/// What more rings lay out is no less.
pub proof fn lemma_laid_out_grows(sizes: Seq<usize>, m: nat, n: nat)
    requires
        m <= n <= sizes.len(),
        forall|i: int| 0 <= i < sizes.len() ==> #[trigger] sizes[i] >= 1,
    ensures
        0 <= laid_out(sizes, m) <= laid_out(sizes, n),
    decreases n,
{
    if n > m {
        lemma_laid_out_grows(sizes, m, (n - 1) as nat);
    } else if n > 0 {
        lemma_laid_out_grows(sizes, (m - 1) as nat, (n - 1) as nat);
    }
}

/// The rings of the given sizes lay out as many vertices as their sizes say.
pub proof fn lemma_flattened_len(rings: Seq<Seq<Point>>, sizes: Seq<usize>, n: nat)
    requires
        n <= rings.len() == sizes.len(),
        forall|i: int| 0 <= i < rings.len() ==> #[trigger] rings[i].len() == sizes[i] >= 1,
    ensures
        flattened(rings, n).len() == laid_out(sizes, n),
    decreases n,
{
    if n > 0 {
        lemma_flattened_len(rings, sizes, (n - 1) as nat);
    }
}

/// Where each interior ring starts in the vertex list of a polygon, given
/// the sizes of its closed rings, the exterior first.
///
/// A polygon needs an exterior ring, and a closed ring at least four points.
/// The vertex list must be addressable.
pub fn hole_starts(sizes: &Vec<usize>) -> (res: Result<Vec<usize>, Error>)
    ensures
        res matches Ok(starts) ==> {
            &&& starts@.len() == sizes@.len() - 1
            &&& forall|k: int|
                0 <= k < starts@.len() ==> #[trigger] starts@[k] == laid_out(sizes@, (k + 1) as nat)
        },
        res matches Err(e) ==> e is NotEnoughPoints || e is TriangulationFailed,
        (res matches Err(e) && e is NotEnoughPoints) <==> (sizes@.len() == 0 || exists|i: int|
            0 <= i < sizes@.len() && #[trigger] sizes@[i] < 4),
        (res matches Err(e) && e is TriangulationFailed) <==> (sizes@.len() > 0 && (forall|i: int|
            0 <= i < sizes@.len() ==> #[trigger] sizes@[i] >= 4) && laid_out(
            sizes@,
            (sizes@.len() - 1) as nat,
        ) > usize::MAX),
{
    let n = sizes.len();
    if n == 0 {
        return Err(Error::NotEnoughPoints);
    }
    let mut i: usize = 0;
    while i < n
        invariant
            n == sizes@.len(),
            i <= n,
            forall|k: int| 0 <= k < i ==> #[trigger] sizes@[k] >= 4,
        decreases n - i,
    {
        if sizes[i] < 4 {
            return Err(Error::NotEnoughPoints);
        }
        i += 1;
    }
    let mut starts: Vec<usize> = Vec::new();
    let mut total: usize = 0;
    let mut k: usize = 0;
    while k + 1 < n
        invariant
            n == sizes@.len(),
            0 < n,
            k < n,
            forall|i: int| 0 <= i < n ==> #[trigger] sizes@[i] >= 4,
            total == laid_out(sizes@, k as nat),
            starts@.len() == k,
            forall|j: int| 0 <= j < k ==> #[trigger] starts@[j] == laid_out(sizes@, (j + 1) as nat),
        decreases n - k,
    {
        match total.checked_add(sizes[k] - 1) {
            Some(sum) => {
                total = sum;
            },
            None => {
                proof {
                    lemma_laid_out_grows(sizes@, (k + 1) as nat, (n - 1) as nat);
                }
                return Err(Error::TriangulationFailed);
            },
        }
        starts.push(total);
        k += 1;
    }
    Ok(starts)
}

/// The ring and the place in that ring from which vertex `k` of the vertex
/// list of the first `n` rings comes.
pub open spec fn source_of(sizes: Seq<usize>, k: int, n: nat) -> (int, int)
    decreases n,
{
    if n == 0 {
        (0, 0)
    } else if k >= laid_out(sizes, (n - 1) as nat) {
        (n - 1, k - laid_out(sizes, (n - 1) as nat))
    } else {
        source_of(sizes, k, (n - 1) as nat)
    }
}

/// Every vertex of the vertex list is the point that its source names: a
/// point of one of the rings, and not the closing point of that ring.
pub proof fn lemma_flattened_source(rings: Seq<Seq<Point>>, sizes: Seq<usize>, n: nat, k: int)
    requires
        n <= rings.len() == sizes.len(),
        forall|i: int| 0 <= i < rings.len() ==> #[trigger] rings[i].len() == sizes[i] >= 1,
        0 <= k < laid_out(sizes, n),
    ensures
        0 <= source_of(sizes, k, n).0 < n,
        0 <= source_of(sizes, k, n).1 < sizes[source_of(sizes, k, n).0] - 1,
        flattened(rings, n)[k] == rings[source_of(sizes, k, n).0][source_of(sizes, k, n).1],
    decreases n,
{
    if n > 0 {
        assert forall|i: int| 0 <= i < sizes.len() implies #[trigger] sizes[i] >= 1 by {
            assert(rings[i].len() == sizes[i]);
        }
        lemma_flattened_len(rings, sizes, (n - 1) as nat);
        lemma_laid_out_grows(sizes, 0, (n - 1) as nat);
        if k < laid_out(sizes, (n - 1) as nat) {
            lemma_flattened_source(rings, sizes, (n - 1) as nat, k);
        }
    }
}

/// The layout of the vertex list of a polygon, given the sizes of its closed
/// rings, the exterior first: for every vertex the ring and the place in the
/// ring that it is taken from, and for every interior ring the index at
/// which it starts. Every ring gives its points in order, but for its closing
/// point.
///
/// A polygon needs an exterior ring, and a closed ring at least four points.
/// The vertex list must be addressable.
pub fn ring_layout(sizes: &Vec<usize>) -> (res: Result<(Vec<(usize, usize)>, Vec<usize>), Error>)
    ensures
        res matches Ok(layout) ==> {
            &&& layout.0@.len() == laid_out(sizes@, sizes@.len())
            &&& forall|k: int|
                0 <= k < layout.0@.len() ==> (#[trigger] layout.0@[k]).0 == source_of(
                    sizes@,
                    k,
                    sizes@.len(),
                ).0 && layout.0@[k].1 == source_of(sizes@, k, sizes@.len()).1
            &&& layout.1@.len() == sizes@.len() - 1
            &&& forall|k: int|
                0 <= k < layout.1@.len() ==> #[trigger] layout.1@[k] == laid_out(
                    sizes@,
                    (k + 1) as nat,
                )
        },
        res matches Err(e) ==> e is NotEnoughPoints || e is TriangulationFailed,
        (res matches Err(e) && e is NotEnoughPoints) <==> (sizes@.len() == 0 || exists|i: int|
            0 <= i < sizes@.len() && #[trigger] sizes@[i] < 4),
        (res matches Err(e) && e is TriangulationFailed) <==> (sizes@.len() > 0 && (forall|i: int|
            0 <= i < sizes@.len() ==> #[trigger] sizes@[i] >= 4) && laid_out(
            sizes@,
            (sizes@.len() - 1) as nat,
        ) > usize::MAX),
{
    let starts = match hole_starts(sizes) {
        Ok(starts) => starts,
        Err(e) => {
            return Err(e);
        },
    };
    let n = sizes.len();
    let mut sources: Vec<(usize, usize)> = Vec::new();
    let mut r: usize = 0;
    while r < n
        invariant
            n == sizes@.len(),
            r <= n,
            forall|i: int| 0 <= i < n ==> #[trigger] sizes@[i] >= 4,
            sources@.len() == laid_out(sizes@, r as nat),
            forall|k: int|
                0 <= k < sources@.len() ==> (#[trigger] sources@[k]).0 == source_of(
                    sizes@,
                    k,
                    r as nat,
                ).0 && sources@[k].1 == source_of(sizes@, k, r as nat).1,
        decreases n - r,
    {
        let size = sizes[r];
        let ghost base = sources@.len();
        let mut i: usize = 0;
        while i + 1 < size
            invariant
                r < n,
                n == sizes@.len(),
                size == sizes@[r as int],
                size >= 4,
                i < size,
                base == laid_out(sizes@, r as nat),
                sources@.len() == base + i,
                forall|k: int|
                    0 <= k < sources@.len() ==> (#[trigger] sources@[k]).0 == source_of(
                        sizes@,
                        k,
                        (r + 1) as nat,
                    ).0 && sources@[k].1 == source_of(sizes@, k, (r + 1) as nat).1,
            decreases size - i,
        {
            sources.push((r, i));
            i += 1;
        }
        r += 1;
    }
    Ok((sources, starts))
}

impl Polygon {
    /// The vertex list of the polygon for a triangulator, and the index at
    /// which each interior ring starts in it.
    pub fn mesh_input(&self) -> (input: (Vec<Point>, Vec<usize>))
        ensures
            input.0@ == flattened(rings_of(self@), rings_of(self@).len()),
            input.1@.len() == self@.interiors.len(),
            forall|k: int|
                0 <= k < input.1@.len() ==> #[trigger] input.1@[k] == flattened(
                    rings_of(self@),
                    (k + 1) as nat,
                ).len(),
    {
        let ghost rings = rings_of(self@);
        let mut vertices: Vec<Point> = Vec::new();
        let mut starts: Vec<usize> = Vec::new();
        let exterior = self.exterior().points();
        let len = exterior.len();
        let mut i: usize = 0;
        while i + 1 < len
            invariant
                exterior@ == rings[0],
                is_ring(exterior@),
                len == exterior@.len(),
                i < exterior@.len(),
                vertices@ == exterior@.take(i as int),
            decreases exterior@.len() - i,
        {
            vertices.push(exterior[i]);
            assert(vertices@ =~= exterior@.take(i + 1));
            i += 1;
        }
        assert(vertices@ =~= flattened(rings, 1)) by {
            assert(exterior@.take(exterior@.len() - 1) =~= exterior@.drop_last());
            assert(flattened(rings, 0) =~= Seq::<Point>::empty());
        }
        let interiors = self.interiors();
        let mut k: usize = 0;
        while k < interiors.len()
            invariant
                rings == rings_of(self@),
                ring_views(interiors@) == self@.interiors,
                k <= interiors@.len(),
                vertices@ == flattened(rings, (k + 1) as nat),
                starts@.len() == k,
                forall|j: int|
                    0 <= j < k ==> #[trigger] starts@[j] == flattened(rings, (j + 1) as nat).len(),
            decreases interiors@.len() - k,
        {
            starts.push(vertices.len());
            let ring = interiors[k].points();
            assert(ring@ == rings[k + 1]) by {
                assert(ring_views(interiors@)[k as int] == interiors@[k as int]@);
            }
            let ghost before = vertices@;
            let len = ring.len();
            let mut i: usize = 0;
            while i + 1 < len
                invariant
                    is_ring(ring@),
                    len == ring@.len(),
                    i < ring@.len(),
                    vertices@ == before + ring@.take(i as int),
                decreases ring@.len() - i,
            {
                vertices.push(ring[i]);
                assert(vertices@ =~= before + ring@.take(i + 1));
                i += 1;
            }
            assert(ring@.take(ring@.len() - 1) =~= ring@.drop_last());
            k += 1;
        }
        (vertices, starts)
    }
}

} // verus!
