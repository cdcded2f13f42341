//! From traced rings to polygons: every hole goes to the smallest outline
//! around it, and rings below the least dimension are dropped.
use crate::binary_image::{lemma_index_in_range, BinaryImage};
use crate::contour::grid::{cell_at, label_grid, labels, lemma_labels_cell};
use crate::contour::laws::{
    lemma_polygons_in_scan_order, lemma_polygons_well_shaped, polygons_in_scan_order,
};
use crate::contour::scan::{
    all_emitted, counted, emitted, exteriors_of, found, lemma_rows_of_background, scan_grid,
    traced, Traced,
};
use crate::contour::walk::RingKind;
use crate::geometry::{
    covers, encloses, polygon_views, ring_views, spans, twice_area, Point, Polygon, PolygonView,
    Ring,
};
use vstd::prelude::*;

verus! {

/// Among the first `n` outlines, the one of least area that encloses `p`,
/// the earliest of several; `None` where none encloses it.
pub open spec fn container(outlines: Seq<Seq<Point>>, p: Point, n: nat) -> Option<int>
    decreases n,
{
    if n == 0 {
        None
    } else {
        let best = container(outlines, p, (n - 1) as nat);
        let last = outlines[n - 1];
        if encloses(last, p) && (best matches Some(i) ==> vstd::math::abs(twice_area(last))
            < vstd::math::abs(twice_area(outlines[i]))) {
            Some(n - 1)
        } else {
            best
        }
    }
}

/// Among the first `n` holes, those that belong to outline `owner`: the
/// holes that cover at least `dim` grid lines each way and whose first point
/// lies in that outline and in no smaller one.
pub open spec fn attached(
    outlines: Seq<Seq<Point>>,
    holes: Seq<Seq<Point>>,
    owner: int,
    dim: int,
    n: nat,
) -> Seq<Seq<Point>>
    decreases n,
{
    if n == 0 {
        Seq::empty()
    } else {
        let rest = attached(outlines, holes, owner, dim, (n - 1) as nat);
        let hole = holes[n - 1];
        if covers(hole, dim) && container(outlines, hole[0], outlines.len()) == Some(owner) {
            rest.push(hole)
        } else {
            rest
        }
    }
}

/// The polygons of the first `n` outlines: every outline of at least `dim`
/// by `dim` pixels, with the holes that belong to it.
pub open spec fn assembled(outlines: Seq<Seq<Point>>, holes: Seq<Seq<Point>>, dim: int, n: nat) -> Seq<
    PolygonView,
>
    decreases n,
{
    if n == 0 {
        Seq::empty()
    } else {
        let rest = assembled(outlines, holes, dim, (n - 1) as nat);
        if spans(outlines[n - 1], dim) {
            rest.push(
                PolygonView {
                    exterior: outlines[n - 1],
                    interiors: attached(outlines, holes, n - 1, dim, holes.len()),
                },
            )
        } else {
            rest
        }
    }
}

/// The polygons of a mask: one for every traced outline that is at least
/// `dim` by `dim` pixels, with every traced hole that covers `dim` grid lines
/// each way attached to the smallest outline around it.
pub open spec fn polygons_of(pixels: Seq<bool>, width: int, height: int, dim: int) -> Seq<PolygonView> {
    let t = traced(pixels, width, height);
    assembled(t.outlines, t.holes, dim, t.outlines.len())
}

/// A polygon as the tracer returns it: its rings are closed, lie on the
/// corner grid of the image and have every side along a grid line; the
/// exterior encloses a positive area and is at
/// least `dim` pixels wide and high; every interior ring encloses a negative
/// area, covers at least `dim` grid lines each way and has its first point
/// inside the exterior by the even-odd test.
pub open spec fn well_shaped(p: PolygonView, width: int, height: int, dim: int) -> bool {
    &&& emitted(p.exterior, RingKind::Outline, width, height)
    &&& spans(p.exterior, dim)
    &&& forall|j: int|
        0 <= j < p.interiors.len() ==> {
            &&& emitted(#[trigger] p.interiors[j], RingKind::Hole, width, height)
            &&& covers(p.interiors[j], dim)
            &&& encloses(p.exterior, p.interiors[j][0])
        }
}

/// The outline that `container` picks encloses the point, and no outline
/// that encloses the point has a smaller area, nor an earlier one the same.
pub proof fn lemma_container_is_smallest(outlines: Seq<Seq<Point>>, p: Point, n: nat)
    requires
        n <= outlines.len(),
    ensures
        match container(outlines, p, n) {
            Some(i) => {
                &&& 0 <= i < n
                &&& encloses(outlines[i], p)
                &&& forall|j: int|
                    0 <= j < n && encloses(#[trigger] outlines[j], p) ==> {
                        let least = vstd::math::abs(twice_area(outlines[i]));
                        let other = vstd::math::abs(twice_area(outlines[j]));
                        least < other || (least == other && i <= j)
                    }
            },
            None => forall|j: int| 0 <= j < n ==> !encloses(#[trigger] outlines[j], p),
        },
    decreases n,
{
    if n > 0 {
        lemma_container_is_smallest(outlines, p, (n - 1) as nat);
    }
}

/// Whether `ring` is a traced hole that spans the least dimension and has
/// outline `owner` as its container.
pub open spec fn is_hole_of(
    outlines: Seq<Seq<Point>>,
    holes: Seq<Seq<Point>>,
    owner: int,
    dim: int,
    ring: Seq<Point>,
) -> bool {
    exists|m: int|
        0 <= m < holes.len() && #[trigger] holes[m] == ring && covers(ring, dim) && container(
            outlines,
            ring[0],
            outlines.len(),
        ) == Some(owner)
}

/// Every ring attached to an outline is a hole of that outline.
pub proof fn lemma_attached_members(
    outlines: Seq<Seq<Point>>,
    holes: Seq<Seq<Point>>,
    owner: int,
    dim: int,
    n: nat,
)
    requires
        n <= holes.len(),
    ensures
        forall|j: int|
            0 <= j < attached(outlines, holes, owner, dim, n).len() ==> is_hole_of(
                outlines,
                holes,
                owner,
                dim,
                #[trigger] attached(outlines, holes, owner, dim, n)[j],
            ),
    decreases n,
{
    if n > 0 {
        lemma_attached_members(outlines, holes, owner, dim, (n - 1) as nat);
        let rest = attached(outlines, holes, owner, dim, (n - 1) as nat);
        let all = attached(outlines, holes, owner, dim, n);
        assert forall|j: int| 0 <= j < all.len() implies is_hole_of(
            outlines,
            holes,
            owner,
            dim,
            #[trigger] all[j],
        ) by {
            if j < rest.len() {
                assert(all[j] == rest[j]);
            } else {
                assert(holes[n - 1] == all[j]);
            }
        }
    }
}

/// The polygon of an outline that spans the least dimension is well shaped
/// when every traced ring is as a scan emits it.
pub proof fn lemma_polygon_well_shaped(t: Traced, width: int, height: int, dim: int, i: int)
    requires
        all_emitted(t, width, height),
        0 <= i < t.outlines.len(),
        spans(t.outlines[i], dim),
    ensures
        well_shaped(
            PolygonView {
                exterior: t.outlines[i],
                interiors: attached(t.outlines, t.holes, i, dim, t.holes.len()),
            },
            width,
            height,
            dim,
        ),
{
    let interiors = attached(t.outlines, t.holes, i, dim, t.holes.len());
    lemma_attached_members(t.outlines, t.holes, i, dim, t.holes.len());
    assert forall|j: int| 0 <= j < interiors.len() implies {
        &&& emitted(#[trigger] interiors[j], RingKind::Hole, width, height)
        &&& covers(interiors[j], dim)
        &&& encloses(t.outlines[i], interiors[j][0])
    } by {
        assert(is_hole_of(t.outlines, t.holes, i, dim, interiors[j]));
        let m = choose|m: int|
            0 <= m < t.holes.len() && #[trigger] t.holes[m] == interiors[j] && covers(
                interiors[j],
                dim,
            ) && container(t.outlines, interiors[j][0], t.outlines.len()) == Some(i);
        lemma_container_is_smallest(t.outlines, t.holes[m][0], t.outlines.len());
    }
}

/// Among the exteriors of `polygons`, the smallest that encloses `p`.
fn find_container(polygons: &Vec<Polygon>, p: Point) -> (best: Option<usize>)
    ensures
        match best {
            Some(i) => i < polygons@.len() && container(
                exteriors_of(polygons@),
                p,
                polygons@.len() as nat,
            ) == Some(i as int),
            None => container(exteriors_of(polygons@), p, polygons@.len() as nat) is None,
        },
{
    let mut best: Option<usize> = None;
    let mut least: u128 = 0;
    let mut i: usize = 0;
    while i < polygons.len()
        invariant
            i <= polygons@.len(),
            match best {
                Some(b) => {
                    &&& container(exteriors_of(polygons@), p, i as nat) == Some(b as int)
                    &&& b < i
                    &&& least == vstd::math::abs(twice_area(exteriors_of(polygons@)[b as int]))
                },
                None => container(exteriors_of(polygons@), p, i as nat) is None,
            },
        decreases polygons@.len() - i,
    {
        let exterior = polygons[i].exterior();
        if exterior.contains(p) {
            let area = exterior.doubled_area();
            let smaller = match best {
                Some(_) => area < least,
                None => true,
            };
            if smaller {
                best = Some(i);
                least = area;
            }
        }
        i += 1;
    }
    best
}

/// Attaches every hole that covers at least `dim` grid lines each way to the
/// smallest polygon whose exterior encloses the first point of the hole.
fn attach(polygons: &mut Vec<Polygon>, holes: Vec<Ring>, dim: usize)
    requires
        forall|i: int|
            0 <= i < old(polygons)@.len() ==> (#[trigger] old(polygons)@[i])@.interiors.len() == 0,
    ensures
        exteriors_of(final(polygons)@) == exteriors_of(old(polygons)@),
        final(polygons)@.len() == old(polygons)@.len(),
        forall|i: int|
            0 <= i < final(polygons)@.len() ==> (#[trigger] final(polygons)@[i])@.interiors
                == attached(
                exteriors_of(old(polygons)@),
                ring_views(holes@),
                i,
                dim as int,
                holes@.len(),
            ),
{
    let ghost outlines = exteriors_of(polygons@);
    let ghost all = ring_views(holes@);
    assert forall|i: int| 0 <= i < polygons@.len() implies (#[trigger] polygons@[i])@.interiors
        == attached(outlines, all, i, dim as int, 0) by {
        assert(polygons@[i]@.interiors =~= Seq::empty());
    }
    for hole in it: holes
        invariant
            it.seq() == holes@,
            all == ring_views(holes@),
            exteriors_of(polygons@) == outlines,
            polygons@.len() == outlines.len(),
            forall|i: int|
                0 <= i < polygons@.len() ==> (#[trigger] polygons@[i])@.interiors == attached(
                    outlines,
                    all,
                    i,
                    dim as int,
                    it.index() as nat,
                ),
    {
        let ghost k = it.index();
        assert(all[k] == hole@);
        let ghost before = polygons@;
        let mut owner: Option<usize> = None;
        if hole.covers(dim) {
            let first = hole.points()[0];
            owner = find_container(polygons, first);
        }
        match owner {
            Some(at) => {
                polygons[at].push_interior(hole);
                assert(exteriors_of(polygons@) =~= outlines) by {
                    assert forall|i: int| 0 <= i < polygons@.len() implies exteriors_of(polygons@)[i]
                        == outlines[i] by {
                        assert(outlines[i] == before[i]@.exterior);
                    }
                }
            },
            None => {},
        }
    }
}

/// Keeps the polygons whose exterior is at least `dim` by `dim` pixels.
fn keep_large(
    polygons: Vec<Polygon>,
    dim: usize,
    Ghost(outlines): Ghost<Seq<Seq<Point>>>,
    Ghost(holes): Ghost<Seq<Seq<Point>>>,
) -> (kept: Vec<Polygon>)
    requires
        polygons@.len() == outlines.len(),
        forall|i: int|
            0 <= i < polygons@.len() ==> (#[trigger] polygons@[i])@ == (PolygonView {
                exterior: outlines[i],
                interiors: attached(outlines, holes, i, dim as int, holes.len()),
            }),
    ensures
        polygon_views(kept@) == assembled(outlines, holes, dim as int, outlines.len()),
{
    let mut kept: Vec<Polygon> = Vec::new();
    assert(polygon_views(kept@) =~= assembled(outlines, holes, dim as int, 0));
    for polygon in it: polygons
        invariant
            it.seq() == polygons@,
            polygons@.len() == outlines.len(),
            forall|i: int|
                0 <= i < polygons@.len() ==> (#[trigger] polygons@[i])@ == (PolygonView {
                    exterior: outlines[i],
                    interiors: attached(outlines, holes, i, dim as int, holes.len()),
                }),
            polygon_views(kept@) == assembled(outlines, holes, dim as int, it.index() as nat),
    {
        let ghost before = kept@;
        assert(polygon == polygons@[it.index() as int]);
        if polygon.exterior().reaches(dim) {
            kept.push(polygon);
            assert(polygon_views(kept@) =~= polygon_views(before).push(polygon@));
        }
    }
    kept
}

/// Polygons assembled from rings as a scan emits them are well shaped.
pub proof fn lemma_assembled_well_shaped(t: Traced, width: int, height: int, dim: int, n: nat)
    requires
        all_emitted(t, width, height),
        n <= t.outlines.len(),
    ensures
        forall|k: int|
            0 <= k < assembled(t.outlines, t.holes, dim, n).len() ==> well_shaped(
                #[trigger] assembled(t.outlines, t.holes, dim, n)[k],
                width,
                height,
                dim,
            ),
    decreases n,
{
    if n > 0 {
        lemma_assembled_well_shaped(t, width, height, dim, (n - 1) as nat);
        let rest = assembled(t.outlines, t.holes, dim, (n - 1) as nat);
        let all = assembled(t.outlines, t.holes, dim, n);
        if spans(t.outlines[n - 1], dim) {
            lemma_polygon_well_shaped(t, width, height, dim, n - 1);
        }
        assert forall|k: int| 0 <= k < all.len() implies well_shaped(
            #[trigger] all[k],
            width,
            height,
            dim,
        ) by {
            if k < rest.len() {
                assert(all[k] == rest[k]);
            }
        }
    }
}

impl BinaryImage {
    /// Traces the foreground regions of the mask into polygons.
    ///
    /// The boundary of every 4-connected foreground region is walked into
    /// the exterior ring of a polygon, the boundary of every background
    /// region inside it into an interior ring; the vertices are pixel
    /// corners, and every corner at which the boundary turns is one. A
    /// polygon is kept only where the bounding box of its exterior is at
    /// least `min_dim` pixels wide and `min_dim` pixels high. An interior
    /// ring is kept only where it covers at least `min_dim` grid lines each
    /// way, which is one more than its pixels. The polygons come in the order
    /// in which the scan meets them, from the top row down and from left to
    /// right.
    ///
    /// The result is that of the scan and its walks ([`polygons_of`]), every
    /// polygon in it is [`well_shaped`], with every side of every ring along
    /// a grid line, and the polygons are in the order of the scan
    /// ([`polygons_in_scan_order`]).
    ///
    /// A walk gives no ring where it would pass a cell a second time in the
    /// same direction, or where its corners enclose no area; such a ring is
    /// left out. [`BinaryImage::trace_report`] tells how many were.
    ///
    /// The bordered grid of the mask must be addressable.
    pub fn trace_polygons(&self, min_dim: usize) -> (polygons: Vec<Polygon>)
        requires
            (self.spec_width() + 2) * (self.spec_height() + 2) <= usize::MAX,
        ensures
            polygon_views(polygons@) == polygons_of(
                self@,
                self.spec_width() as int,
                self.spec_height() as int,
                min_dim as int,
            ),
            forall|k: int|
                0 <= k < polygons@.len() ==> well_shaped(
                    #[trigger] polygon_views(polygons@)[k],
                    self.spec_width() as int,
                    self.spec_height() as int,
                    min_dim as int,
                ),
            polygons_in_scan_order(polygon_views(polygons@)),
    {
        self.trace_report(min_dim).0
    }

    /// Traces the mask as [`BinaryImage::trace_polygons`] does, and tells
    /// with the polygons how many walks gave no ring and were left out:
    /// walks that would have passed a cell a second time in the same
    /// direction, and walks whose corners enclose no area. The count stops at
    /// the largest number it can hold.
    ///
    /// The bordered grid of the mask must be addressable.
    pub fn trace_report(&self, min_dim: usize) -> (report: (Vec<Polygon>, usize))
        requires
            (self.spec_width() + 2) * (self.spec_height() + 2) <= usize::MAX,
        ensures
            polygon_views(report.0@) == polygons_of(
                self@,
                self.spec_width() as int,
                self.spec_height() as int,
                min_dim as int,
            ),
            forall|k: int|
                0 <= k < report.0@.len() ==> well_shaped(
                    #[trigger] polygon_views(report.0@)[k],
                    self.spec_width() as int,
                    self.spec_height() as int,
                    min_dim as int,
                ),
            polygons_in_scan_order(polygon_views(report.0@)),
            report.1 == counted(
                traced(self@, self.spec_width() as int, self.spec_height() as int).left_out,
            ),
    {
        let width = self.width();
        let height = self.height();
        assert(width + 2 <= usize::MAX && height + 2 <= usize::MAX) by (nonlinear_arith)
            requires
                (width + 2) * (height + 2) <= usize::MAX,
                width >= 0,
                height >= 0,
        ;
        let stride: usize = width as usize + 2;
        let rows: usize = height as usize + 2;
        let mut cells = label_grid(self);
        let (mut polygons, holes, left_out, Ghost(lost)) = scan_grid(&mut cells, stride, rows);
        let ghost t = traced(self@, width as int, height as int);
        assert(t == found(cells@, polygons@, holes@, lost));
        attach(&mut polygons, holes, min_dim);
        let kept = keep_large(polygons, min_dim, Ghost(t.outlines), Ghost(t.holes));
        proof {
            lemma_polygons_well_shaped(self@, width as int, height as int, min_dim as int);
            lemma_polygons_in_scan_order(self@, width as int, height as int, min_dim as int);
            let all = polygons_of(self@, width as int, height as int, min_dim as int);
            assert forall|k: int| 0 <= k < kept@.len() implies well_shaped(
                #[trigger] polygon_views(kept@)[k],
                width as int,
                height as int,
                min_dim as int,
            ) by {
                assert(polygon_views(kept@)[k] == all[k]);
            }
        }
        (kept, left_out)
    }
}

/// A mask without a foreground pixel has no polygons, whatever the least
/// dimension asked for.
pub proof fn lemma_background_has_no_polygons(pixels: Seq<bool>, width: int, height: int, dim: int)
    requires
        0 <= width,
        0 <= height,
        forall|i: int| 0 <= i < width * height ==> !#[trigger] pixels[i],
    ensures
        polygons_of(pixels, width, height, dim) == Seq::<PolygonView>::empty(),
        traced(pixels, width, height).left_out == 0,
{
    let start = Traced {
        cells: labels(pixels, width, height),
        outlines: Seq::empty(),
        holes: Seq::empty(),
        left_out: 0,
    };
    assert forall|cx: int, cy: int| 0 <= cx < width + 2 && 0 <= cy < height + 2 implies -1
        <= #[trigger] cell_at(start.cells, width + 2, cx, cy) <= 0 by {
        lemma_labels_cell(pixels, width, height, cx, cy);
        if 1 <= cx <= width && 1 <= cy <= height {
            lemma_index_in_range(cx - 1, cy - 1, width, height);
        }
    }
    lemma_rows_of_background(start, width + 2, height + 2, 1);
}

} // verus!
