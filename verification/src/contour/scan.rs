//! The raster scan that finds where boundaries start.
//!
//! The scan goes through the rows from the top and through each row from the
//! left. The marks that earlier walks left tell it how deep inside outlines
//! and holes it is, so that every boundary is walked once: an outline where
//! the scan meets unmarked foreground outside every region, a hole where it
//! meets unmarked background inside one.
use crate::contour::grid::{bordered, cell_at, label, labels};
use crate::contour::walk::{on_grid, trace, trace_ring, RingKind};
use crate::geometry::{
    closed, is_ring, rectilinear, ring_views, twice_area, Point, Polygon, Ring,
};
use vstd::prelude::*;

verus! {

/// Whether a closed point sequence runs the way its kind asks: an outline
/// encloses a positive area, a hole a negative one.
pub open spec fn runs(ring: Seq<Point>, kind: RingKind) -> bool {
    match kind {
        RingKind::Outline => twice_area(ring) > 0,
        RingKind::Hole => twice_area(ring) < 0,
    }
}

/// The ring made of the corners of a walk: closed, and turned round where it
/// runs the wrong way. `None` for corners that make no ring or enclose no
/// area.
pub open spec fn oriented(raw: Seq<Point>, kind: RingKind) -> Option<Seq<Point>> {
    let ring = closed(raw);
    if ring.len() < 4 || twice_area(ring) == 0 {
        None
    } else if runs(ring, kind) {
        Some(ring)
    } else {
        Some(ring.reverse())
    }
}

/// What a scan has found so far: the marked grid, the rings of the outlines
/// and of the holes in the order in which their walks started, and how many
/// walks gave no ring: walks that were given up, and walks whose corners
/// enclose no area.
pub struct Traced {
    pub cells: Seq<i8>,
    pub outlines: Seq<Seq<Point>>,
    pub holes: Seq<Seq<Point>>,
    pub left_out: nat,
}

/// Whether a walk starts at cell `(x, y)`, and of which kind, given how many
/// outlines (`ol`) and holes (`hl`) the scan has entered on this row. An
/// outline starts on an unmarked foreground cell outside every outline that
/// has a 4-neighbour which is not foreground; a hole starts on an unmarked
/// background cell inside an outline that has a foreground 4-neighbour.
pub open spec fn starts(cells: Seq<i8>, stride: int, x: int, y: int, ol: int, hl: int) -> Option<
    RingKind,
> {
    let here = cell_at(cells, stride, x, y);
    if ol == hl && here == 1 {
        if cell_at(cells, stride, x - 1, y) <= 0 || cell_at(cells, stride, x, y - 1) <= 0
            || cell_at(cells, stride, x, y + 1) <= 0 || cell_at(cells, stride, x + 1, y) <= 0 {
            Some(RingKind::Outline)
        } else {
            None
        }
    } else if ol > hl && here == -1 {
        if cell_at(cells, stride, x - 1, y) > 0 || cell_at(cells, stride, x, y - 1) > 0 || cell_at(
            cells,
            stride,
            x,
            y + 1,
        ) > 0 || cell_at(cells, stride, x + 1, y) > 0 {
            Some(RingKind::Hole)
        } else {
            None
        }
    } else {
        None
    }
}

/// The scan after it looked at cell `(x, y)`: where a walk starts there, the
/// grid carries its marks and its ring is recorded; where the walk gave no
/// ring, that is counted.
pub open spec fn visit(t: Traced, stride: int, x: int, y: int, ol: int, hl: int) -> Traced {
    match starts(t.cells, stride, x, y, ol, hl) {
        None => t,
        Some(kind) => {
            let (cells, raw) = trace(t.cells, stride, kind, x, y);
            let ring = match raw {
                Some(points) => oriented(points, kind),
                None => None,
            };
            match (ring, kind) {
                (None, _) => Traced { cells, left_out: t.left_out + 1, ..t },
                (Some(ring), RingKind::Outline) => Traced {
                    cells,
                    outlines: t.outlines.push(ring),
                    ..t
                },
                (Some(ring), RingKind::Hole) => Traced { cells, holes: t.holes.push(ring), ..t },
            }
        },
    }
}

/// By how much a marked label changes the nesting depth of the scan: a cell
/// with a left-hand boundary (labels 2, 4, 10, 12 without their sign) enters
/// a region, one with a right-hand boundary (5, 7, 13, 15) leaves it.
pub open spec fn depth_change(label: i8) -> int {
    let size = if label < 0 {
        -label
    } else {
        label as int
    };
    if size == 2 || size == 4 || size == 10 || size == 12 {
        1
    } else if size == 5 || size == 7 || size == 13 || size == 15 {
        -1
    } else {
        0
    }
}

/// The scan of row `y` from column `x` on.
pub open spec fn scan_row(t: Traced, stride: int, y: int, x: int, ol: int, hl: int) -> Traced
    decreases stride - x,
{
    if x < 1 || x >= stride - 1 {
        t
    } else {
        let t = visit(t, stride, x, y, ol, hl);
        let here = cell_at(t.cells, stride, x, y);
        if here > 0 {
            scan_row(t, stride, y, x + 1, ol + depth_change(here), hl)
        } else {
            scan_row(t, stride, y, x + 1, ol, hl + depth_change(here))
        }
    }
}

/// The scan of the rows from `y` on.
pub open spec fn scan(t: Traced, stride: int, rows: int, y: int) -> Traced
    decreases rows - y,
{
    if y < 1 || y >= rows - 1 {
        t
    } else {
        scan(scan_row(t, stride, y, 1, 0, 0), stride, rows, y + 1)
    }
}

/// Everything that the scan of a mask finds.
pub open spec fn traced(pixels: Seq<bool>, width: int, height: int) -> Traced {
    scan(
        Traced {
            cells: labels(pixels, width, height),
            outlines: Seq::empty(),
            holes: Seq::empty(),
            left_out: 0,
        },
        width + 2,
        height + 2,
        1,
    )
}

/// The exterior rings of a list of polygons.
pub open spec fn exteriors_of(polygons: Seq<Polygon>) -> Seq<Seq<Point>> {
    Seq::new(polygons.len(), |i: int| polygons[i]@.exterior)
}

/// The points of a ring that may be missing.
pub open spec fn ring_of(ring: Option<Ring>) -> Option<Seq<Point>> {
    match ring {
        Some(ring) => Some(ring@),
        None => None,
    }
}

/// A ring as a scan emits it: closed, on the corner grid of the image, every
/// side along a grid line, and running the way of its kind.
pub open spec fn emitted(ring: Seq<Point>, kind: RingKind, width: int, height: int) -> bool {
    is_ring(ring) && runs(ring, kind) && on_grid(ring, width, height) && rectilinear(ring)
}

/// Every ring that the scan holds is as a scan emits it.
pub open spec fn all_emitted(t: Traced, width: int, height: int) -> bool {
    &&& forall|i: int|
        0 <= i < t.outlines.len() ==> emitted(
            #[trigger] t.outlines[i],
            RingKind::Outline,
            width,
            height,
        )
    &&& forall|i: int|
        0 <= i < t.holes.len() ==> emitted(#[trigger] t.holes[i], RingKind::Hole, width, height)
}

/// Closes the corners of a walk into a ring that runs the way of its kind.
fn orient(raw: Vec<Point>, kind: RingKind) -> (ring: Option<Ring>)
    ensures
        ring_of(ring) == oriented(raw@, kind),
{
    match Ring::new(raw) {
        Err(_) => None,
        Ok(ring) => {
            let forward = ring.is_positive();
            let backward = ring.is_negative();
            let wanted = match kind {
                RingKind::Outline => forward,
                RingKind::Hole => backward,
            };
            if wanted {
                Some(ring)
            } else if forward || backward {
                Some(ring.reversed())
            } else {
                None
            }
        },
    }
}

/// By how much a marked label changes the nesting depth of the scan.
fn depth_of(label: i8) -> (change: i64)
    ensures
        change == depth_change(label),
        -1 <= change <= 1,
{
    let size: i16 = if label < 0 {
        -(label as i16)
    } else {
        label as i16
    };
    if size == 2 || size == 4 || size == 10 || size == 12 {
        1
    } else if size == 5 || size == 7 || size == 13 || size == 15 {
        -1
    } else {
        0
    }
}

/// Decides whether a walk starts at cell `(x, y)`.
fn start_at(cells: &Vec<i8>, stride: usize, rows: usize, x: usize, y: usize, ol: i64, hl: i64) -> (kind:
    Option<RingKind>)
    requires
        cells@.len() == stride * rows,
        1 <= x <= stride - 2,
        1 <= y <= rows - 2,
    ensures
        kind == starts(cells@, stride as int, x as int, y as int, ol as int, hl as int),
{
    let here = label(cells, stride, rows, x, y);
    if ol == hl && here == 1 {
        if label(cells, stride, rows, x - 1, y) <= 0 || label(cells, stride, rows, x, y - 1) <= 0
            || label(cells, stride, rows, x, y + 1) <= 0 || label(cells, stride, rows, x + 1, y)
            <= 0 {
            Some(RingKind::Outline)
        } else {
            None
        }
    } else if ol > hl && here == -1 {
        if label(cells, stride, rows, x - 1, y) > 0 || label(cells, stride, rows, x, y - 1) > 0
            || label(cells, stride, rows, x, y + 1) > 0 || label(cells, stride, rows, x + 1, y)
            > 0 {
            Some(RingKind::Hole)
        } else {
            None
        }
    } else {
        None
    }
}

/// A count that stops at the largest number a counter can hold.
pub open spec fn counted(n: nat) -> usize {
    if n > usize::MAX {
        usize::MAX
    } else {
        n as usize
    }
}

/// What the scan holds, as the model sees it.
pub open spec fn found(
    cells: Seq<i8>,
    polygons: Seq<Polygon>,
    holes: Seq<Ring>,
    left_out: nat,
) -> Traced {
    Traced {
        left_out,
        cells,
        outlines: exteriors_of(polygons),
        holes: ring_views(holes),
    }
}

/// Looks at one cell of the scan: traces the boundary that starts there, if
/// one does, and records its ring.
fn visit_cell(
    cells: &mut Vec<i8>,
    stride: usize,
    rows: usize,
    x: usize,
    y: usize,
    ol: i64,
    hl: i64,
    polygons: &mut Vec<Polygon>,
    holes: &mut Vec<Ring>,
    left_out: &mut usize,
    Ghost(lost): Ghost<nat>,
) -> (after: Ghost<nat>)
    requires
        *old(left_out) == counted(lost),
        bordered(old(cells)@, stride as int, rows as int),
        1 <= x <= stride - 2,
        1 <= y <= rows - 2,
        stride - 2 <= u32::MAX,
        rows - 2 <= u32::MAX,
        forall|i: int| 0 <= i < old(polygons)@.len() ==> (#[trigger] old(polygons)@[i])@.interiors.len() == 0,
    ensures
        found(final(cells)@, final(polygons)@, final(holes)@, after@) == visit(
            found(old(cells)@, old(polygons)@, old(holes)@, lost),
            stride as int,
            x as int,
            y as int,
            ol as int,
            hl as int,
        ),
        *final(left_out) == counted(after@),
        bordered(final(cells)@, stride as int, rows as int),
        forall|i: int| 0 <= i < final(polygons)@.len() ==> (#[trigger] final(polygons)@[i])@.interiors.len() == 0,
{
    let ghost before = found(cells@, polygons@, holes@, lost);
    let ring = match start_at(cells, stride, rows, x, y, ol, hl) {
        None => {
            return Ghost(lost);
        },
        Some(kind) => match trace_ring(cells, stride, rows, kind, x, y) {
            None => None,
            Some(points) => match orient(points, kind) {
                None => None,
                Some(ring) => Some((ring, kind)),
            },
        },
    };
    match ring {
        None => {
            if *left_out < usize::MAX {
                *left_out = *left_out + 1;
            }
            Ghost(lost + 1)
        },
        Some((ring, RingKind::Outline)) => {
            let polygon = Polygon::new(ring, Vec::new());
            polygons.push(polygon);
            assert(exteriors_of(polygons@) =~= before.outlines.push(ring@));
            assert(ring_views(holes@) =~= before.holes);
            Ghost(lost)
        },
        Some((ring, RingKind::Hole)) => {
            holes.push(ring);
            assert(ring_views(holes@) =~= before.holes.push(ring@));
            assert(exteriors_of(polygons@) =~= before.outlines);
            Ghost(lost)
        },
    }
}

/// Scans the grid row by row and traces every boundary it comes upon. The
/// outlines come back as polygons without holes, the holes as rings, and
/// with them the number of walks that gave no ring.
pub(crate) fn scan_grid(cells: &mut Vec<i8>, stride: usize, rows: usize) -> (rings: (
    Vec<Polygon>,
    Vec<Ring>,
    usize,
    Ghost<nat>,
))
    requires
        bordered(old(cells)@, stride as int, rows as int),
        stride - 2 <= u32::MAX,
        rows - 2 <= u32::MAX,
    ensures
        found(final(cells)@, rings.0@, rings.1@, rings.3@) == scan(
            Traced { cells: old(cells)@, outlines: Seq::empty(), holes: Seq::empty(), left_out: 0 },
            stride as int,
            rows as int,
            1,
        ),
        rings.2 == counted(rings.3@),
        forall|i: int| 0 <= i < rings.0@.len() ==> (#[trigger] rings.0@[i])@.interiors.len() == 0,
{
    let mut polygons: Vec<Polygon> = Vec::new();
    let mut holes: Vec<Ring> = Vec::new();
    let mut left_out: usize = 0;
    let ghost mut lost: nat = 0;
    let ghost goal = scan(
        Traced { cells: cells@, outlines: Seq::empty(), holes: Seq::empty(), left_out: 0 },
        stride as int,
        rows as int,
        1,
    );
    assert(exteriors_of(polygons@) =~= Seq::empty());
    assert(ring_views(holes@) =~= Seq::empty());
    let mut y: usize = 1;
    while y < rows - 1
        invariant
            bordered(cells@, stride as int, rows as int),
            stride - 2 <= u32::MAX,
            rows - 2 <= u32::MAX,
            1 <= y <= rows - 1,
            left_out == counted(lost),
            forall|i: int| 0 <= i < polygons@.len() ==> (#[trigger] polygons@[i])@.interiors.len() == 0,
            scan(found(cells@, polygons@, holes@, lost), stride as int, rows as int, y as int) == goal,
        decreases rows - y,
    {
        let mut ol: i64 = 0;
        let mut hl: i64 = 0;
        let mut x: usize = 1;
        let ghost row_goal = scan_row(found(cells@, polygons@, holes@, lost), stride as int, y as int, 1, 0, 0);
        while x < stride - 1
            invariant
                bordered(cells@, stride as int, rows as int),
                stride - 2 <= u32::MAX,
                rows - 2 <= u32::MAX,
                1 <= y < rows - 1,
                left_out == counted(lost),
                1 <= x <= stride - 1,
                -x <= ol <= x,
                -x <= hl <= x,
                    forall|i: int|
                    0 <= i < polygons@.len() ==> (#[trigger] polygons@[i])@.interiors.len() == 0,
                scan_row(
                    found(cells@, polygons@, holes@, lost),
                    stride as int,
                    y as int,
                    x as int,
                    ol as int,
                    hl as int,
                ) == row_goal,
            decreases stride - x,
        {
            let after = visit_cell(
                cells,
                stride,
                rows,
                x,
                y,
                ol,
                hl,
                &mut polygons,
                &mut holes,
                &mut left_out,
                Ghost(lost),
            );
            proof {
                lost = after@;
            }
            let here = label(cells, stride, rows, x, y);
            if here > 0 {
                ol = ol + depth_of(here);
            } else {
                hl = hl + depth_of(here);
            }
            x += 1;
        }
        y += 1;
    }
    (polygons, holes, left_out, Ghost(lost))
}

/// A scan that finds no cell of the foreground leaves everything as it is.
proof fn lemma_row_of_background(t: Traced, stride: int, rows: int, y: int, x: int)
    requires
        forall|cx: int, cy: int|
            0 <= cx < stride && 0 <= cy < rows ==> -1 <= #[trigger] cell_at(
                t.cells,
                stride,
                cx,
                cy,
            ) <= 0,
        1 <= y < rows - 1,
        1 <= x,
    ensures
        scan_row(t, stride, y, x, 0, 0) == t,
    decreases stride - x,
{
    if x < stride - 1 {
        assert(-1 <= cell_at(t.cells, stride, x, y) <= 0);
        assert(visit(t, stride, x, y, 0, 0) == t);
        lemma_row_of_background(t, stride, rows, y, x + 1);
    }
}

/// A scan that finds no cell of the foreground leaves everything as it is.
pub(crate) proof fn lemma_rows_of_background(t: Traced, stride: int, rows: int, y: int)
    requires
        forall|cx: int, cy: int|
            0 <= cx < stride && 0 <= cy < rows ==> -1 <= #[trigger] cell_at(
                t.cells,
                stride,
                cx,
                cy,
            ) <= 0,
        1 <= y,
    ensures
        scan(t, stride, rows, y) == t,
    decreases rows - y,
{
    if y < rows - 1 {
        lemma_row_of_background(t, stride, rows, y, 1);
        lemma_rows_of_background(t, stride, rows, y + 1);
    }
}

} // verus!
