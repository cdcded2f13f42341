//! What holds of every scan: the rings it emits are closed, lie on the
//! corner grid of the image and run the way of their kind, so that the
//! polygons of every mask are well shaped; and the polygons come in the
//! order in which the scan meets them.
use crate::contour::grid::{
    bordered, cell_at, label_at, labels, lemma_cell_index, lemma_labels_cell,
};
use crate::contour::polygons::{
    assembled, attached, lemma_assembled_well_shaped, polygons_of, well_shaped,
};
use crate::contour::scan::{
    all_emitted, depth_change, emitted, oriented, scan, scan_row, starts, traced, visit, Traced,
};
use crate::contour::walk::{
    corner, facing, final_dir, finish, inside, lemma_mark_sign, lemma_marked_inside,
    lemma_marks_use_slack, mark, marked, marks_of_move, moved, occupied, on_grid, rule, sees,
    slack, start_dir, step, takes, trace, turned, walk, RingKind, Stepped, Walker,
};
use crate::geometry::{
    closed, cross, lemma_reverse_area, on_one_line, rectilinear, shoelace, spans, twice_area,
    Point, PolygonView,
};
use vstd::prelude::*;

verus! {

/// The corner that a walker inside the border emits lies on the corner grid.
pub proof fn lemma_corner_on_grid(kind: RingKind, w: Walker, stride: int, rows: int)
    requires
        inside(w, stride, rows),
        stride - 2 <= u32::MAX,
        rows - 2 <= u32::MAX,
    ensures
        corner(kind, w).x <= stride - 2,
        corner(kind, w).y <= rows - 2,
{
}

/// A neighbour on the walk's side lies inside the border.
pub proof fn lemma_moved_inside(
    cells: Seq<i8>,
    stride: int,
    rows: int,
    kind: RingKind,
    w: Walker,
    i: int,
)
    requires
        bordered(cells, stride, rows),
        inside(w, stride, rows),
        -2 <= i <= 2,
        sees(cells, stride, kind, w, i),
    ensures
        inside(moved(kind, w, i), stride, rows),
{
    let there = moved(kind, w, i);
    assert(cell_at(cells, stride, there.x, there.y) != 0);
}

/// A move keeps the border clear, the walker inside it and the corners on
/// the corner grid.
pub proof fn lemma_step_keeps(
    cells: Seq<i8>,
    stride: int,
    rows: int,
    kind: RingKind,
    w: Walker,
    ring: Seq<Point>,
)
    requires
        bordered(cells, stride, rows),
        inside(w, stride, rows),
        on_grid(ring, stride - 2, rows - 2),
        stride - 2 <= u32::MAX,
        rows - 2 <= u32::MAX,
    ensures
        step(cells, stride, kind, w, ring) matches Some(next) ==> {
            &&& bordered(next.cells, stride, rows)
            &&& inside(next.walker, stride, rows)
            &&& on_grid(next.ring, stride - 2, rows - 2)
            &&& slack(next.cells) < slack(cells)
        },
{
    let rn = rule(cells, stride, kind, w);
    let marks = marks_of_move(kind, w.dir, rn);
    if takes(cells, stride, kind, w, marks) {
        lemma_marked_inside(cells, stride, rows, w, marks);
        lemma_mark_sign(kind, w.dir, rn);
        lemma_marks_use_slack(cells, stride, kind, w, marks);
        if rn == 1 {
            lemma_moved_inside(cells, stride, rows, kind, w, -1);
            lemma_corner_on_grid(kind, turned(kind, moved(kind, w, -1), -2), stride, rows);
        } else if rn == 2 {
            lemma_moved_inside(cells, stride, rows, kind, w, 0);
        } else if rn == 3 {
            lemma_moved_inside(cells, stride, rows, kind, w, 1);
            let at_corner = Walker { dir: facing(kind, w.dir, 2), ..w };
            lemma_corner_on_grid(kind, at_corner, stride, rows);
            lemma_corner_on_grid(kind, Walker { turns: 3, ..moved(kind, w, 1) }, stride, rows);
        } else {
            lemma_corner_on_grid(kind, turned(kind, w, 2), stride, rows);
        }
    }
}

/// The closing moves of a walk keep the border clear and the corners on the
/// corner grid.
pub proof fn lemma_finish_keeps(
    cells: Seq<i8>,
    stride: int,
    rows: int,
    kind: RingKind,
    w: Walker,
    ring: Seq<Point>,
)
    requires
        bordered(cells, stride, rows),
        inside(w, stride, rows),
        on_grid(ring, stride - 2, rows - 2),
        stride - 2 <= u32::MAX,
        rows - 2 <= u32::MAX,
    ensures
        bordered(finish(cells, stride, kind, w, ring).0, stride, rows),
        finish(cells, stride, kind, w, ring).1 matches Some(points) ==> on_grid(
            points,
            stride - 2,
            rows - 2,
        ),
    decreases slack(cells),
{
    if takes(cells, stride, kind, w, mark(kind, w.dir)) {
        lemma_mark_sign(kind, w.dir, 0);
        lemma_marks_use_slack(cells, stride, kind, w, mark(kind, w.dir));
        lemma_marked_inside(cells, stride, rows, w, mark(kind, w.dir));
        if w.dir != final_dir(kind) {
            let next = turned(kind, w, 2);
            lemma_corner_on_grid(kind, next, stride, rows);
            lemma_finish_keeps(
                marked(cells, stride, w, mark(kind, w.dir)),
                stride,
                rows,
                kind,
                next,
                ring.push(corner(kind, next)),
            );
        }
    }
}

/// A walk keeps the border clear and its corners on the corner grid.
pub proof fn lemma_walk_keeps(
    cells: Seq<i8>,
    stride: int,
    rows: int,
    kind: RingKind,
    sx: int,
    sy: int,
    w: Walker,
    ring: Seq<Point>,
)
    requires
        bordered(cells, stride, rows),
        inside(w, stride, rows),
        on_grid(ring, stride - 2, rows - 2),
        stride - 2 <= u32::MAX,
        rows - 2 <= u32::MAX,
    ensures
        bordered(walk(cells, stride, kind, sx, sy, w, ring).0, stride, rows),
        walk(cells, stride, kind, sx, sy, w, ring).1 matches Some(points) ==> on_grid(
            points,
            stride - 2,
            rows - 2,
        ),
    decreases slack(cells),
{
    lemma_step_keeps(cells, stride, rows, kind, w, ring);
    match step(cells, stride, kind, w, ring) {
        None => {},
        Some(next) => {
            if next.walker.x == sx && next.walker.y == sy && next.walker.turns > 2 {
                lemma_finish_keeps(next.cells, stride, rows, kind, next.walker, next.ring);
            } else {
                lemma_walk_keeps(next.cells, stride, rows, kind, sx, sy, next.walker, next.ring);
            }
        },
    }
}

/// The walk from a cell inside the border keeps the border clear and emits
/// corners of the corner grid only.
pub proof fn lemma_trace_keeps(
    cells: Seq<i8>,
    stride: int,
    rows: int,
    kind: RingKind,
    sx: int,
    sy: int,
)
    requires
        bordered(cells, stride, rows),
        1 <= sx <= stride - 2,
        1 <= sy <= rows - 2,
        stride - 2 <= u32::MAX,
        rows - 2 <= u32::MAX,
    ensures
        bordered(trace(cells, stride, kind, sx, sy).0, stride, rows),
        trace(cells, stride, kind, sx, sy).1 matches Some(points) ==> on_grid(
            points,
            stride - 2,
            rows - 2,
        ),
{
    let w = Walker { x: sx, y: sy, dir: start_dir(kind), turns: 1 };
    lemma_corner_on_grid(kind, w, stride, rows);
    lemma_walk_keeps(cells, stride, rows, kind, sx, sy, w, seq![corner(kind, w)]);
}

/// Whether the corner emitted last lies on the grid line along which the
/// walker goes: the line of the corner of its state, in the direction it
/// faces.
pub open spec fn heads_along(kind: RingKind, w: Walker, last: Point) -> bool {
    if w.dir == 2 || w.dir == 6 {
        last.y == corner(kind, w).y
    } else {
        last.x == corner(kind, w).x
    }
}

/// A move keeps every side of the corners emitted along a grid line, and the
/// walker on the line of the last of them.
pub proof fn lemma_step_straight(
    cells: Seq<i8>,
    stride: int,
    rows: int,
    kind: RingKind,
    w: Walker,
    ring: Seq<Point>,
)
    requires
        bordered(cells, stride, rows),
        inside(w, stride, rows),
        stride - 2 <= u32::MAX,
        rows - 2 <= u32::MAX,
        ring.len() >= 1,
        rectilinear(ring),
        heads_along(kind, w, ring.last()),
    ensures
        step(cells, stride, kind, w, ring) matches Some(next) ==> {
            &&& next.ring.len() >= 1
            &&& rectilinear(next.ring)
            &&& heads_along(kind, next.walker, next.ring.last())
        },
{
    lemma_step_keeps(cells, stride, rows, kind, w, Seq::empty());
    let rn = rule(cells, stride, kind, w);
    let marks = marks_of_move(kind, w.dir, rn);
    if takes(cells, stride, kind, w, marks) {
        if rn == 1 {
            lemma_moved_inside(cells, stride, rows, kind, w, -1);
            let next = turned(kind, moved(kind, w, -1), -2);
            lemma_push_straight(ring, corner(kind, next));
        } else if rn == 2 {
            lemma_moved_inside(cells, stride, rows, kind, w, 0);
        } else if rn == 3 {
            lemma_moved_inside(cells, stride, rows, kind, w, 1);
            let at_corner = Walker { dir: facing(kind, w.dir, 2), ..w };
            let next = Walker { turns: 3, ..moved(kind, w, 1) };
            lemma_push_straight(ring, corner(kind, at_corner));
            lemma_push_straight(ring.push(corner(kind, at_corner)), corner(kind, next));
        } else {
            let next = turned(kind, w, 2);
            lemma_push_straight(ring, corner(kind, next));
        }
    }
}

/// One more corner on the line of the last keeps every side along a grid
/// line.
pub proof fn lemma_push_straight(ring: Seq<Point>, p: Point)
    requires
        rectilinear(ring),
        ring.len() >= 1 ==> on_one_line(ring.last(), p),
    ensures
        rectilinear(ring.push(p)),
{
    let longer = ring.push(p);
    assert forall|i: int| 0 <= i < longer.len() - 1 implies on_one_line(
        #[trigger] longer[i],
        longer[i + 1],
    ) by {
        if i < ring.len() - 1 {
            assert(on_one_line(ring[i], ring[i + 1]));
        }
    }
}

/// The closing moves of a walk keep every side along a grid line, and end
/// on the line of the corner that the walk started with.
pub proof fn lemma_finish_straight(
    cells: Seq<i8>,
    stride: int,
    rows: int,
    kind: RingKind,
    w: Walker,
    ring: Seq<Point>,
)
    requires
        bordered(cells, stride, rows),
        inside(w, stride, rows),
        stride - 2 <= u32::MAX,
        rows - 2 <= u32::MAX,
        ring.len() >= 1,
        rectilinear(ring),
        heads_along(kind, w, ring.last()),
    ensures
        finish(cells, stride, kind, w, ring).1 matches Some(points) ==> {
            &&& points.len() >= 1
            &&& rectilinear(points)
            &&& on_one_line(
                points.last(),
                corner(kind, Walker { x: w.x, y: w.y, dir: start_dir(kind), turns: 1 }),
            )
        },
    decreases slack(cells),
{
    if takes(cells, stride, kind, w, mark(kind, w.dir)) {
        lemma_mark_sign(kind, w.dir, 0);
        lemma_marks_use_slack(cells, stride, kind, w, mark(kind, w.dir));
        lemma_marked_inside(cells, stride, rows, w, mark(kind, w.dir));
        if w.dir != final_dir(kind) {
            let next = turned(kind, w, 2);
            lemma_push_straight(ring, corner(kind, next));
            lemma_finish_straight(
                marked(cells, stride, w, mark(kind, w.dir)),
                stride,
                rows,
                kind,
                next,
                ring.push(corner(kind, next)),
            );
        }
    }
}

/// A walk keeps every side of its corners along a grid line, and ends on the
/// line of the corner that it started with.
pub proof fn lemma_walk_straight(
    cells: Seq<i8>,
    stride: int,
    rows: int,
    kind: RingKind,
    sx: int,
    sy: int,
    w: Walker,
    ring: Seq<Point>,
)
    requires
        bordered(cells, stride, rows),
        inside(w, stride, rows),
        stride - 2 <= u32::MAX,
        rows - 2 <= u32::MAX,
        ring.len() >= 1,
        rectilinear(ring),
        heads_along(kind, w, ring.last()),
    ensures
        walk(cells, stride, kind, sx, sy, w, ring).1 matches Some(points) ==> {
            &&& points.len() >= 1
            &&& rectilinear(points)
            &&& on_one_line(
                points.last(),
                corner(kind, Walker { x: sx, y: sy, dir: start_dir(kind), turns: 1 }),
            )
        },
    decreases slack(cells),
{
    lemma_step_keeps(cells, stride, rows, kind, w, Seq::empty());
    lemma_step_straight(cells, stride, rows, kind, w, ring);
    match step(cells, stride, kind, w, ring) {
        None => {},
        Some(next) => {
            if next.walker.x == sx && next.walker.y == sy && next.walker.turns > 2 {
                lemma_finish_straight(next.cells, stride, rows, kind, next.walker, next.ring);
            } else {
                lemma_walk_straight(next.cells, stride, rows, kind, sx, sy, next.walker, next.ring);
            }
        },
    }
}

/// The ring made of corners of the corner grid, every side of them along a
/// grid line and the last on the line of the first, is as a scan emits it.
pub proof fn lemma_oriented_emitted(raw: Seq<Point>, kind: RingKind, width: int, height: int)
    requires
        on_grid(raw, width, height),
        raw.len() >= 1,
        rectilinear(raw),
        on_one_line(raw.last(), raw[0]),
    ensures
        oriented(raw, kind) matches Some(ring) ==> emitted(ring, kind, width, height),
{
    let ring = closed(raw);
    lemma_reverse_area(ring);
    assert(on_grid(ring, width, height));
    if raw.last() != raw[0] {
        lemma_push_straight(raw, raw[0]);
    }
    assert(rectilinear(ring));
    let back = ring.reverse();
    assert(on_grid(back, width, height)) by {
        assert forall|i: int| 0 <= i < back.len() implies (#[trigger] back[i]).x <= width
            && back[i].y <= height by {
            assert(back[i] == ring[ring.len() - 1 - i]);
        }
    }
    assert(rectilinear(back)) by {
        assert forall|i: int| 0 <= i < back.len() - 1 implies on_one_line(
            #[trigger] back[i],
            back[i + 1],
        ) by {
            let j = ring.len() - 2 - i;
            assert(back[i] == ring[j + 1] && back[i + 1] == ring[j]);
            assert(on_one_line(ring[j], ring[j + 1]));
        }
    }
}

/// Looking at a cell keeps the border clear and the rings as a scan emits
/// them.
pub proof fn lemma_visit_keeps(t: Traced, stride: int, rows: int, x: int, y: int, ol: int, hl: int)
    requires
        bordered(t.cells, stride, rows),
        all_emitted(t, stride - 2, rows - 2),
        1 <= x <= stride - 2,
        1 <= y <= rows - 2,
        stride - 2 <= u32::MAX,
        rows - 2 <= u32::MAX,
    ensures
        bordered(visit(t, stride, x, y, ol, hl).cells, stride, rows),
        all_emitted(visit(t, stride, x, y, ol, hl), stride - 2, rows - 2),
{
    match starts(t.cells, stride, x, y, ol, hl) {
        None => {},
        Some(kind) => {
            lemma_trace_keeps(t.cells, stride, rows, kind, x, y);
            let start = Walker { x, y, dir: start_dir(kind), turns: 1 };
            let first = seq![corner(kind, start)];
            lemma_walk_straight(t.cells, stride, rows, kind, x, y, start, first);
            lemma_walk_keeps_first(t.cells, stride, kind, x, y, start, first);
            match trace(t.cells, stride, kind, x, y).1 {
                None => {},
                Some(points) => {
                    lemma_oriented_emitted(points, kind, stride - 2, rows - 2);
                },
            }
        },
    }
}

/// The scan of a row keeps the border clear and the rings as a scan emits
/// them.
pub proof fn lemma_scan_row_keeps(
    t: Traced,
    stride: int,
    rows: int,
    y: int,
    x: int,
    ol: int,
    hl: int,
)
    requires
        bordered(t.cells, stride, rows),
        all_emitted(t, stride - 2, rows - 2),
        1 <= y <= rows - 2,
        stride - 2 <= u32::MAX,
        rows - 2 <= u32::MAX,
    ensures
        bordered(scan_row(t, stride, y, x, ol, hl).cells, stride, rows),
        all_emitted(scan_row(t, stride, y, x, ol, hl), stride - 2, rows - 2),
    decreases stride - x,
{
    if 1 <= x < stride - 1 {
        lemma_visit_keeps(t, stride, rows, x, y, ol, hl);
        let next = visit(t, stride, x, y, ol, hl);
        let here = cell_at(next.cells, stride, x, y);
        if here > 0 {
            lemma_scan_row_keeps(
                next,
                stride,
                rows,
                y,
                x + 1,
                ol + depth_change(here),
                hl,
            );
        } else {
            lemma_scan_row_keeps(
                next,
                stride,
                rows,
                y,
                x + 1,
                ol,
                hl + depth_change(here),
            );
        }
    }
}

/// The scan keeps the border clear and the rings as a scan emits them.
pub proof fn lemma_scan_keeps(t: Traced, stride: int, rows: int, y: int)
    requires
        bordered(t.cells, stride, rows),
        all_emitted(t, stride - 2, rows - 2),
        stride - 2 <= u32::MAX,
        rows - 2 <= u32::MAX,
    ensures
        bordered(scan(t, stride, rows, y).cells, stride, rows),
        all_emitted(scan(t, stride, rows, y), stride - 2, rows - 2),
    decreases rows - y,
{
    if 1 <= y < rows - 1 {
        lemma_scan_row_keeps(t, stride, rows, y, 1, 0, 0);
        lemma_scan_keeps(scan_row(t, stride, y, 1, 0, 0), stride, rows, y + 1);
    }
}

/// The grid that a scan starts from has a clear border.
pub proof fn lemma_labels_bordered(pixels: Seq<bool>, width: int, height: int)
    requires
        0 <= width,
        0 <= height,
    ensures
        bordered(labels(pixels, width, height), width + 2, height + 2),
{
    let cells = labels(pixels, width, height);
    assert(cells.len() == (width + 2) * (height + 2)) by (nonlinear_arith)
        requires
            cells.len() == ((width + 2) * (height + 2)) as nat,
            0 <= width,
            0 <= height,
    ;
    assert forall|x: int, y: int|
        0 <= x < width + 2 && 0 <= y < height + 2 && (x == 0 || y == 0 || x == width + 1 || y
            == height + 1) implies #[trigger] cell_at(cells, width + 2, x, y) == 0 by {
        lemma_labels_cell(pixels, width, height, x, y);
        assert(label_at(pixels, width, height, x, y) == 0);
    }
}

/// Every ring that the scan of a mask finds is closed, lies on the corner
/// grid of the image, has every side along a grid line and runs the way of
/// its kind: outlines enclose a positive area, holes a negative one.
pub proof fn lemma_traced_rings(pixels: Seq<bool>, width: int, height: int)
    requires
        0 <= width <= u32::MAX,
        0 <= height <= u32::MAX,
    ensures
        all_emitted(traced(pixels, width, height), width, height),
{
    lemma_labels_bordered(pixels, width, height);
    let start = Traced {
        cells: labels(pixels, width, height),
        outlines: Seq::empty(),
        holes: Seq::empty(),
        left_out: 0,
    };
    lemma_scan_keeps(start, width + 2, height + 2, 1);
}

/// Every polygon of every mask is well shaped: its rings are closed, lie on
/// the corner grid of the image and have every side along a grid line, its
/// exterior encloses a positive area,
/// each of its interior rings encloses a negative area and starts inside the
/// exterior, and every ring has the least dimension.
pub proof fn lemma_polygons_well_shaped(pixels: Seq<bool>, width: int, height: int, dim: int)
    requires
        0 <= width <= u32::MAX,
        0 <= height <= u32::MAX,
    ensures
        forall|k: int|
            0 <= k < polygons_of(pixels, width, height, dim).len() ==> well_shaped(
                #[trigger] polygons_of(pixels, width, height, dim)[k],
                width,
                height,
                dim,
            ),
{
    lemma_traced_rings(pixels, width, height);
    let t = traced(pixels, width, height);
    lemma_assembled_well_shaped(t, width, height, dim, t.outlines.len());
}

/// The order of the scan: by row from the top, and by column from the left
/// within a row.
pub open spec fn scanned_before(p: Point, q: Point) -> bool {
    p.y < q.y || (p.y == q.y && p.x < q.x)
}

/// Whether the ring starts at the top-left corner of a cell that the scan
/// meets before cell `(x, y)`.
pub open spec fn started_before(ring: Seq<Point>, x: int, y: int) -> bool {
    ring[0].y + 1 < y || (ring[0].y + 1 == y && ring[0].x + 1 < x)
}

/// Whether rings come in the order in which the scan meets their first
/// points.
pub open spec fn in_scan_order(rings: Seq<Seq<Point>>) -> bool {
    forall|i: int, j: int|
        0 <= i < j < rings.len() ==> scanned_before((#[trigger] rings[i])[0], (#[trigger] rings[j])[0])
}

/// Whether polygons come in the order in which the scan meets the first
/// points of their exteriors.
pub open spec fn polygons_in_scan_order(polygons: Seq<PolygonView>) -> bool {
    forall|i: int, j: int|
        0 <= i < j < polygons.len() ==> scanned_before(
            (#[trigger] polygons[i]).exterior[0],
            (#[trigger] polygons[j]).exterior[0],
        )
}

/// The closing moves of a walk leave the corners emitted before them in
/// place.
pub proof fn lemma_finish_keeps_first(
    cells: Seq<i8>,
    stride: int,
    kind: RingKind,
    w: Walker,
    ring: Seq<Point>,
)
    requires
        ring.len() >= 1,
    ensures
        finish(cells, stride, kind, w, ring).1 matches Some(points) ==> points.len() >= 1
            && points[0] == ring[0],
    decreases slack(cells),
{
    if (w.dir == 0 || w.dir == 2 || w.dir == 4 || w.dir == 6) && takes(
        cells,
        stride,
        kind,
        w,
        mark(kind, w.dir),
    ) {
        lemma_mark_sign(kind, w.dir, 0);
        lemma_marks_use_slack(cells, stride, kind, w, mark(kind, w.dir));
        if w.dir != final_dir(kind) {
            let next = turned(kind, w, 2);
            lemma_finish_keeps_first(
                marked(cells, stride, w, mark(kind, w.dir)),
                stride,
                kind,
                next,
                ring.push(corner(kind, next)),
            );
        }
    }
}

/// A walk leaves the corners emitted before it in place.
pub proof fn lemma_walk_keeps_first(
    cells: Seq<i8>,
    stride: int,
    kind: RingKind,
    sx: int,
    sy: int,
    w: Walker,
    ring: Seq<Point>,
)
    requires
        ring.len() >= 1,
    ensures
        walk(cells, stride, kind, sx, sy, w, ring).1 matches Some(points) ==> points.len() >= 1
            && points[0] == ring[0],
    decreases slack(cells),
{
    if w.dir == 0 || w.dir == 2 || w.dir == 4 || w.dir == 6 {
        match step(cells, stride, kind, w, ring) {
            None => {},
            Some(next) => {
                let rn = rule(cells, stride, kind, w);
                lemma_mark_sign(kind, w.dir, rn);
                lemma_marks_use_slack(cells, stride, kind, w, marks_of_move(kind, w.dir, rn));
                assert(next.ring.len() >= 1 && next.ring[0] == ring[0]);
                if next.walker.x == sx && next.walker.y == sy && next.walker.turns > 2 {
                    lemma_finish_keeps_first(next.cells, stride, kind, next.walker, next.ring);
                } else {
                    lemma_walk_keeps_first(
                        next.cells,
                        stride,
                        kind,
                        sx,
                        sy,
                        next.walker,
                        next.ring,
                    );
                }
            },
        }
    }
}

/// A ring starts where the corners of its walk start.
pub proof fn lemma_oriented_first(raw: Seq<Point>, kind: RingKind)
    requires
        raw.len() >= 1,
    ensures
        oriented(raw, kind) matches Some(ring) ==> ring[0] == raw[0],
{
    let ring = closed(raw);
    assert(ring[0] == raw[0]);
    assert(ring.last() == ring[0]);
    assert(ring.reverse()[0] == ring[ring.len() - 1]);
}

/// Looking at a cell keeps the outlines in the order of the scan.
pub proof fn lemma_visit_order(t: Traced, stride: int, x: int, y: int, ol: int, hl: int)
    requires
        in_scan_order(t.outlines),
        forall|i: int| 0 <= i < t.outlines.len() ==> started_before(#[trigger] t.outlines[i], x, y),
        1 <= x <= u32::MAX,
        1 <= y <= u32::MAX,
    ensures
        in_scan_order(visit(t, stride, x, y, ol, hl).outlines),
        forall|i: int|
            0 <= i < visit(t, stride, x, y, ol, hl).outlines.len() ==> started_before(
                #[trigger] visit(t, stride, x, y, ol, hl).outlines[i],
                x + 1,
                y,
            ),
{
    let after = visit(t, stride, x, y, ol, hl);
    match starts(t.cells, stride, x, y, ol, hl) {
        None => {},
        Some(kind) => {
            let start = Walker { x, y, dir: start_dir(kind), turns: 1 };
            lemma_walk_keeps_first(t.cells, stride, kind, x, y, start, seq![corner(kind, start)]);
            match trace(t.cells, stride, kind, x, y).1 {
                None => {},
                Some(points) => {
                    lemma_oriented_first(points, kind);
                    match (oriented(points, kind), kind) {
                        (Some(ring), RingKind::Outline) => {
                            assert(ring[0] == corner(kind, start));
                            assert(ring[0].x == x - 1 && ring[0].y == y - 1);
                            assert forall|i: int, j: int|
                                0 <= i < j < after.outlines.len() implies scanned_before(
                                (#[trigger] after.outlines[i])[0],
                                (#[trigger] after.outlines[j])[0],
                            ) by {
                                if j == t.outlines.len() {
                                    assert(started_before(t.outlines[i], x, y));
                                }
                            }
                            assert forall|i: int|
                                0 <= i < after.outlines.len() implies started_before(
                                #[trigger] after.outlines[i],
                                x + 1,
                                y,
                            ) by {
                                if i < t.outlines.len() {
                                    assert(started_before(t.outlines[i], x, y));
                                }
                            }
                        },
                        _ => {},
                    }
                },
            }
        },
    }
}

/// The scan of a row keeps the outlines in the order of the scan.
pub proof fn lemma_scan_row_order(t: Traced, stride: int, y: int, x: int, ol: int, hl: int)
    requires
        in_scan_order(t.outlines),
        forall|i: int| 0 <= i < t.outlines.len() ==> started_before(#[trigger] t.outlines[i], x, y),
        1 <= y <= u32::MAX,
        stride - 2 <= u32::MAX,
    ensures
        in_scan_order(scan_row(t, stride, y, x, ol, hl).outlines),
        forall|i: int|
            0 <= i < scan_row(t, stride, y, x, ol, hl).outlines.len() ==> started_before(
                #[trigger] scan_row(t, stride, y, x, ol, hl).outlines[i],
                1,
                y + 1,
            ),
    decreases stride - x,
{
    if 1 <= x < stride - 1 {
        lemma_visit_order(t, stride, x, y, ol, hl);
        let next = visit(t, stride, x, y, ol, hl);
        let here = cell_at(next.cells, stride, x, y);
        if here > 0 {
            lemma_scan_row_order(
                next,
                stride,
                y,
                x + 1,
                ol + depth_change(here),
                hl,
            );
        } else {
            lemma_scan_row_order(
                next,
                stride,
                y,
                x + 1,
                ol,
                hl + depth_change(here),
            );
        }
    } else {
        assert forall|i: int| 0 <= i < t.outlines.len() implies started_before(
            #[trigger] t.outlines[i],
            1,
            y + 1,
        ) by {
            assert(started_before(t.outlines[i], x, y));
        }
    }
}

/// The scan keeps the outlines in its order.
pub proof fn lemma_scan_order(t: Traced, stride: int, rows: int, y: int)
    requires
        in_scan_order(t.outlines),
        forall|i: int| 0 <= i < t.outlines.len() ==> started_before(#[trigger] t.outlines[i], 1, y),
        stride - 2 <= u32::MAX,
        rows - 2 <= u32::MAX,
    ensures
        in_scan_order(scan(t, stride, rows, y).outlines),
    decreases rows - y,
{
    if 1 <= y < rows - 1 {
        lemma_scan_row_order(t, stride, y, 1, 0, 0);
        lemma_scan_order(scan_row(t, stride, y, 1, 0, 0), stride, rows, y + 1);
    }
}

/// Whether `ring` is one of the first `n` outlines.
pub open spec fn is_outline(outlines: Seq<Seq<Point>>, n: nat, ring: Seq<Point>) -> bool {
    exists|i: int| 0 <= i < n && #[trigger] outlines[i] == ring
}

/// Every exterior of the polygons of the first `n` outlines is one of those
/// outlines, and the polygons keep the order of the outlines.
pub proof fn lemma_assembled_order(
    outlines: Seq<Seq<Point>>,
    holes: Seq<Seq<Point>>,
    dim: int,
    n: nat,
)
    requires
        in_scan_order(outlines),
        n <= outlines.len(),
    ensures
        polygons_in_scan_order(assembled(outlines, holes, dim, n)),
        forall|k: int|
            0 <= k < assembled(outlines, holes, dim, n).len() ==> is_outline(
                outlines,
                n,
                (#[trigger] assembled(outlines, holes, dim, n)[k]).exterior,
            ),
    decreases n,
{
    if n > 0 {
        lemma_assembled_order(outlines, holes, dim, (n - 1) as nat);
        let rest = assembled(outlines, holes, dim, (n - 1) as nat);
        let all = assembled(outlines, holes, dim, n);
        assert forall|k: int| 0 <= k < all.len() implies is_outline(
            outlines,
            n,
            (#[trigger] all[k]).exterior,
        ) by {
            if k < rest.len() {
                assert(is_outline(outlines, (n - 1) as nat, rest[k].exterior));
                let i = choose|i: int| 0 <= i < n - 1 && #[trigger] outlines[i] == rest[k].exterior;
                assert(outlines[i] == all[k].exterior);
            } else {
                assert(outlines[n - 1] == all[k].exterior);
            }
        }
        assert forall|i: int, j: int| 0 <= i < j < all.len() implies scanned_before(
            (#[trigger] all[i]).exterior[0],
            (#[trigger] all[j]).exterior[0],
        ) by {
            if j == rest.len() {
                assert(is_outline(outlines, (n - 1) as nat, rest[i].exterior));
                let a = choose|a: int| 0 <= a < n - 1 && #[trigger] outlines[a] == rest[i].exterior;
                assert(scanned_before(outlines[a][0], outlines[n - 1][0]));
            } else {
                assert(all[i] == rest[i] && all[j] == rest[j]);
            }
        }
    }
}

/// The polygons of every mask come in the order of the scan: by the row of
/// the first point of their exterior, and by its column within a row.
pub proof fn lemma_polygons_in_scan_order(pixels: Seq<bool>, width: int, height: int, dim: int)
    requires
        0 <= width <= u32::MAX,
        0 <= height <= u32::MAX,
    ensures
        polygons_in_scan_order(polygons_of(pixels, width, height, dim)),
{
    let start = Traced {
        cells: labels(pixels, width, height),
        outlines: Seq::empty(),
        holes: Seq::empty(),
        left_out: 0,
    };
    lemma_scan_order(start, width + 2, height + 2, 1);
    let t = traced(pixels, width, height);
    lemma_assembled_order(t.outlines, t.holes, dim, t.outlines.len());
}

/// Whether none of the four cells next to cell `(x, y)` is on the side of
/// the walk, so that the cell is a region of its own.
pub open spec fn stands_alone(cells: Seq<i8>, stride: int, kind: RingKind, x: int, y: int) -> bool {
    &&& !occupied(kind, cell_at(cells, stride, x, y - 1))
    &&& !occupied(kind, cell_at(cells, stride, x + 1, y))
    &&& !occupied(kind, cell_at(cells, stride, x, y + 1))
    &&& !occupied(kind, cell_at(cells, stride, x - 1, y))
}

/// The four corners of the pixel of cell `(x, y)`, from the top-left one:
/// the way of the clock for an outline, against it for a hole.
pub open spec fn pixel_corners(kind: RingKind, x: int, y: int) -> Seq<Point> {
    let top_left = Point { x: (x - 1) as u32, y: (y - 1) as u32 };
    let top_right = Point { x: x as u32, y: (y - 1) as u32 };
    let bottom_right = Point { x: x as u32, y: y as u32 };
    let bottom_left = Point { x: (x - 1) as u32, y: y as u32 };
    match kind {
        RingKind::Outline => seq![top_left, top_right, bottom_right, bottom_left],
        RingKind::Hole => seq![top_left, bottom_left, bottom_right, top_right],
    }
}

/// The label of a cell that was passed in all four directions.
pub open spec fn full_label(kind: RingKind) -> i8 {
    match kind {
        RingKind::Outline => 16i8,
        RingKind::Hole => -16i8,
    }
}

/// The walk round a region of one pixel emits the four corners of the pixel,
/// and leaves the cell passed in all four directions and every other cell as
/// it was.
pub proof fn lemma_lone_pixel(cells: Seq<i8>, stride: int, rows: int, kind: RingKind, x: int, y: int)
    requires
        bordered(cells, stride, rows),
        1 <= x <= stride - 2,
        1 <= y <= rows - 2,
        stride - 2 <= u32::MAX,
        rows - 2 <= u32::MAX,
        cell_at(cells, stride, x, y) == match kind {
            RingKind::Outline => 1i8,
            RingKind::Hole => -1i8,
        },
        stands_alone(cells, stride, kind, x, y),
    ensures
        trace(cells, stride, kind, x, y) == (
            cells.update(y * stride + x, full_label(kind)),
            Some(pixel_corners(kind, x, y)),
        ),
{
    lemma_cell_index(stride, rows, x, y);
    let d0 = start_dir(kind);
    let d1 = facing(kind, d0, 2);
    let d2 = facing(kind, d1, 2);
    let d3 = facing(kind, d2, 2);
    let w0 = Walker { x, y, dir: d0, turns: 1 };
    let w1 = Walker { x, y, dir: d1, turns: 2 };
    let w2 = Walker { x, y, dir: d2, turns: 3 };
    let w3 = Walker { x, y, dir: d3, turns: 3 };
    let r0 = seq![corner(kind, w0)];
    let r1 = r0.push(corner(kind, w1));
    let r2 = r1.push(corner(kind, w2));
    let r3 = r2.push(corner(kind, w3));
    let c0 = cells;
    let c1 = marked(c0, stride, w0, mark(kind, d0));
    let c2 = marked(c1, stride, w1, mark(kind, d1));
    let c3 = marked(c2, stride, w2, mark(kind, d2));
    let c4 = marked(c3, stride, w3, mark(kind, d3));
    lemma_marked_inside(c0, stride, rows, w0, mark(kind, d0));
    lemma_marked_inside(c1, stride, rows, w1, mark(kind, d1));
    lemma_marked_inside(c2, stride, rows, w2, mark(kind, d2));
    lemma_marked_inside(c3, stride, rows, w3, mark(kind, d3));
    assert(0u8 & 2u8 == 0 && 2u8 & 4u8 == 0 && 6u8 & 8u8 == 0 && 14u8 & 1u8 == 0) by (bit_vector);
    assert(0u8 & 1u8 == 0 && 1u8 & 8u8 == 0 && 9u8 & 4u8 == 0 && 13u8 & 2u8 == 0) by (bit_vector);
    assert(takes(c0, stride, kind, w0, mark(kind, d0)));
    assert(takes(c1, stride, kind, w1, mark(kind, d1)));
    assert(takes(c2, stride, kind, w2, mark(kind, d2)));
    assert(takes(c3, stride, kind, w3, mark(kind, d3)));
    assert(stands_alone(c1, stride, kind, x, y));
    assert(stands_alone(c2, stride, kind, x, y));
    assert(rule(c0, stride, kind, w0) == 0);
    assert(rule(c1, stride, kind, w1) == 0);
    assert(step(c0, stride, kind, w0, r0) == Some(Stepped { cells: c1, walker: w1, ring: r1 }));
    assert(step(c1, stride, kind, w1, r1) == Some(Stepped { cells: c2, walker: w2, ring: r2 }));
    assert(walk(c0, stride, kind, x, y, w0, r0) == walk(c1, stride, kind, x, y, w1, r1));
    assert(walk(c1, stride, kind, x, y, w1, r1) == finish(c2, stride, kind, w2, r2));
    assert(finish(c2, stride, kind, w2, r2) == finish(c3, stride, kind, w3, r3));
    assert(finish(c3, stride, kind, w3, r3) == (c4, Some(r3)));
    assert(r3 =~= pixel_corners(kind, x, y));
    assert(c4 =~= cells.update(y * stride + x, full_label(kind)));
}

/// The square round the one pixel of a mask of one pixel.
pub open spec fn unit_square() -> Seq<Point> {
    seq![
        Point { x: 0, y: 0 },
        Point { x: 1, y: 0 },
        Point { x: 1, y: 1 },
        Point { x: 0, y: 1 },
        Point { x: 0, y: 0 },
    ]
}

/// A mask of one foreground pixel has one polygon, the square round the
/// pixel, without holes; it has none where the least dimension is more than
/// the one pixel. No walk is left out.
pub proof fn lemma_one_pixel_mask(dim: int)
    ensures
        polygons_of(seq![true], 1, 1, dim) == if dim <= 1 {
            seq![PolygonView { exterior: unit_square(), interiors: Seq::empty() }]
        } else {
            Seq::<PolygonView>::empty()
        },
        traced(seq![true], 1, 1).left_out == 0,
{
    let pixels = seq![true];
    let cells = labels(pixels, 1, 1);
    lemma_labels_bordered(pixels, 1, 1);
    lemma_labels_cell(pixels, 1, 1, 1, 1);
    lemma_labels_cell(pixels, 1, 1, 1, 0);
    lemma_labels_cell(pixels, 1, 1, 2, 1);
    lemma_labels_cell(pixels, 1, 1, 1, 2);
    lemma_labels_cell(pixels, 1, 1, 0, 1);
    assert(cell_at(cells, 3, 1, 1) == 1);
    lemma_lone_pixel(cells, 3, 3, RingKind::Outline, 1, 1);
    let start = Traced { cells, outlines: Seq::empty(), holes: Seq::empty(), left_out: 0 };
    let corners = pixel_corners(RingKind::Outline, 1, 1);
    let square = unit_square();
    assert(closed(corners) =~= square);
    assert(twice_area(square) == 2) by {
        assert(square[0] == Point { x: 0, y: 0 } && square[1] == Point { x: 1, y: 0 });
        assert(square[2] == Point { x: 1, y: 1 } && square[3] == Point { x: 0, y: 1 });
        assert(square[4] == Point { x: 0, y: 0 });
        let (p0, p1, p2, p3, p4) = (square[0], square[1], square[2], square[3], square[4]);
        assert(p0.x * p1.y - p1.x * p0.y == 0) by (nonlinear_arith)
            requires
                p0.x == 0 && p0.y == 0 && p1.x == 1 && p1.y == 0,
        ;
        assert(p1.x * p2.y - p2.x * p1.y == 1) by (nonlinear_arith)
            requires
                p1.x == 1 && p1.y == 0 && p2.x == 1 && p2.y == 1,
        ;
        assert(p2.x * p3.y - p3.x * p2.y == 1) by (nonlinear_arith)
            requires
                p2.x == 1 && p2.y == 1 && p3.x == 0 && p3.y == 1,
        ;
        assert(p3.x * p4.y - p4.x * p3.y == 0) by (nonlinear_arith)
            requires
                p3.x == 0 && p3.y == 1 && p4.x == 0 && p4.y == 0,
        ;
        assert(cross(square[0], square[1]) == 0);
        assert(cross(square[1], square[2]) == 1);
        assert(cross(square[2], square[3]) == 1);
        assert(cross(square[3], square[4]) == 0);
        assert(shoelace(square, 0) == 0);
        assert(shoelace(square, 1) == shoelace(square, 0) + cross(square[0], square[1]));
        assert(shoelace(square, 2) == shoelace(square, 1) + cross(square[1], square[2]));
        assert(shoelace(square, 3) == shoelace(square, 2) + cross(square[2], square[3]));
        assert(shoelace(square, 4) == shoelace(square, 3) + cross(square[3], square[4]));
    }
    assert(oriented(corners, RingKind::Outline) == Some(square));
    assert(starts(cells, 3, 1, 1, 0, 0) == Some(RingKind::Outline));
    let marked_cells = cells.update(4int, full_label(RingKind::Outline));
    let found = Traced {
        cells: marked_cells,
        outlines: seq![square],
        holes: Seq::empty(),
        left_out: 0,
    };
    assert(visit(start, 3, 1, 1, 0, 0) == found) by {
        assert(start.outlines.push(square) =~= seq![square]);
    }
    assert(cell_at(marked_cells, 3, 1, 1) == 16);
    assert(scan_row(start, 3, 1, 1, 0, 0) == found) by {
        reveal_with_fuel(scan_row, 3);
    }
    assert(traced(pixels, 1, 1) == found) by {
        reveal_with_fuel(scan, 3);
    }
    assert(attached(found.outlines, found.holes, 0, dim, 0)
        =~= Seq::<Seq<Point>>::empty());
    if dim <= 1 {
        assert(square[2].x - square[0].x >= dim && square[2].y - square[0].y >= dim);
        assert(spans(square, dim));
    } else {
        assert(!spans(square, dim));
    }
    assert(assembled(found.outlines, found.holes, dim, 0) =~= Seq::<PolygonView>::empty());
    assert(polygons_of(pixels, 1, 1, dim) =~= if dim <= 1 {
        seq![PolygonView { exterior: square, interiors: Seq::empty() }]
    } else {
        Seq::<PolygonView>::empty()
    }) by {
        reveal_with_fuel(assembled, 3);
    }
}

/// Masks with the same pixels have the same polygons: the same rings at the
/// same places, each from the same first point in the same order.
pub proof fn lemma_same_mask_same_polygons(
    first: Seq<bool>,
    second: Seq<bool>,
    width: int,
    height: int,
    dim: int,
)
    requires
        first.len() == second.len(),
        forall|i: int| 0 <= i < first.len() ==> first[i] == second[i],
    ensures
        polygons_of(first, width, height, dim) == polygons_of(second, width, height, dim),
        traced(first, width, height) == traced(second, width, height),
{
    assert(first =~= second);
}

} // verus!
