//! The walk along one boundary.
//!
//! A walker stands on a cell of its side of the boundary and faces up,
//! right, down or left, with the boundary on its outer side: an outline is
//! walked on foreground cells with the background on the left, a hole on
//! background cells with the foreground on the right. Each move looks at the
//! Moore neighbourhood of the cell, leaves a mark in the cell for the
//! direction faced, and goes on to a neighbour or turns on the spot; every
//! turn emits a pixel corner.
//!
//! A walk always ends: every move leaves a mark, and a cell takes each of the
//! four marks of the four directions once. A walk that would pass a cell a
//! second time in the same direction is given up.
use crate::contour::grid::{bordered, cell_at, label, lemma_cell_index, lemma_cells_apart};
use crate::geometry::Point;
use vstd::prelude::*;

verus! {

/// The Moore neighbourhood, clockwise from the cell above: the column
/// offset of neighbour `k`.
pub const MN_X: [i8; 8] = [0, 1, 1, 1, 0, -1, -1, -1];

/// The Moore neighbourhood, clockwise from the cell above: the row offset of
/// neighbour `k`.
pub const MN_Y: [i8; 8] = [-1, -1, 0, 1, 1, 1, 0, -1];

/// Outlines: the column offset from a cell to the corner emitted when the
/// walk faces direction `d`. A cell of the bordered grid is one column to
/// the right of its pixel, so offset -1 is the left-hand side of the pixel
/// and offset 0 its right-hand side. Facing up the walk emits the bottom-left
/// corner of its cell, facing right the top-left, facing down the top-right
/// and facing left the bottom-right: the corner behind it on its outer side.
pub const O_VERTEX_X: [i8; 7] = [-1, 0, -1, 0, 0, 0, 0];

/// Outlines: the row offset from a cell to the corner emitted when the walk
/// faces direction `d`; offset -1 is the top of the pixel and offset 0 its
/// bottom.
pub const O_VERTEX_Y: [i8; 7] = [0, 0, -1, 0, -1, 0, 0];

/// Holes: the column offset to the emitted corner, by direction. Facing up
/// the walk emits the bottom-right corner of its cell, facing right the
/// bottom-left, facing down the top-left and facing left the top-right.
pub const H_VERTEX_X: [i8; 7] = [0, 0, -1, 0, -1, 0, 0];

/// Holes: the row offset to the emitted corner, by direction.
pub const H_VERTEX_Y: [i8; 7] = [0, 0, 0, 0, -1, 0, -1];

/// Outlines: the mark added to the label of a foreground cell that the walk
/// passes while facing direction `d`. The four marks are the four bits of a
/// number below sixteen, so a label of `1 + marks` tells in which directions
/// a cell was passed. A cell passed facing up has the boundary on its left,
/// one passed facing down has it on its right.
pub const O_VALUE: [i8; 7] = [1, 0, 2, 0, 4, 0, 8];

/// Holes: the mark added to the label of a background cell, by direction.
/// The marks are those of the outlines, negative and given to the opposite
/// direction, so that the same labels, without their sign, tell on which
/// side of a cell the boundary is.
pub const H_VALUE: [i8; 7] = [-4, 0, -8, 0, -1, 0, -2];

/// Which side of a boundary a walk follows.
#[derive(Clone, Copy, Debug, PartialEq, Eq, Structural)]
pub enum RingKind {
    /// The outer boundary of a foreground region, walked on foreground cells.
    Outline,
    /// The boundary of a hole, walked on background cells.
    Hole,
}

/// Where a walk stands: its cell in the bordered grid, the direction it
/// faces (0, 2, 4 or 6: up, right, down, left) and how many turns it has
/// made, counted up to three.
pub struct Walker {
    pub x: int,
    pub y: int,
    pub dir: int,
    pub turns: int,
}

/// The direction `i` eighth-turns ahead of `dir`: clockwise for an outline,
/// counter-clockwise for a hole.
pub open spec fn facing(kind: RingKind, dir: int, i: int) -> int {
    match kind {
        RingKind::Outline => (dir + i) % 8,
        RingKind::Hole => (dir - i) % 8,
    }
}

/// The direction a walk starts in.
pub open spec fn start_dir(kind: RingKind) -> int {
    match kind {
        RingKind::Outline => 2,
        RingKind::Hole => 4,
    }
}

/// The direction in which a walk, back at its first cell, is complete.
pub open spec fn final_dir(kind: RingKind) -> int {
    match kind {
        RingKind::Outline => 0,
        RingKind::Hole => 6,
    }
}

/// The mark that a walk facing `dir` leaves in its cell.
pub open spec fn mark(kind: RingKind, dir: int) -> int {
    match kind {
        RingKind::Outline => O_VALUE[dir] as int,
        RingKind::Hole => H_VALUE[dir] as int,
    }
}

/// The corner that a walker emits for the cell and direction it is in.
pub open spec fn corner(kind: RingKind, w: Walker) -> Point {
    match kind {
        RingKind::Outline => Point {
            x: (w.x + O_VERTEX_X[w.dir]) as u32,
            y: (w.y + O_VERTEX_Y[w.dir]) as u32,
        },
        RingKind::Hole => Point {
            x: (w.x + H_VERTEX_X[w.dir]) as u32,
            y: (w.y + H_VERTEX_Y[w.dir]) as u32,
        },
    }
}

/// Whether a label belongs to the side that the walk runs on.
pub open spec fn occupied(kind: RingKind, label: i8) -> bool {
    match kind {
        RingKind::Outline => label > 0,
        RingKind::Hole => label < 0,
    }
}

/// Whether the neighbour `i` eighth-turns ahead of the walker is on the
/// walk's side.
pub open spec fn sees(cells: Seq<i8>, stride: int, kind: RingKind, w: Walker, i: int) -> bool {
    let k = facing(kind, w.dir, i);
    occupied(kind, cell_at(cells, stride, w.x + MN_X[k], w.y + MN_Y[k]))
}

/// The move a walker makes next, decided by the neighbours ahead of it.
///
/// 1. The cell ahead and the cell diagonally ahead on the outer side are
///    both on the walk's side: the boundary bends outward, and the walker
///    goes to the diagonal cell and turns a quarter outward.
/// 2. Only the cell ahead is: the walker goes straight on.
/// 3. The cell ahead is not, but the cell on the inner side and the cell
///    diagonally ahead on the inner side are: the boundary rounds the front
///    of the cell, and the walker goes to the diagonal cell, facing as before.
/// 0. Otherwise the walker turns a quarter inward on the spot.
pub open spec fn rule(cells: Seq<i8>, stride: int, kind: RingKind, w: Walker) -> int {
    if sees(cells, stride, kind, w, -1) && sees(cells, stride, kind, w, 0) {
        1
    } else if sees(cells, stride, kind, w, 0) {
        2
    } else if sees(cells, stride, kind, w, 1) && sees(cells, stride, kind, w, 2) {
        3
    } else {
        0
    }
}

/// The walker moved onto its neighbour `i` eighth-turns ahead.
pub open spec fn moved(kind: RingKind, w: Walker, i: int) -> Walker {
    let k = facing(kind, w.dir, i);
    Walker { x: w.x + MN_X[k], y: w.y + MN_Y[k], ..w }
}

/// The walker turned by `i` eighth-turns, which counts as a turn.
pub open spec fn turned(kind: RingKind, w: Walker, i: int) -> Walker {
    Walker {
        dir: facing(kind, w.dir, i),
        turns: if w.turns < 3 {
            w.turns + 1
        } else {
            3
        },
        ..w
    }
}

/// The marks that one move leaves in the walker's cell: the mark of its
/// direction and, around a concave corner, that of the next direction too.
pub open spec fn marks_of_move(kind: RingKind, dir: int, rn: int) -> int {
    if rn == 3 {
        mark(kind, dir) + mark(kind, facing(kind, dir, 2))
    } else {
        mark(kind, dir)
    }
}

/// The marks that a label holds, as the bits of a number below sixteen: what
/// the label is above one, without its sign.
pub open spec fn held(label: i8) -> u8 {
    if label > 0 {
        (label - 1) as u8
    } else if label < 0 {
        (-label - 1) as u8
    } else {
        0
    }
}

/// The marks of a move as bits, without their sign.
pub open spec fn bits(marks: int) -> u8 {
    if marks < 0 {
        (-marks) as u8
    } else {
        marks as u8
    }
}

/// Whether the walker's cell can take `marks`: the walker stands on the grid,
/// on a cell of its side, and the cell holds none of the marks yet, that is,
/// it was not passed before in a direction of this move.
pub open spec fn takes(cells: Seq<i8>, stride: int, kind: RingKind, w: Walker, marks: int) -> bool {
    &&& 0 <= w.y * stride + w.x < cells.len()
    &&& occupied(kind, cell_at(cells, stride, w.x, w.y))
    &&& -16 <= cell_at(cells, stride, w.x, w.y) <= 16
    &&& held(cell_at(cells, stride, w.x, w.y)) & bits(marks) == 0
}

/// A label that holds none of the marks of a move stays, with them, within
/// the sixteen values that four marks can make.
pub proof fn lemma_fresh_marks_fit(kind: RingKind, label: i8, marks: int)
    requires
        occupied(kind, label),
        -16 <= label <= 16,
        held(label) & bits(marks) == 0,
        match kind {
            RingKind::Outline => 1 <= marks <= 15,
            RingKind::Hole => -15 <= marks <= -1,
        },
    ensures
        match kind {
            RingKind::Outline => label < label + marks <= 16,
            RingKind::Hole => -16 <= label + marks < label,
        },
{
    let a = held(label);
    let m = bits(marks);
    assert(a & m == 0 && a <= 15 && m <= 15 ==> a + m <= 15) by (bit_vector);
}

/// The grid after `marks` were added to the walker's cell.
pub open spec fn marked(cells: Seq<i8>, stride: int, w: Walker, marks: int) -> Seq<i8> {
    cells.update(w.y * stride + w.x, (cell_at(cells, stride, w.x, w.y) + marks) as i8)
}

/// The state of a walk after one move: the grid, the walker and the corners
/// emitted so far.
pub struct Stepped {
    pub cells: Seq<i8>,
    pub walker: Walker,
    pub ring: Seq<Point>,
}

/// One move of a walk, or `None` where the walker's cell cannot take the
/// marks of the move. Every move but the one straight on emits the corner of
/// the state it leads to; the move round the front of a cell emits the corner
/// of the quarter turn before it.
pub open spec fn step(
    cells: Seq<i8>,
    stride: int,
    kind: RingKind,
    w: Walker,
    ring: Seq<Point>,
) -> Option<Stepped> {
    let rn = rule(cells, stride, kind, w);
    let marks = marks_of_move(kind, w.dir, rn);
    if !takes(cells, stride, kind, w, marks) {
        None
    } else {
        let cells = marked(cells, stride, w, marks);
        if rn == 1 {
            let next = turned(kind, moved(kind, w, -1), -2);
            Some(Stepped { cells, walker: next, ring: ring.push(corner(kind, next)) })
        } else if rn == 2 {
            Some(Stepped { cells, walker: moved(kind, w, 0), ring })
        } else if rn == 3 {
            let at_corner = Walker { dir: facing(kind, w.dir, 2), ..w };
            let next = Walker { turns: 3, ..moved(kind, w, 1) };
            Some(
                Stepped {
                    cells,
                    walker: next,
                    ring: ring.push(corner(kind, at_corner)).push(corner(kind, next)),
                },
            )
        } else {
            let next = turned(kind, w, 2);
            Some(Stepped { cells, walker: next, ring: ring.push(corner(kind, next)) })
        }
    }
}

/// How many more marks a label can take.
pub open spec fn room(label: i8) -> nat {
    if 0 <= label <= 16 {
        (16 - label) as nat
    } else if -16 <= label < 0 {
        (16 + label) as nat
    } else {
        0
    }
}

/// How many more marks a whole grid can take: what bounds every walk.
pub open spec fn slack(cells: Seq<i8>) -> nat
    decreases cells.len(),
{
    if cells.len() == 0 {
        0
    } else {
        slack(cells.drop_last()) + room(cells.last())
    }
}

/// Changing one label changes the slack by the change of its room.
pub proof fn lemma_slack_update(cells: Seq<i8>, i: int, label: i8)
    requires
        0 <= i < cells.len(),
    ensures
        slack(cells.update(i, label)) == slack(cells) - room(cells[i]) + room(label),
    decreases cells.len(),
{
    let after = cells.update(i, label);
    if i == cells.len() - 1 {
        assert(after.drop_last() =~= cells.drop_last());
    } else {
        assert(after.drop_last() =~= cells.drop_last().update(i, label));
        lemma_slack_update(cells.drop_last(), i, label);
    }
}

/// A move that the cell takes uses up slack.
pub proof fn lemma_marks_use_slack(cells: Seq<i8>, stride: int, kind: RingKind, w: Walker, marks: int)
    requires
        takes(cells, stride, kind, w, marks),
        match kind {
            RingKind::Outline => 1 <= marks <= 15,
            RingKind::Hole => -15 <= marks <= -1,
        },
    ensures
        slack(marked(cells, stride, w, marks)) < slack(cells),
        -16 <= cell_at(cells, stride, w.x, w.y) + marks <= 16,
{
    lemma_fresh_marks_fit(kind, cell_at(cells, stride, w.x, w.y), marks);
    lemma_slack_update(
        cells,
        w.y * stride + w.x,
        (cell_at(cells, stride, w.x, w.y) + marks) as i8,
    );
}

/// A quarter turn keeps to the four directions, and every mark has the sign
/// of its side.
pub proof fn lemma_mark_sign(kind: RingKind, dir: int, rn: int)
    requires
        dir == 0 || dir == 2 || dir == 4 || dir == 6,
    ensures
        facing(kind, dir, 2) == 0 || facing(kind, dir, 2) == 2 || facing(kind, dir, 2) == 4
            || facing(kind, dir, 2) == 6,
        facing(kind, dir, -2) == 0 || facing(kind, dir, -2) == 2 || facing(kind, dir, -2) == 4
            || facing(kind, dir, -2) == 6,
        match kind {
            RingKind::Outline => 1 <= marks_of_move(kind, dir, rn) <= 12,
            RingKind::Hole => -12 <= marks_of_move(kind, dir, rn) <= -1,
        },
{
}

/// The closing moves of a walk that is back at its first cell: the walker
/// turns on the spot, marking and emitting a corner each time, until it faces
/// the final direction. `None` where the cell cannot take a mark.
pub open spec fn finish(
    cells: Seq<i8>,
    stride: int,
    kind: RingKind,
    w: Walker,
    ring: Seq<Point>,
) -> (Seq<i8>, Option<Seq<Point>>)
    decreases slack(cells),
{
    if !(w.dir == 0 || w.dir == 2 || w.dir == 4 || w.dir == 6) || !takes(
        cells,
        stride,
        kind,
        w,
        mark(kind, w.dir),
    ) {
        (cells, None)
    } else {
        proof {
            lemma_mark_sign(kind, w.dir, 0);
            lemma_marks_use_slack(cells, stride, kind, w, mark(kind, w.dir));
        }
        let cells = marked(cells, stride, w, mark(kind, w.dir));
        if w.dir == final_dir(kind) {
            (cells, Some(ring))
        } else {
            let w = turned(kind, w, 2);
            finish(cells, stride, kind, w, ring.push(corner(kind, w)))
        }
    }
}

/// A walk from the state it is in to its end: the grid it leaves and the
/// corners it emitted, or `None` where a cell could not take a mark. The
/// walk ends when it is back at the cell `(sx, sy)` after at least two turns;
/// the corner of the move that brings it there is emitted like any other.
pub open spec fn walk(
    cells: Seq<i8>,
    stride: int,
    kind: RingKind,
    sx: int,
    sy: int,
    w: Walker,
    ring: Seq<Point>,
) -> (Seq<i8>, Option<Seq<Point>>)
    decreases slack(cells),
{
    if !(w.dir == 0 || w.dir == 2 || w.dir == 4 || w.dir == 6) {
        (cells, None)
    } else {
        match step(cells, stride, kind, w, ring) {
            None => (cells, None),
            Some(next) => {
                proof {
                    let rn = rule(cells, stride, kind, w);
                    lemma_mark_sign(kind, w.dir, rn);
                    lemma_marks_use_slack(cells, stride, kind, w, marks_of_move(kind, w.dir, rn));
                }
                if next.walker.x == sx && next.walker.y == sy && next.walker.turns > 2 {
                    finish(next.cells, stride, kind, next.walker, next.ring)
                } else {
                    walk(next.cells, stride, kind, sx, sy, next.walker, next.ring)
                }
            },
        }
    }
}

/// The ring that starts at cell `(sx, sy)`: the grid after the walk and the
/// corners emitted, the first corner not repeated at the end.
pub open spec fn trace(cells: Seq<i8>, stride: int, kind: RingKind, sx: int, sy: int) -> (
    Seq<i8>,
    Option<Seq<Point>>,
) {
    let w = Walker { x: sx, y: sy, dir: start_dir(kind), turns: 1 };
    walk(cells, stride, kind, sx, sy, w, seq![corner(kind, w)])
}

/// A walker in machine integers.
#[derive(Clone, Copy)]
struct Pace {
    x: usize,
    y: usize,
    dir: usize,
    turns: u8,
}

impl View for Pace {
    type V = Walker;

    closed spec fn view(&self) -> Walker {
        Walker { x: self.x as int, y: self.y as int, dir: self.dir as int, turns: self.turns as int }
    }
}

/// A walker that stands inside the border, faces one of the four directions
/// and has counted its turns from one up to three.
pub open spec fn inside(w: Walker, stride: int, rows: int) -> bool {
    &&& 1 <= w.x <= stride - 2
    &&& 1 <= w.y <= rows - 2
    &&& (w.dir == 0 || w.dir == 2 || w.dir == 4 || w.dir == 6)
    &&& 1 <= w.turns <= 3
}

/// The points of a ring that may be missing.
pub open spec fn points_of(ring: Option<Vec<Point>>) -> Option<Seq<Point>> {
    match ring {
        Some(points) => Some(points@),
        None => None,
    }
}

/// Every point lies on the corner grid of a `width` by `height` image.
pub open spec fn on_grid(points: Seq<Point>, width: int, height: int) -> bool {
    forall|i: int| 0 <= i < points.len() ==> (#[trigger] points[i]).x <= width && points[i].y <= height
}

/// Marking a cell inside the border leaves the border clear and every other
/// cell as it was.
pub proof fn lemma_marked_inside(cells: Seq<i8>, stride: int, rows: int, w: Walker, marks: int)
    requires
        bordered(cells, stride, rows),
        1 <= w.x <= stride - 2,
        1 <= w.y <= rows - 2,
    ensures
        bordered(marked(cells, stride, w, marks), stride, rows),
        forall|x: int, y: int|
            0 <= x < stride && 0 <= y < rows && (x != w.x || y != w.y) ==> #[trigger] cell_at(
                marked(cells, stride, w, marks),
                stride,
                x,
                y,
            ) == cell_at(cells, stride, x, y),
        cell_at(marked(cells, stride, w, marks), stride, w.x, w.y) == (cell_at(
            cells,
            stride,
            w.x,
            w.y,
        ) + marks) as i8,
{
    lemma_cell_index(stride, rows, w.x, w.y);
    let after = marked(cells, stride, w, marks);
    assert forall|x: int, y: int|
        0 <= x < stride && 0 <= y < rows && (x != w.x || y != w.y) implies #[trigger] cell_at(
        after,
        stride,
        x,
        y,
    ) == cell_at(cells, stride, x, y) by {
        lemma_cell_index(stride, rows, x, y);
        lemma_cells_apart(stride, w.x, w.y, x, y);
    }
}

/// `x` moved by an offset of at most one.
fn shifted(x: usize, offset: i8) -> (moved: usize)
    requires
        -1 <= offset <= 1,
        1 <= x < usize::MAX,
    ensures
        moved == x + offset,
{
    if offset < 0 {
        x - 1
    } else if offset > 0 {
        x + 1
    } else {
        x
    }
}

/// The direction `i` eighth-turns ahead of `dir`.
fn turn(kind: RingKind, dir: usize, i: i8) -> (facing_dir: usize)
    requires
        dir < 8,
        -2 <= i <= 2,
    ensures
        facing_dir == facing(kind, dir as int, i as int),
        facing_dir < 8,
        dir % 2 == 0 && i % 2 == 0 ==> facing_dir % 2 == 0,
{
    let ahead: usize = match kind {
        RingKind::Outline => (8 + i) as usize,
        RingKind::Hole => (8 - i) as usize,
    };
    (dir + ahead) % 8
}

/// The mark of a direction, from the tables.
fn mark_value(kind: RingKind, dir: usize) -> (value: i8)
    requires
        dir == 0 || dir == 2 || dir == 4 || dir == 6,
    ensures
        value == mark(kind, dir as int),
        match kind {
            RingKind::Outline => 1 <= value <= 8,
            RingKind::Hole => -8 <= value <= -1,
        },
{
    match kind {
        RingKind::Outline => O_VALUE[dir],
        RingKind::Hole => H_VALUE[dir],
    }
}

/// The corner emitted by a walker, from the tables.
fn corner_of(kind: RingKind, w: Pace, stride: usize, rows: usize) -> (p: Point)
    requires
        inside(w@, stride as int, rows as int),
        stride - 2 <= u32::MAX,
        rows - 2 <= u32::MAX,
    ensures
        p == corner(kind, w@),
        p.x <= stride - 2,
        p.y <= rows - 2,
{
    let (dx, dy) = match kind {
        RingKind::Outline => (O_VERTEX_X[w.dir], O_VERTEX_Y[w.dir]),
        RingKind::Hole => (H_VERTEX_X[w.dir], H_VERTEX_Y[w.dir]),
    };
    Point { x: shifted(w.x, dx) as u32, y: shifted(w.y, dy) as u32 }
}

/// Whether the neighbour `i` eighth-turns ahead is on the walk's side.
fn looks(
    cells: &Vec<i8>,
    stride: usize,
    rows: usize,
    kind: RingKind,
    w: Pace,
    i: i8,
) -> (seen: bool)
    requires
        bordered(cells@, stride as int, rows as int),
        inside(w@, stride as int, rows as int),
        -2 <= i <= 2,
    ensures
        seen == sees(cells@, stride as int, kind, w@, i as int),
{
    let k = turn(kind, w.dir, i);
    let value = label(cells, stride, rows, shifted(w.x, MN_X[k]), shifted(w.y, MN_Y[k]));
    match kind {
        RingKind::Outline => value > 0,
        RingKind::Hole => value < 0,
    }
}

/// Whether a cell with the label `here` can take the marks of a move, and
/// with them the label it then has.
fn marked_label(kind: RingKind, here: i8, marks: i8) -> (label: Option<i8>)
    requires
        match kind {
            RingKind::Outline => 1 <= marks <= 15,
            RingKind::Hole => -15 <= marks <= -1,
        },
    ensures
        label is Some <==> occupied(kind, here) && -16 <= here <= 16 && held(here) & bits(
            marks as int,
        ) == 0,
        label matches Some(sum) ==> sum == here + marks && -16 <= sum <= 16,
{
    let on_side = match kind {
        RingKind::Outline => here > 0,
        RingKind::Hole => here < 0,
    };
    if !on_side || here < -16 || here > 16 {
        return None;
    }
    let holds: u8 = if here > 0 {
        (here - 1) as u8
    } else {
        (-here - 1) as u8
    };
    let adds: u8 = if marks < 0 {
        (-marks) as u8
    } else {
        marks as u8
    };
    if holds & adds != 0 {
        return None;
    }
    proof {
        lemma_fresh_marks_fit(kind, here, marks as int);
    }
    Some(here + marks)
}

/// The walker moved onto its neighbour `i` eighth-turns ahead, which the
/// walk saw to be on its side in the grid `before` its cell was marked.
fn step_to(
    stride: usize,
    rows: usize,
    kind: RingKind,
    w: Pace,
    i: i8,
    Ghost(before): Ghost<Seq<i8>>,
) -> (next: Pace)
    requires
        bordered(before, stride as int, rows as int),
        inside(w@, stride as int, rows as int),
        -2 <= i <= 2,
        sees(before, stride as int, kind, w@, i as int),
    ensures
        next@ == moved(kind, w@, i as int),
        inside(next@, stride as int, rows as int),
{
    let k = turn(kind, w.dir, i);
    let next = Pace { x: shifted(w.x, MN_X[k]), y: shifted(w.y, MN_Y[k]), ..w };
    assert(cell_at(before, stride as int, next.x as int, next.y as int) != 0);
    next
}

/// The walker turned by `i` eighth-turns.
fn turn_by(kind: RingKind, w: Pace, i: i8, Ghost(stride): Ghost<int>, Ghost(rows): Ghost<int>) -> (next:
    Pace)
    requires
        inside(w@, stride, rows),
        i == 2 || i == -2,
    ensures
        next@ == turned(kind, w@, i as int),
        inside(next@, stride, rows),
{
    Pace {
        dir: turn(kind, w.dir, i),
        turns: if w.turns < 3 {
            w.turns + 1
        } else {
            3
        },
        ..w
    }
}

/// Makes one move of a walk: marks the walker's cell, moves or turns the
/// walker and emits the corners of the move. Nothing changes where the cell
/// cannot take the marks.
fn advance(
    cells: &mut Vec<i8>,
    stride: usize,
    rows: usize,
    kind: RingKind,
    w: Pace,
    ring: &mut Vec<Point>,
) -> (next: Option<Pace>)
    requires
        bordered(old(cells)@, stride as int, rows as int),
        inside(w@, stride as int, rows as int),
        stride - 2 <= u32::MAX,
        rows - 2 <= u32::MAX,
    ensures
        match step(old(cells)@, stride as int, kind, w@, old(ring)@) {
            None => next is None && final(cells)@ == old(cells)@ && final(ring)@ == old(ring)@,
            Some(stepped) => {
                &&& next matches Some(pace)
                &&& pace@ == stepped.walker
                &&& final(cells)@ == stepped.cells
                &&& final(ring)@ == stepped.ring
                &&& inside(stepped.walker, stride as int, rows as int)
                &&& bordered(stepped.cells, stride as int, rows as int)
                &&& slack(stepped.cells) < slack(old(cells)@)
            },
        },
{
    let back = looks(cells, stride, rows, kind, w, -1);
    let front = looks(cells, stride, rows, kind, w, 0);
    let rn: u8 = if back && front {
        1
    } else if front {
        2
    } else if looks(cells, stride, rows, kind, w, 1) && looks(cells, stride, rows, kind, w, 2) {
        3
    } else {
        0
    };
    let here = label(cells, stride, rows, w.x, w.y);
    let next_dir = turn(kind, w.dir, 2);
    let first = mark_value(kind, w.dir);
    let marks: i8 = if rn == 3 {
        first + mark_value(kind, next_dir)
    } else {
        first
    };
    proof {
        lemma_mark_sign(kind, w.dir as int, rn as int);
    }
    let sum = match marked_label(kind, here, marks) {
        Some(sum) => sum,
        None => {
            return None;
        },
    };
    let ghost before = cells@;
    proof {
        lemma_marked_inside(before, stride as int, rows as int, w@, marks as int);
        lemma_marks_use_slack(before, stride as int, kind, w@, marks as int);
    }
    cells.set(w.y * stride + w.x, sum);
    assert(cells@ == marked(before, stride as int, w@, marks as int));
    if rn == 1 {
        let there = step_to(stride, rows, kind, w, -1, Ghost(before));
        let next = turn_by(kind, there, -2, Ghost(stride as int), Ghost(rows as int));
        ring.push(corner_of(kind, next, stride, rows));
        Some(next)
    } else if rn == 2 {
        Some(step_to(stride, rows, kind, w, 0, Ghost(before)))
    } else if rn == 3 {
        let at_corner = Pace { dir: next_dir, ..w };
        ring.push(corner_of(kind, at_corner, stride, rows));
        let there = step_to(stride, rows, kind, w, 1, Ghost(before));
        let next = Pace { turns: 3, ..there };
        ring.push(corner_of(kind, next, stride, rows));
        Some(next)
    } else {
        let next = turn_by(kind, w, 2, Ghost(stride as int), Ghost(rows as int));
        ring.push(corner_of(kind, next, stride, rows));
        Some(next)
    }
}

/// Makes the closing moves of a walk that is back at its first cell.
fn finish_ring(
    cells: &mut Vec<i8>,
    stride: usize,
    rows: usize,
    kind: RingKind,
    start: Pace,
    emitted: Vec<Point>,
) -> (done: Option<Vec<Point>>)
    requires
        bordered(old(cells)@, stride as int, rows as int),
        inside(start@, stride as int, rows as int),
        stride - 2 <= u32::MAX,
        rows - 2 <= u32::MAX,
    ensures
        (final(cells)@, points_of(done)) == finish(
            old(cells)@,
            stride as int,
            kind,
            start@,
            emitted@,
        ),
        bordered(final(cells)@, stride as int, rows as int),
{
    let mut w = start;
    let ghost goal = finish(cells@, stride as int, kind, start@, emitted@);
    let mut ring = emitted;
    let last = match kind {
        RingKind::Outline => 0,
        RingKind::Hole => 6,
    };
    loop
        invariant
            bordered(cells@, stride as int, rows as int),
            inside(w@, stride as int, rows as int),
            stride - 2 <= u32::MAX,
            rows - 2 <= u32::MAX,
            last == final_dir(kind),
            goal == finish(old(cells)@, stride as int, kind, start@, emitted@),
            finish(cells@, stride as int, kind, w@, ring@) == goal,
        decreases slack(cells@),
    {
        let here = label(cells, stride, rows, w.x, w.y);
        let value = mark_value(kind, w.dir);
        proof {
            lemma_mark_sign(kind, w.dir as int, 0);
        }
        let sum = match marked_label(kind, here, value) {
            Some(sum) => sum,
            None => {
                return None;
            },
        };
        let ghost before = cells@;
        proof {
            lemma_marked_inside(before, stride as int, rows as int, w@, value as int);
            lemma_marks_use_slack(before, stride as int, kind, w@, value as int);
        }
        cells.set(w.y * stride + w.x, sum);
        assert(cells@ == marked(before, stride as int, w@, value as int));
        if w.dir == last {
            return Some(ring);
        }
        w = turn_by(kind, w, 2, Ghost(stride as int), Ghost(rows as int));
        ring.push(corner_of(kind, w, stride, rows));
    }
}

/// Walks the boundary that starts at cell `(sx, sy)`, marking the grid, and
/// returns the corners of the ring, or `None` where the walk had to be given
/// up because a cell could take no more marks.
pub(crate) fn trace_ring(
    cells: &mut Vec<i8>,
    stride: usize,
    rows: usize,
    kind: RingKind,
    sx: usize,
    sy: usize,
) -> (done: Option<Vec<Point>>)
    requires
        bordered(old(cells)@, stride as int, rows as int),
        1 <= sx <= stride - 2,
        1 <= sy <= rows - 2,
        stride - 2 <= u32::MAX,
        rows - 2 <= u32::MAX,
    ensures
        (final(cells)@, points_of(done)) == trace(
            old(cells)@,
            stride as int,
            kind,
            sx as int,
            sy as int,
        ),
        bordered(final(cells)@, stride as int, rows as int),
{
    let mut w = Pace {
        x: sx,
        y: sy,
        dir: match kind {
            RingKind::Outline => 2,
            RingKind::Hole => 4,
        },
        turns: 1,
    };
    let mut ring: Vec<Point> = Vec::new();
    ring.push(corner_of(kind, w, stride, rows));
    assert(ring@ =~= seq![corner(kind, w@)]);
    let ghost goal = trace(cells@, stride as int, kind, sx as int, sy as int);
    loop
        invariant
            bordered(cells@, stride as int, rows as int),
            inside(w@, stride as int, rows as int),
            stride - 2 <= u32::MAX,
            rows - 2 <= u32::MAX,
            goal == trace(old(cells)@, stride as int, kind, sx as int, sy as int),
            walk(cells@, stride as int, kind, sx as int, sy as int, w@, ring@) == goal,
        decreases slack(cells@),
    {
        match advance(cells, stride, rows, kind, w, &mut ring) {
            None => {
                return None;
            },
            Some(next) => {
                if next.x == sx && next.y == sy && next.turns > 2 {
                    return finish_ring(cells, stride, rows, kind, next, ring);
                }
                w = next;
            },
        }
    }
}

} // verus!
