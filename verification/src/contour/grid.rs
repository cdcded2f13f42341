//! The labelled grid: a copy of the mask in signed labels, with a one-cell
//! border of zeros around it.
use crate::binary_image::BinaryImage;
use vstd::arithmetic::div_mod::{
    lemma_fundamental_div_mod, lemma_fundamental_div_mod_converse, lemma_multiply_divide_lt,
};
use vstd::prelude::*;

verus! {

/// The label of cell `(x, y)` in a grid of `stride` columns.
pub open spec fn cell_at(cells: Seq<i8>, stride: int, x: int, y: int) -> i8 {
    cells[y * stride + x]
}

/// A grid of `stride` by `rows` cells whose outermost cells are all zero.
pub open spec fn bordered(cells: Seq<i8>, stride: int, rows: int) -> bool {
    &&& stride >= 2
    &&& rows >= 2
    &&& cells.len() == stride * rows
    &&& forall|x: int, y: int|
        0 <= x < stride && 0 <= y < rows && (x == 0 || y == 0 || x == stride - 1 || y == rows - 1)
            ==> #[trigger] cell_at(cells, stride, x, y) == 0
}

/// The label of cell `(x, y)` of the bordered grid of a `width` by `height`
/// mask.
pub open spec fn label_at(pixels: Seq<bool>, width: int, height: int, x: int, y: int) -> i8 {
    if 1 <= x <= width && 1 <= y <= height {
        if pixels[(y - 1) * width + (x - 1)] {
            1i8
        } else {
            -1i8
        }
    } else {
        0i8
    }
}

/// The grid that a scan starts from.
pub open spec fn labels(pixels: Seq<bool>, width: int, height: int) -> Seq<i8> {
    Seq::new(
        ((width + 2) * (height + 2)) as nat,
        |i: int| label_at(pixels, width, height, i % (width + 2), i / (width + 2)),
    )
}

/// A cell of the grid has a flat index inside it.
pub proof fn lemma_cell_index(stride: int, rows: int, x: int, y: int)
    requires
        0 <= x < stride,
        0 <= y < rows,
    ensures
        0 <= y * stride + x < stride * rows,
{
    assert(0 <= y * stride && y * stride + stride <= stride * rows) by (nonlinear_arith)
        requires
            0 <= x < stride,
            0 <= y < rows,
    ;
}

/// Two different cells of the grid have different flat indices.
pub proof fn lemma_cells_apart(stride: int, x: int, y: int, x2: int, y2: int)
    requires
        0 <= x < stride,
        0 <= x2 < stride,
        x2 != x || y2 != y,
    ensures
        y2 * stride + x2 != y * stride + x,
{
    if y2 < y {
        assert(y2 * stride + stride <= y * stride) by (nonlinear_arith)
            requires
                y2 < y,
                stride > 0,
        ;
    } else if y2 > y {
        assert(y * stride + stride <= y2 * stride) by (nonlinear_arith)
            requires
                y2 > y,
                stride > 0,
        ;
    }
}

/// Writing one cell changes that cell and no other.
pub proof fn lemma_update_cell(cells: Seq<i8>, stride: int, rows: int, x: int, y: int, label: i8)
    requires
        cells.len() == stride * rows,
        0 <= x < stride,
        0 <= y < rows,
    ensures
        0 <= y * stride + x < cells.len(),
        cell_at(cells.update(y * stride + x, label), stride, x, y) == label,
        forall|x2: int, y2: int|
            0 <= x2 < stride && 0 <= y2 < rows && (x2 != x || y2 != y) ==> #[trigger] cell_at(
                cells.update(y * stride + x, label),
                stride,
                x2,
                y2,
            ) == cell_at(cells, stride, x2, y2),
{
    lemma_cell_index(stride, rows, x, y);
    let after = cells.update(y * stride + x, label);
    assert forall|x2: int, y2: int|
        0 <= x2 < stride && 0 <= y2 < rows && (x2 != x || y2 != y) implies #[trigger] cell_at(
        after,
        stride,
        x2,
        y2,
    ) == cell_at(cells, stride, x2, y2) by {
        lemma_cell_index(stride, rows, x2, y2);
        lemma_cells_apart(stride, x, y, x2, y2);
    }
}

/// The grid that a scan starts from holds the label of every cell.
pub proof fn lemma_labels_cell(pixels: Seq<bool>, width: int, height: int, x: int, y: int)
    requires
        0 <= width,
        0 <= height,
        0 <= x < width + 2,
        0 <= y < height + 2,
    ensures
        cell_at(labels(pixels, width, height), width + 2, x, y) == label_at(
            pixels,
            width,
            height,
            x,
            y,
        ),
{
    let stride = width + 2;
    lemma_cell_index(stride, height + 2, x, y);
    lemma_fundamental_div_mod_converse(y * stride + x, stride, y, x);
    assert(stride * (height + 2) == (width + 2) * (height + 2)) by (nonlinear_arith)
        requires
            stride == width + 2,
    ;
}

/// Reads the label of a cell.
pub(crate) fn label(cells: &Vec<i8>, stride: usize, rows: usize, x: usize, y: usize) -> (value: i8)
    requires
        cells@.len() == stride * rows,
        x < stride,
        y < rows,
    ensures
        value == cell_at(cells@, stride as int, x as int, y as int),
        y * stride + x < cells@.len() <= usize::MAX,
{
    proof {
        lemma_cell_index(stride as int, rows as int, x as int, y as int);
    }
    assert(cells@.len() == cells.len());
    cells[y * stride + x]
}

/// Copies a mask into a grid of labels with a one-cell border of zeros.
pub(crate) fn label_grid(img: &BinaryImage) -> (cells: Vec<i8>)
    requires
        (img.spec_width() + 2) * (img.spec_height() + 2) <= usize::MAX,
    ensures
        cells@ == labels(img@, img.spec_width() as int, img.spec_height() as int),
        bordered(cells@, img.spec_width() + 2, img.spec_height() + 2),
{
    let width = img.width();
    let height = img.height();
    assert(width + 2 <= usize::MAX && height + 2 <= usize::MAX) by (nonlinear_arith)
        requires
            (width + 2) * (height + 2) <= usize::MAX,
            width >= 0,
            height >= 0,
    ;
    let stride: usize = width as usize + 2;
    let rows: usize = height as usize + 2;
    let mut cells: Vec<i8> = Vec::new();
    let mut i: usize = 0;
    while i < stride * rows
        invariant
            stride * rows <= usize::MAX,
            i <= stride * rows,
            cells@.len() == i,
            forall|k: int| 0 <= k < i ==> cells@[k] == 0,
        decreases stride * rows - i,
    {
        cells.push(0);
        i += 1;
    }
    assert forall|cx: int, cy: int| 0 <= cx < stride && 0 <= cy < rows implies #[trigger] cell_at(
        cells@,
        stride as int,
        cx,
        cy,
    ) == 0 by {
        lemma_cell_index(stride as int, rows as int, cx, cy);
    }
    let mut y: u32 = 0;
    while y < height
        invariant
            width == img.spec_width(),
            height == img.spec_height(),
            stride == width + 2,
            rows == height + 2,
            stride * rows <= usize::MAX,
            cells@.len() == stride * rows,
            y <= height,
            forall|cx: int, cy: int|
                0 <= cx < stride && 0 <= cy < rows ==> #[trigger] cell_at(
                    cells@,
                    stride as int,
                    cx,
                    cy,
                ) == if cy <= y {
                    label_at(img@, width as int, height as int, cx, cy)
                } else {
                    0
                },
        decreases height - y,
    {
        let mut x: u32 = 0;
        while x < width
            invariant
                width == img.spec_width(),
                height == img.spec_height(),
                stride == width + 2,
                rows == height + 2,
                stride * rows <= usize::MAX,
                cells@.len() == stride * rows,
                y < height,
                x <= width,
                forall|cx: int, cy: int|
                    0 <= cx < stride && 0 <= cy < rows ==> #[trigger] cell_at(
                        cells@,
                        stride as int,
                        cx,
                        cy,
                    ) == if cy <= y || (cy == y + 1 && cx <= x) {
                        label_at(img@, width as int, height as int, cx, cy)
                    } else {
                        0
                    },
            decreases width - x,
        {
            let value: i8 = if img.get_pixel(x, y) {
                1
            } else {
                -1
            };
            proof {
                lemma_update_cell(cells@, stride as int, rows as int, x + 1, y + 1, value);
            }
            cells.set((y as usize + 1) * stride + (x as usize + 1), value);
            x += 1;
        }
        y += 1;
    }
    proof {
        let goal = labels(img@, width as int, height as int);
        assert(goal.len() == cells@.len());
        assert forall|k: int| 0 <= k < cells@.len() implies cells@[k] == goal[k] by {
            lemma_fundamental_div_mod(k, stride as int);
            lemma_multiply_divide_lt(k, stride as int, rows as int);
            let cx = k % (stride as int);
            let cy = k / (stride as int);
            assert(cy * stride == stride * cy) by (nonlinear_arith);
            assert(cell_at(cells@, stride as int, cx, cy) == cells@[k]);
        }
        assert(cells@ =~= goal);
    }
    cells
}

} // verus!
