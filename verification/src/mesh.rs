//! The grid on which a frame is drawn: one vertex per pixel, two triangles per cell.

use vstd::prelude::*;
use crate::frame::{A010Frame, FrameView, MAX_FRAME_SIZE};

verus! {

/// A color with opacity.
#[derive(Debug, Clone, Copy, PartialEq, Eq, Structural)]
pub struct FrameColor {
    pub r: u8,
    pub g: u8,
    pub b: u8,
    pub a: u8,
}

/// Shade of grey of the vertices on the even squares of the board.
pub const FRAME_SHADE_EVEN: u8 = 192;

/// Shade of grey of the vertices on the odd squares of the board.
pub const FRAME_SHADE_ODD: u8 = 64;

/// An opaque grey.
pub open spec fn grey(shade: u8) -> FrameColor {
    FrameColor { r: shade, g: shade, b: shade, a: 255 }
}

/// A pixel: its column, its row and the distance measured there.
#[derive(Debug, Clone, Copy, PartialEq, Eq, Structural)]
pub struct FrameSample {
    pub column: usize,
    pub row: usize,
    pub distance: u8,
}

/// The grid of a frame.
pub struct FrameMesh {
    pub samples: Vec<FrameSample>,
    pub indices: Vec<u16>,
    pub colors: Vec<FrameColor>,
}

/// A vertex number in the 16 bits that it is given.
pub open spec fn index16(vertex: int) -> u16 {
    (vertex % 0x10000) as u16
}

/// The two triangles of the cell between the vertex in a column and a row and the next ones. The
/// cell is cut along one diagonal where the vertex has an even number, and along the other where
/// it has an odd one.
pub open spec fn cell(side: int, column: int, row: int) -> Seq<u16> {
    let i = column + row * side;
    if i % 2 == 0 {
        seq![
            index16(i),
            index16(i + 1),
            index16(i + side),
            index16(i + 1),
            index16(i + side + 1),
            index16(i + side),
        ]
    } else {
        seq![
            index16(i),
            index16(i + 1),
            index16(i + side + 1),
            index16(i),
            index16(i + side + 1),
            index16(i + side),
        ]
    }
}

/// The triangles of the first cells of a column.
pub open spec fn column_cells(side: int, column: int, rows: nat) -> Seq<u16>
    decreases rows,
{
    if rows == 0 {
        Seq::empty()
    } else {
        column_cells(side, column, (rows - 1) as nat) + cell(side, column, rows - 1)
    }
}

/// The triangles of the cells of the first columns, column after column.
pub open spec fn cells(side: int, columns: nat) -> Seq<u16>
    decreases columns,
{
    if columns == 0 {
        Seq::empty()
    } else {
        cells(side, (columns - 1) as nat) + column_cells(side, columns - 1, (side - 1) as nat)
    }
}

/// The triangles of a square grid with `side` vertices on a side.
pub open spec fn grid_indices(side: int) -> Seq<u16> {
    cells(side, (side - 1) as nat)
}

/// The colors of a square grid, like a chess board, column after column.
pub open spec fn grid_colors(side: int) -> Seq<FrameColor> {
    Seq::new(
        (side * side) as nat,
        |k: int|
            if (k / side + k % side) % 2 == 0 {
                grey(FRAME_SHADE_EVEN)
            } else {
                grey(FRAME_SHADE_ODD)
            },
    )
}

/// The pixels of a square frame, column after column. Pixels are stored row after row.
pub open spec fn grid_samples(data: Seq<u8>, side: int) -> Seq<FrameSample> {
    Seq::new(
        (side * side) as nat,
        |k: int|
            FrameSample {
                column: (k / side) as usize,
                row: (k % side) as usize,
                distance: data[k / side + k % side * side],
            },
    )
}

/// The number of pixels on a side of a frame of a known size.
pub open spec fn side_of(frame_size: usize) -> Option<int> {
    if frame_size == 10000 {
        Some(100)
    } else if frame_size == 2500 {
        Some(50)
    } else if frame_size == 625 {
        Some(25)
    } else {
        None
    }
}

/// A frame has as many pixels as its square.
proof fn lemma_area(frame_size: usize, side: int)
    requires
        side_of(frame_size) == Some(side),
    ensures
        side * side == frame_size,
{
    assert(side * side == frame_size) by (nonlinear_arith)
        requires
            side == 100 && frame_size == 10000 || side == 50 && frame_size == 2500 || side == 25
                && frame_size == 625,
    ;
}

/// Positions within a square are numbers below its area.
pub proof fn lemma_in_square(side: int, a: int, b: int)
    requires
        0 <= a < side,
        0 <= b < side,
    ensures
        0 <= a * side + b < side * side,
        a * side + side <= side * side,
        (a * side + b) / side == a,
        (a * side + b) % side == b,
{
    assert(a * side + side <= side * side) by (nonlinear_arith)
        requires
            0 <= a < side,
    ;
    assert(0 <= a * side) by (nonlinear_arith)
        requires
            0 <= a,
            0 < side,
    ;
    vstd::arithmetic::div_mod::lemma_fundamental_div_mod_converse(a * side + b, side, a, b);
}

impl FrameColor {
    /// An opaque grey.
    pub fn grey(shade: u8) -> (color: Self)
        ensures
            color == grey(shade),
    {
        FrameColor { r: shade, g: shade, b: shade, a: 255 }
    }
}

/// The triangles and colors of a grid belong to the pixels that it has: whatever the known size of
/// which it has the pixels, they are those of that size.
pub open spec fn is_consistent(mesh: FrameMesh) -> bool {
    forall|frame_size: usize| #[trigger]
        side_of(frame_size) matches Some(side) ==> (mesh.samples@.len() == side * side ==> {
            &&& mesh.indices@ == grid_indices(side)
            &&& mesh.colors@ == grid_colors(side)
        })
}

/// A cell has two triangles, and their corners are vertices of the grid.
proof fn lemma_cell(side: int, column: int, row: int)
    requires
        0 <= column < side - 1,
        0 <= row < side - 1,
    ensures
        cell(side, column, row).len() == 6,
        side <= 256 ==> forall|k: int|
            0 <= k < 6 ==> #[trigger] cell(side, column, row)[k] < side * side,
{
    lemma_in_square(side, row, column);
    lemma_in_square(side, row + 1, column + 1);
    assert((row + 1) * side == row * side + side) by (nonlinear_arith);
    assert(side <= 256 ==> side * side <= 0x10000) by (nonlinear_arith)
        requires
            0 <= side,
    ;
}

/// The cells of a column.
proof fn lemma_column_cells(side: int, column: int, rows: nat)
    requires
        0 <= column < side - 1,
        rows <= side - 1,
    ensures
        column_cells(side, column, rows).len() == 6 * rows,
        side <= 256 ==> forall|k: int|
            0 <= k < 6 * rows ==> #[trigger] column_cells(side, column, rows)[k] < side * side,
    decreases rows,
{
    if rows > 0 {
        lemma_column_cells(side, column, (rows - 1) as nat);
        lemma_cell(side, column, rows - 1);
    }
}

/// The cells of the first columns.
proof fn lemma_cells(side: int, columns: nat)
    requires
        columns <= side - 1,
    ensures
        cells(side, columns).len() == 6 * ((side - 1) * columns),
        side <= 256 ==> forall|k: int|
            0 <= k < cells(side, columns).len() ==> #[trigger] cells(side, columns)[k] < side
                * side,
    decreases columns,
{
    if columns > 0 {
        lemma_cells(side, (columns - 1) as nat);
        lemma_column_cells(side, columns - 1, (side - 1) as nat);
        assert((side - 1) * columns == (side - 1) * (columns - 1) + (side - 1))
            by (nonlinear_arith);
    } else {
        assert((side - 1) * columns == 0) by (nonlinear_arith)
            requires
                columns == 0,
        ;
    }
}

/// A grid has two triangles per cell, and their corners are vertices of the grid as long as 16 bits
/// can number them.
pub proof fn corners_are_vertices(side: int)
    requires
        1 <= side,
    ensures
        grid_indices(side).len() == 6 * ((side - 1) * (side - 1)),
        side <= 256 ==> forall|k: int|
            0 <= k < grid_indices(side).len() ==> #[trigger] grid_indices(side)[k] < side * side,
{
    lemma_cells(side, (side - 1) as nat);
}

/// The cells of a column stand one after another.
proof fn lemma_cell_in_column(side: int, column: int, rows: nat, row: int)
    requires
        0 <= column < side - 1,
        rows <= side - 1,
        0 <= row < rows,
    ensures
        6 * row + 6 <= column_cells(side, column, rows).len(),
        column_cells(side, column, rows).subrange(6 * row, 6 * row + 6) == cell(side, column, row),
    decreases rows,
{
    let before = column_cells(side, column, (rows - 1) as nat);
    let last = cell(side, column, rows - 1);
    lemma_column_cells(side, column, rows);
    lemma_column_cells(side, column, (rows - 1) as nat);
    if row == rows - 1 {
        assert((before + last).subrange(6 * row, 6 * row + 6) =~= last);
    } else {
        lemma_cell_in_column(side, column, (rows - 1) as nat, row);
        assert((before + last).subrange(6 * row, 6 * row + 6) =~= before.subrange(
            6 * row,
            6 * row + 6,
        ));
    }
}

/// The columns stand one after another.
proof fn lemma_column_in_cells(side: int, columns: nat, column: int)
    requires
        columns <= side - 1,
        0 <= column < columns,
    ensures
        ({
            let start = 6 * ((side - 1) * column);
            &&& 0 <= start
            &&& start + 6 * (side - 1) <= cells(side, columns).len()
            &&& cells(side, columns).subrange(start, start + 6 * (side - 1)) == column_cells(
                side,
                column,
                (side - 1) as nat,
            )
        }),
    decreases columns,
{
    let start = 6 * ((side - 1) * column);
    let end = start + 6 * (side - 1);
    let before = cells(side, (columns - 1) as nat);
    let last = column_cells(side, columns - 1, (side - 1) as nat);
    lemma_cells(side, (columns - 1) as nat);
    lemma_column_cells(side, columns - 1, (side - 1) as nat);
    assert(0 <= (side - 1) * column) by (nonlinear_arith)
        requires
            0 <= column,
            1 <= side,
    ;
    if column == columns - 1 {
        assert((before + last).subrange(start, end) =~= last);
    } else {
        lemma_column_in_cells(side, (columns - 1) as nat, column);
        assert((before + last).subrange(start, end) =~= before.subrange(start, end));
    }
}

/// The triangles of a cell stand at its place: cells are listed column after column.
pub proof fn cell_is_at_its_place(side: int, column: int, row: int)
    requires
        0 <= column < side - 1,
        0 <= row < side - 1,
    ensures
        ({
            let k = 6 * (column * (side - 1) + row);
            &&& 0 <= k
            &&& k + 6 <= grid_indices(side).len()
            &&& grid_indices(side).subrange(k, k + 6) == cell(side, column, row)
        }),
{
    let k = 6 * (column * (side - 1) + row);
    let start = 6 * ((side - 1) * column);
    let end = start + 6 * (side - 1);
    assert(column * (side - 1) == (side - 1) * column) by (nonlinear_arith);
    lemma_column_in_cells(side, (side - 1) as nat, column);
    lemma_cell_in_column(side, column, (side - 1) as nat, row);
    assert(grid_indices(side).subrange(k, k + 6) =~= grid_indices(side).subrange(
        start,
        end,
    ).subrange(6 * row, 6 * row + 6));
}

/// Every pixel of a frame is shown in its column and row.
pub proof fn every_pixel_is_shown(data: Seq<u8>, side: int, pixel: int)
    requires
        1 <= side,
        side * side <= usize::MAX,
        0 <= pixel < side * side,
    ensures
        ({
            let k = pixel % side * side + pixel / side;
            &&& 0 <= k < grid_samples(data, side).len()
            &&& grid_samples(data, side)[k] == (FrameSample {
                column: (pixel % side) as usize,
                row: (pixel / side) as usize,
                distance: data[pixel],
            })
        }),
{
    let column = pixel % side;
    let row = pixel / side;
    vstd::arithmetic::div_mod::lemma_fundamental_div_mod(pixel, side);
    assert(row < side) by (nonlinear_arith)
        requires
            pixel == side * row + column,
            pixel < side * side,
            0 <= column,
            1 <= side,
    ;
    assert(0 <= row) by (nonlinear_arith)
        requires
            pixel == side * row + column,
            0 <= pixel,
            column < side,
            1 <= side,
    ;
    lemma_in_square(side, column, row);
    assert(column + row * side == pixel) by (nonlinear_arith)
        requires
            pixel == side * row + column,
    ;
}

/// Truncation to 16 bits is reduction modulo 2^16.
fn to_index(vertex: usize) -> (index: u16)
    ensures
        index == index16(vertex as int),
{
    let index: u16 = #[verifier::truncate] (vertex as u16);
    assert(index == vertex % 0x10000) by (bit_vector)
        requires
            index == vertex as u16,
    ;
    index
}

/// Fills in the triangles of a square grid.
pub fn setup_frame_indices(indices: &mut Vec<u16>, side: usize)
    requires
        1 <= side,
        side * side <= usize::MAX,
    ensures
        final(indices)@ == grid_indices(side as int),
{
    indices.clear();
    let mut column: usize = 0;
    while column < side - 1
        invariant
            column <= side - 1,
            side * side <= usize::MAX,
            indices@ == cells(side as int, column as nat),
        decreases side - column,
    {
        let mut row: usize = 0;
        assert(indices@ =~= cells(side as int, column as nat) + column_cells(
            side as int,
            column as int,
            0,
        ));
        while row < side - 1
            invariant
                column < side - 1,
                row <= side - 1,
                side * side <= usize::MAX,
                indices@ == cells(side as int, column as nat) + column_cells(
                    side as int,
                    column as int,
                    row as nat,
                ),
            decreases side - row,
        {
            let ghost before = indices@;
            proof {
                lemma_in_square(side as int, row as int, column as int);
                lemma_in_square(side as int, row + 1, column + 1);
                assert((row + 1) * side == row * side + side) by (nonlinear_arith);
            }
            let i: usize = column + row * side;
            let i0: u16 = to_index(i);
            let i1: u16 = to_index(i + 1);
            let i2: u16 = to_index(i + side);
            let i3: u16 = to_index(i + side + 1);
            if i % 2 == 0 {
                indices.push(i0);
                indices.push(i1);
                indices.push(i2);
                indices.push(i1);
                indices.push(i3);
                indices.push(i2);
            } else {
                indices.push(i0);
                indices.push(i1);
                indices.push(i3);
                indices.push(i0);
                indices.push(i3);
                indices.push(i2);
            }
            assert(indices@ =~= before + cell(side as int, column as int, row as int));
            row = row + 1;
            assert(indices@ =~= cells(side as int, column as nat) + column_cells(
                side as int,
                column as int,
                row as nat,
            ));
        }
        column = column + 1;
    }
}

/// Fills in the colors of a square grid.
pub fn setup_frame_colors(colors: &mut Vec<FrameColor>, side: usize)
    requires
        side * side <= usize::MAX,
    ensures
        final(colors)@ == grid_colors(side as int),
{
    colors.clear();
    let mut column: usize = 0;
    while column < side
        invariant
            column <= side,
            side * side <= usize::MAX,
            colors@.len() == column * side,
            forall|k: int|
                0 <= k < colors@.len() ==> colors@[k] == #[trigger] grid_colors(side as int)[k],
        decreases side - column,
    {
        let mut row: usize = 0;
        while row < side
            invariant
                column < side,
                row <= side,
                side * side <= usize::MAX,
                colors@.len() == column * side + row,
                forall|k: int|
                    0 <= k < colors@.len() ==> colors@[k] == #[trigger] grid_colors(
                        side as int,
                    )[k],
            decreases side - row,
        {
            proof {
                lemma_in_square(side as int, column as int, row as int);
                assert(side >= 2 ==> 2 * side <= side * side) by (nonlinear_arith);
            }
            if (column + row) % 2 == 0 {
                colors.push(FrameColor::grey(FRAME_SHADE_EVEN));
            } else {
                colors.push(FrameColor::grey(FRAME_SHADE_ODD));
            }
            row = row + 1;
        }
        assert((column + 1) * side == column * side + side) by (nonlinear_arith);
        column = column + 1;
    }
    assert(colors@ =~= grid_colors(side as int));
}

/// Lists the pixels of a square frame.
fn setup_frame_samples(samples: &mut Vec<FrameSample>, frame: &A010Frame, side: usize)
    requires
        side * side <= MAX_FRAME_SIZE,
    ensures
        final(samples)@ == grid_samples(frame@.data, side as int),
{
    samples.clear();
    let mut column: usize = 0;
    while column < side
        invariant
            column <= side,
            side * side <= MAX_FRAME_SIZE,
            samples@.len() == column * side,
            forall|k: int|
                0 <= k < samples@.len() ==> samples@[k] == #[trigger] grid_samples(
                    frame@.data,
                    side as int,
                )[k],
        decreases side - column,
    {
        let mut row: usize = 0;
        while row < side
            invariant
                column < side,
                row <= side,
                side * side <= MAX_FRAME_SIZE,
                samples@.len() == column * side + row,
                forall|k: int|
                    0 <= k < samples@.len() ==> samples@[k] == #[trigger] grid_samples(
                        frame@.data,
                        side as int,
                    )[k],
            decreases side - row,
        {
            proof {
                lemma_in_square(side as int, column as int, row as int);
                lemma_in_square(side as int, row as int, column as int);
            }
            let i: usize = column + row * side;
            samples.push(FrameSample { column, row, distance: frame.data[i] });
            row = row + 1;
        }
        assert((column + 1) * side == column * side + side) by (nonlinear_arith);
        column = column + 1;
    }
    assert(samples@ =~= grid_samples(frame@.data, side as int));
}

/// The number of pixels on a side of a frame of a known size.
pub fn frame_side(frame_size: usize) -> (side: Option<usize>)
    ensures
        side is Some <==> side_of(frame_size) is Some,
        side matches Some(s) ==> side_of(frame_size) == Some(s as int),
{
    match frame_size {
        10000 => Some(100),
        2500 => Some(50),
        625 => Some(25),
        _ => None,
    }
}

impl FrameMesh {
    /// The grid of nothing.
    pub fn new() -> (mesh: Self)
        ensures
            mesh.samples@.len() == 0,
            mesh.indices@.len() == 0,
            mesh.colors@.len() == 0,
            is_consistent(mesh),
    {
        FrameMesh { samples: Vec::new(), indices: Vec::new(), colors: Vec::new() }
    }
}

/// What fitting a grid to a frame does to it. The triangles and colors are made anew only where the
/// number of pixels has changed.
pub open spec fn is_fitted(frame: FrameView, before: FrameMesh, after: FrameMesh) -> bool {
    match side_of(frame.frame_size) {
        None => after == before,
        Some(side) => {
            &&& after.samples@ == grid_samples(frame.data, side)
            &&& if before.samples@.len() == side * side {
                &&& after.indices == before.indices
                &&& after.colors == before.colors
            } else {
                &&& after.indices@ == grid_indices(side)
                &&& after.colors@ == grid_colors(side)
            }
        },
    }
}

/// Only the pixels that belong to a frame matter to the grid, and fitting it to the same picture
/// again changes nothing.
pub proof fn same_picture_changes_nothing(
    frame: FrameView,
    again: FrameView,
    before: FrameMesh,
    once: FrameMesh,
    twice: FrameMesh,
)
    requires
        frame.frame_size == again.frame_size,
        frame.data.take(frame.frame_size as int) == again.data.take(frame.frame_size as int),
        is_fitted(frame, before, once),
        is_fitted(again, once, twice),
        frame.data.len() == MAX_FRAME_SIZE,
        again.data.len() == MAX_FRAME_SIZE,
    ensures
        twice.samples@ == once.samples@,
        twice.indices == once.indices,
        twice.colors == once.colors,
{
    if let Some(side) = side_of(frame.frame_size) {
        lemma_area(frame.frame_size, side);
        let shown = grid_samples(frame.data, side);
        let shown_again = grid_samples(again.data, side);
        assert forall|k: int| 0 <= k < shown.len() implies #[trigger] shown[k]
            == shown_again[k] by {
            let column = k / side;
            let row = k % side;
            vstd::arithmetic::div_mod::lemma_fundamental_div_mod(k, side);
            assert(0 <= column < side) by (nonlinear_arith)
                requires
                    0 <= k < side * side,
                    k == side * column + row,
                    0 <= row < side,
            ;
            lemma_in_square(side, row, column);
            let pixel = column + row * side;
            assert(frame.data[pixel] == frame.data.take(frame.frame_size as int)[pixel]);
            assert(again.data[pixel] == again.data.take(frame.frame_size as int)[pixel]);
        }
        assert(shown =~= shown_again);
    }
}

/// Fits the grid to a frame, and returns whether the frame has a known size. The triangles and
/// colors are made anew only where the number of pixels has changed.
pub fn setup_frame(frame: &A010Frame, mesh: &mut FrameMesh) -> (known: bool)
    ensures
        known == (side_of(frame.frame_size) is Some),
        is_fitted(frame@, *old(mesh), *final(mesh)),
        side_of(frame.frame_size) matches Some(side) ==> forall|pixel: int|
            0 <= pixel < side * side ==> final(mesh).samples@[pixel % side * side + pixel / side]
                == (FrameSample {
                column: (pixel % side) as usize,
                row: (pixel / side) as usize,
                distance: #[trigger] frame@.data[pixel],
            }),
        is_consistent(*old(mesh)) ==> is_consistent(*final(mesh)),
        is_consistent(*old(mesh)) ==> (side_of(frame.frame_size) matches Some(side) ==> {
            &&& final(mesh).indices@ == grid_indices(side)
            &&& final(mesh).colors@ == grid_colors(side)
        }),
{
    let side: usize = match frame_side(frame.frame_size) {
        Some(side) => side,
        None => return false,
    };
    assert(side * side <= MAX_FRAME_SIZE) by (nonlinear_arith)
        requires
            side <= 100,
    ;
    if mesh.samples.len() != side * side {
        setup_frame_indices(&mut mesh.indices, side);
        setup_frame_colors(&mut mesh.colors, side);
    }
    setup_frame_samples(&mut mesh.samples, frame, side);
    proof {
        assert forall|pixel: int| 0 <= pixel < side * side implies mesh.samples@[pixel
            % (side as int) * side + pixel / (side as int)] == (FrameSample {
            column: (pixel % (side as int)) as usize,
            row: (pixel / (side as int)) as usize,
            distance: #[trigger] frame@.data[pixel],
        }) by {
            every_pixel_is_shown(frame@.data, side as int, pixel);
        }
        lemma_area(frame.frame_size, side as int);
        assert forall|frame_size: usize|
            #![trigger side_of(frame_size)]
            side_of(frame_size) is Some && mesh.samples@.len() == side_of(frame_size)->0
                * side_of(frame_size)->0 implies frame_size == frame.frame_size by {
            lemma_area(frame_size, side_of(frame_size)->0);
        }
    }
    true
}

} // verus!
