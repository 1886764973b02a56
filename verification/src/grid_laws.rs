//! What the grid of a frame shows, vertex by vertex and triangle by triangle.

use vstd::prelude::*;
use crate::frame::{FrameView, MAX_FRAME_SIZE};
use crate::mesh::{
    FrameColor, FrameMesh, cell_is_at_its_place, corners_are_vertices, every_pixel_is_shown, grey,
    grid_colors, grid_indices, grid_samples, index16, is_consistent, is_fitted, lemma_in_square,
    side_of,
};

verus! {

/// The frames of a known size are the squares with 25, 50 or 100 pixels on a side.
pub proof fn known_sizes(frame_size: usize)
    ensures
        side_of(frame_size) matches Some(side) ==> side * side == frame_size && (side == 25 || side
            == 50 || side == 100),
        side_of(frame_size) is None ==> frame_size != 625 && frame_size != 2500 && frame_size
            != 10000,
{
    if let Some(side) = side_of(frame_size) {
        assert(side * side == frame_size) by (nonlinear_arith)
            requires
                side == 100 && frame_size == 10000 || side == 50 && frame_size == 2500 || side
                    == 25 && frame_size == 625,
        ;
    }
}

/// A vertex number is kept in 16 bits, whole as long as it fits.
pub proof fn vertex_numbers(vertex: int)
    requires
        0 <= vertex,
    ensures
        index16(vertex) as int == vertex % 65536,
        vertex < 65536 ==> index16(vertex) == vertex,
{
}

/// Two triangles cover each cell. The cell in a column and a row lies between the vertices `i`,
/// `i + 1`, `i + side` and `i + side + 1`, where `i` is the number of its first one. It is cut
/// from `i + 1` to `i + side` where `i` is even, and from `i` to `i + side + 1` where it is odd.
pub proof fn triangles_of_a_cell(side: int, column: int, row: int)
    requires
        0 <= column < side - 1,
        0 <= row < side - 1,
    ensures
        ({
            let i = column + row * side;
            let k = 6 * (column * (side - 1) + row);
            let t = grid_indices(side);
            &&& 0 <= k
            &&& k + 6 <= t.len()
            &&& i % 2 == 0 ==> {
                &&& t[k] as int == i % 65536
                &&& t[k + 1] as int == (i + 1) % 65536
                &&& t[k + 2] as int == (i + side) % 65536
                &&& t[k + 3] as int == (i + 1) % 65536
                &&& t[k + 4] as int == (i + side + 1) % 65536
                &&& t[k + 5] as int == (i + side) % 65536
            }
            &&& i % 2 != 0 ==> {
                &&& t[k] as int == i % 65536
                &&& t[k + 1] as int == (i + 1) % 65536
                &&& t[k + 2] as int == (i + side + 1) % 65536
                &&& t[k + 3] as int == i % 65536
                &&& t[k + 4] as int == (i + side + 1) % 65536
                &&& t[k + 5] as int == (i + side) % 65536
            }
        }),
{
    let k = 6 * (column * (side - 1) + row);
    let part = grid_indices(side).subrange(k, k + 6);
    cell_is_at_its_place(side, column, row);
    assert(grid_indices(side)[k] == part[0]);
    assert(grid_indices(side)[k + 1] == part[1]);
    assert(grid_indices(side)[k + 2] == part[2]);
    assert(grid_indices(side)[k + 3] == part[3]);
    assert(grid_indices(side)[k + 4] == part[4]);
    assert(grid_indices(side)[k + 5] == part[5]);
}

/// The triangles of a cell leave no hole: in a grid that 16 bits can number, each of its four
/// corners belongs to one of them, each of them has three different corners, and they share two
/// corners that lie across from each other.
pub proof fn triangles_cover_a_cell(side: int, column: int, row: int)
    requires
        2 <= side <= 256,
        0 <= column < side - 1,
        0 <= row < side - 1,
    ensures
        ({
            let i = column + row * side;
            let k = 6 * (column * (side - 1) + row);
            let t = grid_indices(side);
            let first = set![t[k] as int, t[k + 1] as int, t[k + 2] as int];
            let second = set![t[k + 3] as int, t[k + 4] as int, t[k + 5] as int];
            &&& t[k] != t[k + 1] && t[k + 1] != t[k + 2] && t[k] != t[k + 2]
            &&& t[k + 3] != t[k + 4] && t[k + 4] != t[k + 5] && t[k + 3] != t[k + 5]
            &&& first.union(second) == set![i, i + 1, i + side, i + side + 1]
            &&& first.intersect(second) == set![i + 1, i + side] || first.intersect(second)
                == set![i, i + side + 1]
        }),
{
    let i = column + row * side;
    let k = 6 * (column * (side - 1) + row);
    let t = grid_indices(side);
    triangles_of_a_cell(side, column, row);
    lemma_in_square(side, row + 1, column + 1);
    lemma_in_square(side, row, column);
    assert((row + 1) * side == row * side + side) by (nonlinear_arith);
    assert(side * side <= 65536) by (nonlinear_arith)
        requires
            0 <= side <= 256,
    ;
    assert(0 <= i && i + side + 1 < 65536);
    let first = set![t[k] as int, t[k + 1] as int, t[k + 2] as int];
    let second = set![t[k + 3] as int, t[k + 4] as int, t[k + 5] as int];
    assert(first.union(second) =~= set![i, i + 1, i + side, i + side + 1]);
    if i % 2 == 0 {
        assert(first.intersect(second) =~= set![i + 1, i + side]);
    } else {
        assert(first.intersect(second) =~= set![i, i + side + 1]);
    }
}

/// The triangles are those of the cells and no others.
pub proof fn triangles_are_counted(side: int)
    requires
        1 <= side,
    ensures
        grid_indices(side).len() == 6 * ((side - 1) * (side - 1)),
{
    corners_are_vertices(side);
}

/// The colors are a board: vertices in even places are light grey, those in odd places dark grey,
/// and all of them are opaque.
pub proof fn colors_of_a_vertex(side: int, column: int, row: int)
    requires
        0 <= column < side,
        0 <= row < side,
    ensures
        ({
            let color = grid_colors(side)[column * side + row];
            &&& 0 <= column * side + row < grid_colors(side).len()
            &&& grid_colors(side).len() == side * side
            &&& (column + row) % 2 == 0 ==> color == (FrameColor { r: 192, g: 192, b: 192, a: 255 })
            &&& (column + row) % 2 != 0 ==> color == (FrameColor { r: 64, g: 64, b: 64, a: 255 })
        }),
{
    lemma_in_square(side, column, row);
}

/// A grey has the same share of each color and is opaque.
pub proof fn greys(shade: u8)
    ensures
        grey(shade).r == shade,
        grey(shade).g == shade,
        grey(shade).b == shade,
        grey(shade).a == 255,
{
}

/// A grid has one sample per pixel, and as many samples as the frame has pixels.
pub proof fn samples_are_counted(data: Seq<u8>, side: int)
    requires
        0 <= side,
    ensures
        grid_samples(data, side).len() == side * side,
{
    assert(0 <= side * side) by (nonlinear_arith)
        requires
            0 <= side,
    ;
}

/// Whatever a grid held before, fitted to a frame of a known size it shows every pixel of that
/// frame, in its column and row and at its distance, and nothing else.
pub proof fn fitted_grid_shows_the_frame(
    frame: FrameView,
    before: FrameMesh,
    after: FrameMesh,
    side: int,
    pixel: int,
)
    requires
        is_fitted(frame, before, after),
        1 <= side <= 100,
        side * side == frame.frame_size,
        frame.frame_size == 625 || frame.frame_size == 2500 || frame.frame_size == 10000,
        0 <= pixel < side * side,
    ensures
        ({
            let k = pixel % side * side + pixel / side;
            &&& after.samples@.len() == side * side
            &&& 0 <= k < after.samples@.len()
            &&& after.samples@[k].column == pixel % side
            &&& after.samples@[k].row == pixel / side
            &&& after.samples@[k].distance == frame.data[pixel]
        }),
{
    known_sizes(frame.frame_size);
    let known = side_of(frame.frame_size)->0;
    assert(known == side) by (nonlinear_arith)
        requires
            1 <= known,
            1 <= side,
            known * known == side * side,
    ;
    assert(side * side <= MAX_FRAME_SIZE);
    samples_are_counted(frame.data, side);
    every_pixel_is_shown(frame.data, side, pixel);
    vstd::arithmetic::div_mod::lemma_fundamental_div_mod(pixel, side);
    assert(0 <= pixel / side < side) by (nonlinear_arith)
        requires
            0 <= pixel < side * side,
            pixel == side * (pixel / side) + pixel % side,
            0 <= pixel % side < side,
    ;
}

/// Fitting a grid to a frame of an unknown size changes nothing. Fitting it to one of a known size
/// makes the triangles and colors anew where the number of pixels was another, and else keeps them.
pub proof fn fitted_grid_has_its_triangles(
    frame: FrameView,
    before: FrameMesh,
    after: FrameMesh,
    side: int,
)
    requires
        is_fitted(frame, before, after),
        1 <= side <= 100,
    ensures
        frame.frame_size != 625 && frame.frame_size != 2500 && frame.frame_size != 10000 ==> after
            == before,
        (frame.frame_size == 625 || frame.frame_size == 2500 || frame.frame_size == 10000) && side
            * side == frame.frame_size ==> {
            &&& before.samples@.len() == frame.frame_size ==> after.indices == before.indices
                && after.colors == before.colors
            &&& before.samples@.len() != frame.frame_size ==> after.indices@ == grid_indices(side)
                && after.colors@ == grid_colors(side)
        },
{
    known_sizes(frame.frame_size);
    if side_of(frame.frame_size) is Some && side * side == frame.frame_size {
        let known = side_of(frame.frame_size)->0;
        assert(known == side) by (nonlinear_arith)
            requires
                1 <= known,
                1 <= side,
                known * known == side * side,
        ;
    }
}

/// A consistent grid with the pixels of a known size has the triangles and colors of that size, and
/// one fitted to a frame stays consistent.
pub proof fn consistent_grid_has_its_triangles(
    frame: FrameView,
    mesh: FrameMesh,
    after: FrameMesh,
    side: int,
)
    requires
        is_consistent(mesh),
        is_fitted(frame, mesh, after),
        side == 25 || side == 50 || side == 100,
    ensures
        mesh.samples@.len() == side * side ==> mesh.indices@ == grid_indices(side) && mesh.colors@
            == grid_colors(side),
        frame.frame_size == side * side ==> after.indices@ == grid_indices(side) && after.colors@
            == grid_colors(side),
{
    let size = (if side == 25 { 625 } else if side == 50 { 2500 } else { 10000int }) as usize;
    known_sizes(size);
    assert(side_of(size) == Some(side));
    fitted_grid_has_its_triangles(frame, mesh, after, side);
}

} // verus!
