//! Building and reading the arrays that store buffers, layers, views and
//! grids of tiles.

use crate::array::{
    array2_clone, array2_dim, array2_from_shape_vec, array2_get, array3_clone, array3_dim,
    array3_from_shape_vec, array3_get, array3_to_vec, grid_dim, grid_get, grid_shape, grid_tiles,
    shape_fits, view3_dim,
    view3_get, view_mut3_dim, view_mut3_get, view_mut3_set, Array2, Array3, ArrayView3,
    ArrayViewMut3, TileGrid,
};
use crate::raster::Raster;
use vstd::prelude::*;

verus! {

/// Whether a shape of non-zero lengths fits, and its number of elements if it
/// does.
fn checked_size(rows: usize, columns: usize, channels: usize) -> (size: Option<usize>)
    requires
        rows > 0,
        columns > 0,
        channels > 0,
    ensures
        size is Some <==> shape_fits(rows as nat, columns as nat, channels as nat),
        size is Some ==> size->0 == rows * columns * channels,
{
    let limit: usize = isize::MAX as usize;
    if rows > limit / columns {
        assert(rows * columns * channels > isize::MAX) by (nonlinear_arith)
            requires
                rows > (isize::MAX as int) / (columns as int),
                columns > 0,
                channels > 0,
        ;
        return None;
    }
    assert(rows * columns <= isize::MAX) by (nonlinear_arith)
        requires
            rows <= (isize::MAX as int) / (columns as int),
            columns > 0,
    ;
    let plane: usize = rows * columns;
    if plane > limit / channels {
        assert(plane * channels > isize::MAX) by (nonlinear_arith)
            requires
                plane > (isize::MAX as int) / (channels as int),
                channels > 0,
        ;
        return None;
    }
    assert(plane * channels <= isize::MAX) by (nonlinear_arith)
        requires
            plane <= (isize::MAX as int) / (channels as int),
            channels > 0,
    ;
    Some(plane * channels)
}

impl Array3 {
    /// The array of `shape.0` rows, `shape.1` columns and `shape.2` channels
    /// whose elements, the channel varying fastest and the row slowest, are
    /// those of `elements`; `None` unless every length is positive, the
    /// vector has one element for each index, and their number does not
    /// exceed `isize::MAX`.
    pub fn from_shape_vec(shape: (usize, usize, usize), elements: Vec<u8>) -> (array: Option<
        Array3,
    >)
        ensures
            array is Some <==> shape.0 > 0 && shape.1 > 0 && shape.2 > 0 && shape.0 * shape.1
                * shape.2 == elements@.len() && elements@.len() <= isize::MAX,
            array is Some ==> array->0@ == (Raster {
                height: shape.0 as nat,
                width: shape.1 as nat,
                channels: shape.2 as nat,
                data: elements@,
            }),
    {
        if shape.0 == 0 || shape.1 == 0 || shape.2 == 0 {
            return None;
        }
        match checked_size(shape.0, shape.1, shape.2) {
            Some(size) => {
                if size != elements.len() {
                    return None;
                }
            },
            None => {
                return None;
            },
        }
        array3_from_shape_vec(shape.0, shape.1, shape.2, elements)
    }

    /// The numbers of rows, columns and channels.
    pub fn dim(&self) -> (shape: (usize, usize, usize))
        ensures
            shape.0 == self@.height,
            shape.1 == self@.width,
            shape.2 == self@.channels,
            self@.wf(),
    {
        array3_dim(self)
    }

    /// The element at `[row, column, channel]`, or `None` where the index is
    /// out of bounds.
    pub fn get(&self, index: [usize; 3]) -> (value: Option<u8>)
        ensures
            value is Some <==> self@.has(index[1] as int, index[0] as int, index[2] as int),
            value is Some ==> value->0 == self@.component(
                index[1] as int,
                index[0] as int,
                index[2] as int,
            ),
    {
        let shape = array3_dim(self);
        if index[0] < shape.0 && index[1] < shape.1 && index[2] < shape.2 {
            Some(array3_get(self, index[0], index[1], index[2]))
        } else {
            None
        }
    }

    /// The elements, the channel varying fastest and the row slowest.
    pub fn to_vec(&self) -> (elements: Vec<u8>)
        ensures
            elements@ == self@.data,
    {
        array3_to_vec(self)
    }
}

impl Clone for Array3 {
    /// An array of the same shape and elements.
    fn clone(&self) -> (copy: Self)
        ensures
            copy@ == self@,
    {
        array3_clone(self)
    }
}

impl Array2 {
    /// The array of `shape.0` rows and `shape.1` columns whose elements, row
    /// by row, are those of `elements`; `None` unless both lengths are
    /// positive, the vector has one element for each index, and their number
    /// does not exceed `isize::MAX`.
    pub fn from_shape_vec(shape: (usize, usize), elements: Vec<u8>) -> (array: Option<Array2>)
        ensures
            array is Some <==> shape.0 > 0 && shape.1 > 0 && shape.0 * shape.1 == elements@.len()
                && elements@.len() <= isize::MAX,
            array is Some ==> array->0@ == (Raster {
                height: shape.0 as nat,
                width: shape.1 as nat,
                channels: 1,
                data: elements@,
            }),
    {
        if shape.0 == 0 || shape.1 == 0 {
            return None;
        }
        match checked_size(shape.0, shape.1, 1) {
            Some(size) => {
                if size != elements.len() {
                    return None;
                }
            },
            None => {
                return None;
            },
        }
        array2_from_shape_vec(shape.0, shape.1, elements)
    }

    /// The numbers of rows and columns.
    pub fn dim(&self) -> (shape: (usize, usize))
        ensures
            shape.0 == self@.height,
            shape.1 == self@.width,
            self@.wf(),
    {
        array2_dim(self)
    }

    /// The element at `[row, column]`, or `None` where the index is out of
    /// bounds.
    pub fn get(&self, index: [usize; 2]) -> (value: Option<u8>)
        ensures
            value is Some <==> self@.has_pixel(index[1] as int, index[0] as int),
            value is Some ==> value->0 == self@.component(index[1] as int, index[0] as int, 0),
    {
        let shape = array2_dim(self);
        if index[0] < shape.0 && index[1] < shape.1 {
            Some(array2_get(self, index[0], index[1]))
        } else {
            None
        }
    }
}

impl Clone for Array2 {
    /// An array of the same shape and elements.
    fn clone(&self) -> (copy: Self)
        ensures
            copy@ == self@,
    {
        array2_clone(self)
    }
}

impl<'a> ArrayView3<'a> {
    /// The numbers of rows, columns and channels.
    pub fn dim(&self) -> (shape: (usize, usize, usize))
        ensures
            shape.0 == self@.height,
            shape.1 == self@.width,
            shape.2 == self@.channels,
            self@.wf(),
    {
        view3_dim(self)
    }

    /// The element at `[row, column, channel]`, or `None` where the index is
    /// out of bounds.
    pub fn get(&self, index: [usize; 3]) -> (value: Option<u8>)
        ensures
            value is Some <==> self@.has(index[1] as int, index[0] as int, index[2] as int),
            value is Some ==> value->0 == self@.component(
                index[1] as int,
                index[0] as int,
                index[2] as int,
            ),
    {
        let shape = view3_dim(self);
        if index[0] < shape.0 && index[1] < shape.1 && index[2] < shape.2 {
            Some(view3_get(self, index[0], index[1], index[2]))
        } else {
            None
        }
    }
}

impl<'a> ArrayViewMut3<'a> {
    /// The numbers of rows, columns and channels.
    pub fn dim(&self) -> (shape: (usize, usize, usize))
        ensures
            shape.0 == self@.height,
            shape.1 == self@.width,
            shape.2 == self@.channels,
            self@.wf(),
    {
        view_mut3_dim(self)
    }

    /// The element at `[row, column, channel]`, or `None` where the index is
    /// out of bounds.
    pub fn get(&self, index: [usize; 3]) -> (value: Option<u8>)
        ensures
            value is Some <==> self@.has(index[1] as int, index[0] as int, index[2] as int),
            value is Some ==> value->0 == self@.component(
                index[1] as int,
                index[0] as int,
                index[2] as int,
            ),
    {
        let shape = view_mut3_dim(self);
        if index[0] < shape.0 && index[1] < shape.1 && index[2] < shape.2 {
            Some(view_mut3_get(self, index[0], index[1], index[2]))
        } else {
            None
        }
    }

    /// Replaces the element at `[row, column, channel]` and says so; leaves
    /// the window as it is where the index is out of bounds.
    pub fn set(&mut self, index: [usize; 3], value: u8) -> (written: bool)
        ensures
            written <==> old(self)@.has(index[1] as int, index[0] as int, index[2] as int),
            written ==> final(self)@ == old(self)@.with_component(
                index[1] as int,
                index[0] as int,
                index[2] as int,
                value,
            ),
            !written ==> final(self)@ == old(self)@,
    {
        let shape = view_mut3_dim(self);
        if index[0] < shape.0 && index[1] < shape.1 && index[2] < shape.2 {
            view_mut3_set(self, index[0], index[1], index[2], value);
            true
        } else {
            false
        }
    }
}

impl TileGrid {
    /// The number of rows of the grid.
    pub open spec fn rows(&self) -> nat {
        grid_shape(*self).0
    }

    /// The number of columns of the grid.
    pub open spec fn columns(&self) -> nat {
        grid_shape(*self).1
    }

    /// What the tiles hold, row by row.
    pub open spec fn tiles(&self) -> Seq<Raster> {
        grid_tiles(*self)
    }

    /// What the tile in column `column` of row `row` holds.
    pub open spec fn tile(&self, column: int, row: int) -> Raster {
        grid_tiles(*self)[row * self.columns() + column]
    }

    /// The numbers of rows and columns of the grid.
    pub fn dim(&self) -> (shape: (usize, usize))
        ensures
            shape.0 == self.rows(),
            shape.1 == self.columns(),
            self.tiles().len() == self.rows() * self.columns(),
    {
        grid_dim(self)
    }

    /// The tile at `[row, column]` of the grid, or `None` where the index is
    /// out of bounds.
    pub fn get(&self, index: [usize; 2]) -> (tile: Option<&Array3>)
        ensures
            tile is Some <==> index[0] < self.rows() && index[1] < self.columns(),
            tile is Some ==> tile->0@ == self.tile(index[1] as int, index[0] as int),
    {
        let shape = grid_dim(self);
        if index[0] < shape.0 && index[1] < shape.1 {
            Some(grid_get(self, index[0], index[1]))
        } else {
            None
        }
    }
}

} // verus!
