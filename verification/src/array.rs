//! The arrays of the `ndarray` crate that store the buffers, and what this
//! library takes for granted of them.
//!
//! Each array is held in a struct whose inside is hidden from the verifier.
//! What an array holds is named by two uninterpreted functions, its shape and
//! its elements in logical (row-major) order, and read through `@` as a
//! [`Raster`]: an element at index `[row, column, channel]` is the component
//! `(x, y, c)` of the raster with `x` the column and `y` the row. Every
//! function in this file is a direct call into `ndarray` whose contract is
//! assumed, not proved.

use crate::raster::Raster;
use vstd::prelude::*;

verus! {

/// An owned three-dimensional array of bytes (`ndarray::Array3<u8>`), indexed
/// by row, column and channel.
#[verifier::external_body]
#[derive(Debug, PartialEq)]
pub struct Array3 {
    inner: ndarray::Array3<u8>,
}

/// An owned two-dimensional array of bytes (`ndarray::Array2<u8>`), indexed by
/// row and column: one channel of a buffer.
#[verifier::external_body]
#[derive(Debug, PartialEq)]
pub struct Array2 {
    inner: ndarray::Array2<u8>,
}

/// The lengths of the three axes of an array: rows, columns, channels.
pub uninterp spec fn array3_shape(a: Array3) -> (nat, nat, nat);

/// The elements of an array in logical order: the last index varies fastest.
pub uninterp spec fn array3_elems(a: Array3) -> Seq<u8>;

/// The lengths of the two axes of an array: rows, columns.
pub uninterp spec fn array2_shape(a: Array2) -> (nat, nat);

/// The elements of an array in logical order: the last index varies fastest.
pub uninterp spec fn array2_elems(a: Array2) -> Seq<u8>;

/// A read-only window into an array (`ndarray::ArrayView3<u8>`): it borrows
/// the array and copies nothing.
#[verifier::external_body]
pub struct ArrayView3<'a> {
    inner: ndarray::ArrayView3<'a, u8>,
}

/// A window into an array through which its elements can be written
/// (`ndarray::ArrayViewMut3<u8>`): it borrows the array exclusively.
#[verifier::external_body]
pub struct ArrayViewMut3<'a> {
    inner: ndarray::ArrayViewMut3<'a, u8>,
}

/// A two-dimensional array of tiles (`ndarray::Array2` of arrays), indexed by
/// row and column of the grid.
#[verifier::external_body]
pub struct TileGrid {
    inner: ndarray::Array2<Array3>,
}

/// The lengths of the three axes of a window: rows, columns, channels.
pub uninterp spec fn view3_shape(v: ArrayView3) -> (nat, nat, nat);

/// The elements of a window in logical order: the last index varies fastest.
pub uninterp spec fn view3_elems(v: ArrayView3) -> Seq<u8>;

/// The lengths of the three axes of a window: rows, columns, channels.
pub uninterp spec fn view_mut3_shape(v: ArrayViewMut3) -> (nat, nat, nat);

/// The elements of a window in logical order: the last index varies fastest.
pub uninterp spec fn view_mut3_elems(v: ArrayViewMut3) -> Seq<u8>;

/// The numbers of rows and columns of a grid of tiles.
pub uninterp spec fn grid_shape(g: TileGrid) -> (nat, nat);

/// What the tiles of a grid hold, in logical order: row by row.
pub uninterp spec fn grid_tiles(g: TileGrid) -> Seq<Raster>;

impl<'a> View for ArrayView3<'a> {
    type V = Raster;

    open spec fn view(&self) -> Raster {
        Raster {
            height: view3_shape(*self).0,
            width: view3_shape(*self).1,
            channels: view3_shape(*self).2,
            data: view3_elems(*self),
        }
    }
}

impl<'a> View for ArrayViewMut3<'a> {
    type V = Raster;

    open spec fn view(&self) -> Raster {
        Raster {
            height: view_mut3_shape(*self).0,
            width: view_mut3_shape(*self).1,
            channels: view_mut3_shape(*self).2,
            data: view_mut3_elems(*self),
        }
    }
}

impl View for Array3 {
    type V = Raster;

    open spec fn view(&self) -> Raster {
        Raster {
            height: array3_shape(*self).0,
            width: array3_shape(*self).1,
            channels: array3_shape(*self).2,
            data: array3_elems(*self),
        }
    }
}

impl View for Array2 {
    type V = Raster;

    open spec fn view(&self) -> Raster {
        Raster {
            height: array2_shape(*self).0,
            width: array2_shape(*self).1,
            channels: 1,
            data: array2_elems(*self),
        }
    }
}

/// An axis length, with 1 in place of 0.
pub open spec fn non_zero(length: nat) -> nat {
    if length == 0 {
        1
    } else {
        length
    }
}

/// The product of the non-zero axis lengths does not exceed `isize::MAX`: the
/// condition under which `ndarray` accepts a shape.
pub open spec fn shape_fits(rows: nat, columns: nat, channels: nat) -> bool {
    non_zero(rows) * non_zero(columns) * non_zero(channels) <= isize::MAX
}

/// `ArrayBase::dim`: the lengths of the three axes. Every array has as many
/// elements as the product of its axis lengths, and a shape that `ndarray`
/// accepts.
#[verifier::external_body]
pub(crate) fn array3_dim(a: &Array3) -> (d: (usize, usize, usize))
    ensures
        array3_shape(*a) == (d.0 as nat, d.1 as nat, d.2 as nat),
        array3_elems(*a).len() == d.0 * d.1 * d.2,
        shape_fits(d.0 as nat, d.1 as nat, d.2 as nat),
{
    a.inner.dim()
}

/// `ArrayBase::zeros`: an array of the given shape whose elements are all
/// zero. It panics where the shape does not fit, which `requires` leaves out.
#[verifier::external_body]
pub(crate) fn array3_zeros(rows: usize, columns: usize, channels: usize) -> (a: Array3)
    requires
        shape_fits(rows as nat, columns as nat, channels as nat),
    ensures
        array3_shape(a) == (rows as nat, columns as nat, channels as nat),
        array3_elems(a).len() == rows * columns * channels,
        forall|i: int| 0 <= i < array3_elems(a).len() ==> array3_elems(a)[i] == 0,
{
    Array3 { inner: ndarray::Array3::zeros((rows, columns, channels)) }
}

/// `ArrayBase::from_shape_vec` with a plain shape: the array of that shape
/// whose elements in logical order are those of `v`. It fails where the shape
/// does not fit or asks for another number of elements than `v` has.
#[verifier::external_body]
pub(crate) fn array3_from_shape_vec(
    rows: usize,
    columns: usize,
    channels: usize,
    v: Vec<u8>,
) -> (a: Option<Array3>)
    ensures
        match a {
            Some(array) => {
                &&& shape_fits(rows as nat, columns as nat, channels as nat)
                &&& rows * columns * channels == v@.len()
                &&& array3_shape(array) == (rows as nat, columns as nat, channels as nat)
                &&& array3_elems(array) == v@
            },
            None => !(shape_fits(rows as nat, columns as nat, channels as nat) && rows * columns
                * channels == v@.len()),
        },
{
    ndarray::Array3::from_shape_vec((rows, columns, channels), v).ok().map(|inner| Array3 { inner })
}

/// `ArrayBase::iter`, copied into a vector: the elements in logical order.
#[verifier::external_body]
pub(crate) fn array3_to_vec(a: &Array3) -> (v: Vec<u8>)
    ensures
        v@ == array3_elems(*a),
{
    a.inner.iter().copied().collect()
}

/// `Clone` for `ArrayBase`: an array of the same shape and elements.
#[verifier::external_body]
pub(crate) fn array3_clone(a: &Array3) -> (b: Array3)
    ensures
        b@ == a@,
{
    Array3 { inner: a.inner.clone() }
}

/// `Index` for `ArrayBase`: the element at `[row, column, channel]`. It
/// panics on an index out of bounds, which `requires` leaves out.
#[verifier::external_body]
pub(crate) fn array3_get(a: &Array3, row: usize, column: usize, channel: usize) -> (value: u8)
    requires
        a@.has(column as int, row as int, channel as int),
    ensures
        value == a@.component(column as int, row as int, channel as int),
{
    a.inner[[row, column, channel]]
}

/// `IndexMut` for `ArrayBase`: replaces the element at
/// `[row, column, channel]` and no other. It panics on an index out of
/// bounds, which `requires` leaves out.
#[verifier::external_body]
pub(crate) fn array3_set(a: &mut Array3, row: usize, column: usize, channel: usize, value: u8)
    requires
        old(a)@.has(column as int, row as int, channel as int),
    ensures
        final(a)@ == old(a)@.with_component(column as int, row as int, channel as int, value),
{
    a.inner[[row, column, channel]] = value;
}

/// `ArrayBase::index_axis_mut` on the channel axis, then `ArrayBase::fill`:
/// sets the given channel of every pixel to `value` and changes nothing
/// else. It panics on a channel out of bounds, which `requires` leaves out.
#[verifier::external_body]
pub(crate) fn array3_fill_channel(a: &mut Array3, channel: usize, value: u8)
    requires
        channel < old(a)@.channels,
    ensures
        array3_shape(*final(a)) == array3_shape(*old(a)),
        final(a)@.data.len() == old(a)@.data.len(),
        forall|x: int, y: int, c: int|
            old(a)@.has(x, y, c) ==> #[trigger] final(a)@.component(x, y, c) == (if c == channel {
                value
            } else {
                old(a)@.component(x, y, c)
            }),
{
    a.inner.index_axis_mut(ndarray::Axis(2), channel).fill(value);
}

/// `ArrayBase::invert_axis` on the row axis (0) or the column axis (1):
/// reverses the order of the indices along that axis and keeps the shape.
#[verifier::external_body]
pub(crate) fn array3_invert_axis(a: &mut Array3, axis: usize)
    requires
        axis < 2,
    ensures
        array3_shape(*final(a)) == array3_shape(*old(a)),
        final(a)@.data.len() == old(a)@.data.len(),
        forall|x: int, y: int, c: int|
            old(a)@.has(x, y, c) ==> #[trigger] final(a)@.component(x, y, c) == old(a)@.component(
                if axis == 1 {
                    old(a)@.width - 1 - x
                } else {
                    x
                },
                if axis == 0 {
                    old(a)@.height - 1 - y
                } else {
                    y
                },
                c,
            ),
{
    a.inner.invert_axis(ndarray::Axis(axis));
}

/// `ArrayBase::permuted_axes` on a clone, then `ArrayBase::to_owned`, for the
/// permutation `[1, 0, 2]` that exchanges rows and columns: the result holds
/// at `[row, column, channel]` what `a` holds at `[column, row, channel]`.
#[verifier::external_body]
pub(crate) fn array3_permuted_axes(a: &Array3, axes: [usize; 3]) -> (b: Array3)
    requires
        axes[0] == 1,
        axes[1] == 0,
        axes[2] == 2,
    ensures
        array3_shape(b) == (array3_shape(*a).1, array3_shape(*a).0, array3_shape(*a).2),
        b@.data.len() == a@.data.len(),
        forall|x: int, y: int, c: int|
            b@.has(x, y, c) ==> #[trigger] b@.component(x, y, c) == a@.component(y, x, c),
{
    Array3 { inner: a.inner.clone().permuted_axes(axes).to_owned() }
}

/// The rows `first_row..end_row` and the columns `first_column..end_column`
/// fit in a raster.
pub open spec fn ranges_fit(
    r: Raster,
    first_row: int,
    end_row: int,
    first_column: int,
    end_column: int,
) -> bool {
    &&& 0 <= first_row <= end_row <= r.height
    &&& 0 <= first_column <= end_column <= r.width
}

/// What a slice of `source` holds: the shape is that of the two ranges and
/// the element at `[row, column, channel]` is the one that the source holds
/// at `[first_row + row, first_column + column, channel]`.
pub open spec fn is_slice_of(
    part: Raster,
    source: Raster,
    first_row: int,
    end_row: int,
    first_column: int,
    end_column: int,
) -> bool {
    &&& part.height == end_row - first_row
    &&& part.width == end_column - first_column
    &&& part.channels == source.channels
    &&& part.data.len() == part.height * part.width * part.channels
    &&& forall|x: int, y: int, c: int|
        part.has(x, y, c) ==> #[trigger] part.component(x, y, c) == source.component(
            first_column + x,
            first_row + y,
            c,
        )
}

/// `ArrayBase::slice_axis` on the row axis and on the column axis, each with
/// a range of step one, then `ArrayBase::to_owned`: a copy of the rows
/// `first_row..end_row` and columns `first_column..end_column`. It panics
/// on a range that ends past the axis, which `requires` leaves out.
#[verifier::external_body]
pub(crate) fn array3_slice_owned(
    a: &Array3,
    first_row: usize,
    end_row: usize,
    first_column: usize,
    end_column: usize,
) -> (b: Array3)
    requires
        ranges_fit(a@, first_row as int, end_row as int, first_column as int, end_column as int),
    ensures
        is_slice_of(
            b@,
            a@,
            first_row as int,
            end_row as int,
            first_column as int,
            end_column as int,
        ),
{
    let rows = a.inner.slice_axis(ndarray::Axis(0), ndarray::Slice::from(first_row..end_row));
    let part = rows.slice_axis(ndarray::Axis(1), ndarray::Slice::from(first_column..end_column));
    Array3 { inner: part.to_owned() }
}

/// `ArrayBase::index_axis` on the channel axis, then `ArrayBase::to_owned`:
/// a copy of one channel, which holds at `[row, column]` what `a` holds at
/// `[row, column, channel]`. It panics on a channel out of bounds, which
/// `requires` leaves out.
#[verifier::external_body]
pub(crate) fn array3_layer(a: &Array3, channel: usize) -> (layer: Array2)
    requires
        channel < a@.channels,
    ensures
        array2_shape(layer) == (array3_shape(*a).0, array3_shape(*a).1),
        array2_elems(layer).len() == array3_shape(*a).0 * array3_shape(*a).1,
        forall|x: int, y: int|
            a@.has_pixel(x, y) ==> #[trigger] layer@.component(x, y, 0) == a@.component(
                x,
                y,
                channel as int,
            ),
{
    Array2 { inner: a.inner.index_axis(ndarray::Axis(2), channel).to_owned() }
}

/// The rasters that the arrays of a slice hold, in order.
pub open spec fn layer_views(layers: Seq<Array2>) -> Seq<Raster> {
    Seq::new(layers.len(), |k: int| layers[k]@)
}

/// The layers are at least one and all have the shape of the first.
pub open spec fn same_shapes(layers: Seq<Array2>) -> bool {
    &&& layers.len() > 0
    &&& forall|k: int|
        0 <= k < layers.len() ==> array2_shape(#[trigger] layers[k]) == array2_shape(layers[0])
}

/// `ndarray::stack` along a new last axis, on views of the layers: the array
/// that holds at `[row, column, k]` what layer `k` holds at `[row, column]`.
/// It fails where there is no layer, where a layer's shape differs from the
/// first one's, or where the stacked shape does not fit.
#[verifier::external_body]
pub(crate) fn array3_stack(layers: &[Array2]) -> (a: Option<Array3>)
    ensures
        match a {
            Some(array) => {
                &&& same_shapes(layers@)
                &&& array3_shape(array) == (
                    array2_shape(layers@[0]).0,
                    array2_shape(layers@[0]).1,
                    layers@.len(),
                )
                &&& array3_elems(array).len() == array@.height * array@.width * array@.channels
                &&& forall|x: int, y: int, c: int|
                    array@.has(x, y, c) ==> #[trigger] array@.component(x, y, c)
                        == layers@[c]@.component(x, y, 0)
            },
            None => !(same_shapes(layers@) && shape_fits(
                array2_shape(layers@[0]).0,
                array2_shape(layers@[0]).1,
                layers@.len(),
            )),
        },
{
    let views: Vec<ndarray::ArrayView2<'_, u8>> = layers.iter().map(|l| l.inner.view()).collect();
    ndarray::stack(ndarray::Axis(2), &views).ok().map(|inner| Array3 { inner })
}

/// `ArrayBase::dim`: the lengths of the two axes. Every array has as many
/// elements as the product of its axis lengths, and a shape that `ndarray`
/// accepts.
#[verifier::external_body]
pub(crate) fn array2_dim(a: &Array2) -> (d: (usize, usize))
    ensures
        array2_shape(*a) == (d.0 as nat, d.1 as nat),
        array2_elems(*a).len() == d.0 * d.1,
        shape_fits(d.0 as nat, d.1 as nat, 1),
{
    a.inner.dim()
}

/// `ArrayBase::from_shape_vec` with a plain shape: the array of that shape
/// whose elements in logical order are those of `v`. It fails where the shape
/// does not fit or asks for another number of elements than `v` has.
#[verifier::external_body]
pub(crate) fn array2_from_shape_vec(rows: usize, columns: usize, v: Vec<u8>) -> (a: Option<Array2>)
    ensures
        match a {
            Some(array) => {
                &&& shape_fits(rows as nat, columns as nat, 1)
                &&& rows * columns == v@.len()
                &&& array2_shape(array) == (rows as nat, columns as nat)
                &&& array2_elems(array) == v@
            },
            None => !(shape_fits(rows as nat, columns as nat, 1) && rows * columns == v@.len()),
        },
{
    ndarray::Array2::from_shape_vec((rows, columns), v).ok().map(|inner| Array2 { inner })
}

/// `Index` for `ArrayBase`: the element at `[row, column]`. It panics on an
/// index out of bounds, which `requires` leaves out.
#[verifier::external_body]
pub(crate) fn array2_get(a: &Array2, row: usize, column: usize) -> (value: u8)
    requires
        a@.has_pixel(column as int, row as int),
    ensures
        value == a@.component(column as int, row as int, 0),
{
    a.inner[[row, column]]
}

/// `Clone` for `ArrayBase`: an array of the same shape and elements.
#[verifier::external_body]
pub(crate) fn array2_clone(a: &Array2) -> (b: Array2)
    ensures
        b@ == a@,
{
    Array2 { inner: a.inner.clone() }
}

/// `num_traits::One::one` for `u8`: the multiplicative identity.
#[verifier::external_body]
pub(crate) fn one() -> (value: u8)
    ensures
        value == 1,
{
    num_traits::One::one()
}

/// `ArrayBase::view`, then `ArrayBase::slice_axis_inplace` on the row axis and
/// on the column axis, each with a range of step one: a window on the rows
/// `first_row..end_row` and columns `first_column..end_column`. It panics on
/// a range that ends past the axis, which `requires` leaves out.
#[verifier::external_body]
pub(crate) fn array3_view<'a>(
    a: &'a Array3,
    first_row: usize,
    end_row: usize,
    first_column: usize,
    end_column: usize,
) -> (v: ArrayView3<'a>)
    requires
        ranges_fit(a@, first_row as int, end_row as int, first_column as int, end_column as int),
    ensures
        is_slice_of(
            v@,
            a@,
            first_row as int,
            end_row as int,
            first_column as int,
            end_column as int,
        ),
{
    let mut part = a.inner.view();
    part.slice_axis_inplace(ndarray::Axis(0), ndarray::Slice::from(first_row..end_row));
    part.slice_axis_inplace(ndarray::Axis(1), ndarray::Slice::from(first_column..end_column));
    ArrayView3 { inner: part }
}

/// `ArrayBase::view_mut`, then `ArrayBase::slice_axis_inplace` on the row
/// axis and on the column axis, each with a range of step one: a writable
/// window on the rows `first_row..end_row` and columns
/// `first_column..end_column`. Whatever is written through the window, the
/// array keeps its shape and its elements outside the window. It panics on a
/// range that ends past the axis, which `requires` leaves out.
#[verifier::external_body]
pub(crate) fn array3_view_mut<'a>(
    a: &'a mut Array3,
    first_row: usize,
    end_row: usize,
    first_column: usize,
    end_column: usize,
) -> (v: ArrayViewMut3<'a>)
    requires
        ranges_fit(
            old(a)@,
            first_row as int,
            end_row as int,
            first_column as int,
            end_column as int,
        ),
    ensures
        is_slice_of(
            v@,
            old(a)@,
            first_row as int,
            end_row as int,
            first_column as int,
            end_column as int,
        ),
        array3_shape(*final(a)) == array3_shape(*old(a)),
        final(a)@.data.len() == old(a)@.data.len(),
        forall|x: int, y: int, c: int|
            old(a)@.has(x, y, c) && !(first_column <= x < end_column && first_row <= y < end_row)
                ==> #[trigger] final(a)@.component(x, y, c) == old(a)@.component(x, y, c),
{
    let mut part = a.inner.view_mut();
    part.slice_axis_inplace(ndarray::Axis(0), ndarray::Slice::from(first_row..end_row));
    part.slice_axis_inplace(ndarray::Axis(1), ndarray::Slice::from(first_column..end_column));
    ArrayViewMut3 { inner: part }
}

/// `ArrayBase::dim` of a window: the lengths of its three axes. A window has
/// as many elements as the product of its axis lengths.
#[verifier::external_body]
pub(crate) fn view3_dim(v: &ArrayView3) -> (d: (usize, usize, usize))
    ensures
        view3_shape(*v) == (d.0 as nat, d.1 as nat, d.2 as nat),
        view3_elems(*v).len() == d.0 * d.1 * d.2,
{
    v.inner.dim()
}

/// `Index` for `ArrayBase`: the element of a window at
/// `[row, column, channel]`. It panics on an index out of bounds, which
/// `requires` leaves out.
#[verifier::external_body]
pub(crate) fn view3_get(v: &ArrayView3, row: usize, column: usize, channel: usize) -> (value: u8)
    requires
        v@.has(column as int, row as int, channel as int),
    ensures
        value == v@.component(column as int, row as int, channel as int),
{
    v.inner[[row, column, channel]]
}

/// `ArrayBase::dim` of a writable window: the lengths of its three axes. A
/// window has as many elements as the product of its axis lengths.
#[verifier::external_body]
pub(crate) fn view_mut3_dim(v: &ArrayViewMut3) -> (d: (usize, usize, usize))
    ensures
        view_mut3_shape(*v) == (d.0 as nat, d.1 as nat, d.2 as nat),
        view_mut3_elems(*v).len() == d.0 * d.1 * d.2,
{
    v.inner.dim()
}

/// `Index` for `ArrayBase`: the element of a writable window at
/// `[row, column, channel]`. It panics on an index out of bounds, which
/// `requires` leaves out.
#[verifier::external_body]
pub(crate) fn view_mut3_get(
    v: &ArrayViewMut3,
    row: usize,
    column: usize,
    channel: usize,
) -> (value: u8)
    requires
        v@.has(column as int, row as int, channel as int),
    ensures
        value == v@.component(column as int, row as int, channel as int),
{
    v.inner[[row, column, channel]]
}

/// `IndexMut` for `ArrayBase`: replaces the element of a writable window at
/// `[row, column, channel]` and no other. It panics on an index out of
/// bounds, which `requires` leaves out.
#[verifier::external_body]
pub(crate) fn view_mut3_set(
    v: &mut ArrayViewMut3,
    row: usize,
    column: usize,
    channel: usize,
    value: u8,
)
    requires
        old(v)@.has(column as int, row as int, channel as int),
    ensures
        final(v)@ == old(v)@.with_component(column as int, row as int, channel as int, value),
{
    v.inner[[row, column, channel]] = value;
}

/// What the arrays of a vector hold, in order.
pub open spec fn rasters_of(tiles: Seq<Array3>) -> Seq<Raster> {
    Seq::new(tiles.len(), |i: int| tiles[i]@)
}

/// `ArrayBase::from_shape_vec` with a plain shape: the grid of `rows` by
/// `columns` tiles whose tiles in logical order are those of `tiles`. It
/// fails where the shape does not fit or asks for another number of tiles
/// than the vector has.
#[verifier::external_body]
pub(crate) fn grid_from_shape_vec(
    rows: usize,
    columns: usize,
    tiles: Vec<Array3>,
) -> (g: Option<TileGrid>)
    ensures
        match g {
            Some(grid) => {
                &&& shape_fits(rows as nat, columns as nat, 1)
                &&& rows * columns == tiles@.len()
                &&& grid_shape(grid) == (rows as nat, columns as nat)
                &&& grid_tiles(grid) == rasters_of(tiles@)
            },
            None => !(shape_fits(rows as nat, columns as nat, 1) && rows * columns
                == tiles@.len()),
        },
{
    ndarray::Array2::from_shape_vec((rows, columns), tiles).ok().map(|inner| TileGrid { inner })
}

/// `ArrayBase::dim` of a grid: its numbers of rows and columns. A grid has
/// as many tiles as the product of the two.
#[verifier::external_body]
pub(crate) fn grid_dim(g: &TileGrid) -> (d: (usize, usize))
    ensures
        grid_shape(*g) == (d.0 as nat, d.1 as nat),
        grid_tiles(*g).len() == d.0 * d.1,
{
    g.inner.dim()
}

/// `Index` for `ArrayBase`: the tile at `[row, column]` of a grid. It panics
/// on an index out of bounds, which `requires` leaves out.
#[verifier::external_body]
pub(crate) fn grid_get(g: &TileGrid, row: usize, column: usize) -> (tile: &Array3)
    requires
        row < grid_shape(*g).0,
        column < grid_shape(*g).1,
    ensures
        tile@ == grid_tiles(*g)[row * grid_shape(*g).1 + column],
{
    &g.inner[[row, column]]
}

} // verus!
