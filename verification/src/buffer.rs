//! The operations on a buffer that the three pixel formats share.

use crate::array::{
    array2_shape, array3_clone, array3_dim, array3_fill_channel, array3_get, array3_invert_axis,
    array3_layer, array3_permuted_axes, array3_set, array3_slice_owned, array3_stack,
    array3_to_vec, array3_view, array3_view_mut, array3_zeros, grid_from_shape_vec, layer_views,
    non_zero, one, rasters_of, same_shapes, Array2, Array3, ArrayView3, ArrayViewMut3, TileGrid,
};
use crate::frequency::{
    is_group, is_tally, is_tally_of, key_views, keys_tell_apart, lemma_tally_by_key, tally, total,
};
use crate::raster::{
    lemma_flipped_horizontal, lemma_flipped_vertical, lemma_interleaved, lemma_layer,
    lemma_offset_in_range, lemma_same_components, lemma_tile, lemma_tile_at, lemma_tile_counts,
    lemma_tile_is_window, lemma_tile_position, lemma_transposed, lemma_uniform, lemma_window,
    lemma_with_component, lemma_with_pixel, Raster,
};
use vstd::prelude::*;

verus! {

/// A buffer of `width` by `height` pixels whose components are all zero; in
/// an `opaque` one the last component of each pixel is one instead.
pub(crate) fn blank(width: usize, height: usize, channels: usize, opaque: bool) -> (data: Array3)
    requires
        width > 0,
        height > 0,
        channels > 0,
        height * width * channels <= isize::MAX,
    ensures
        data@ == Raster::uniform(
            height as nat,
            width as nat,
            Raster::blank_pixel(channels as nat, opaque),
        ),
{
    let mut data = array3_zeros(height, width, channels);
    proof {
        assert forall|x: int, y: int, c: int| data@.has(x, y, c) implies data@.component(x, y, c)
            == 0 by {
            lemma_offset_in_range(height as nat, width as nat, channels as nat, x, y, c);
        }
    }
    if opaque {
        array3_fill_channel(&mut data, channels - 1, one());
    }
    proof {
        let pixel = Raster::blank_pixel(channels as nat, opaque);
        let target = Raster::uniform(height as nat, width as nat, pixel);
        lemma_uniform(height as nat, width as nat, pixel);
        assert forall|x: int, y: int, c: int| data@.has(x, y, c) implies data@.component(x, y, c)
            == target.component(x, y, c) by {
            assert(target.has(x, y, c));
        }
        lemma_same_components(data@, target);
    }
    data
}

/// A buffer of `width` by `height` pixels that all equal `pixel`.
pub(crate) fn filled(width: usize, height: usize, pixel: &[u8]) -> (data: Array3)
    requires
        width > 0,
        height > 0,
        pixel@.len() > 0,
        height * width * pixel@.len() <= isize::MAX,
    ensures
        data@ == Raster::uniform(height as nat, width as nat, pixel@),
{
    let channels = pixel.len();
    let mut data = array3_zeros(height, width, channels);
    let mut k: usize = 0;
    while k < channels
        invariant
            0 <= k <= channels,
            channels == pixel@.len(),
            data@.wf(),
            data@.height == height,
            data@.width == width,
            data@.channels == channels,
            forall|x: int, y: int, c: int|
                data@.has(x, y, c) && c < k ==> #[trigger] data@.component(x, y, c) == pixel@[c],
        decreases channels - k,
    {
        array3_fill_channel(&mut data, k, pixel[k]);
        k = k + 1;
    }
    proof {
        let target = Raster::uniform(height as nat, width as nat, pixel@);
        lemma_uniform(height as nat, width as nat, pixel@);
        assert forall|x: int, y: int, c: int| data@.has(x, y, c) implies data@.component(x, y, c)
            == target.component(x, y, c) by {
            assert(target.has(x, y, c));
        }
        lemma_same_components(data@, target);
    }
    data
}

/// The component `channel` of the pixel at `coords`.
pub(crate) fn get_component(data: &Array3, coords: [usize; 2], channel: usize) -> (value: u8)
    requires
        data@.has(coords[0] as int, coords[1] as int, channel as int),
    ensures
        value == data@.component(coords[0] as int, coords[1] as int, channel as int),
{
    array3_get(data, coords[1], coords[0], channel)
}

/// Replaces the component `channel` of the pixel at `coords`.
pub(crate) fn set_component(data: &mut Array3, coords: [usize; 2], channel: usize, value: u8)
    requires
        old(data)@.has(coords[0] as int, coords[1] as int, channel as int),
    ensures
        final(data)@ == old(data)@.with_component(
            coords[0] as int,
            coords[1] as int,
            channel as int,
            value,
        ),
{
    array3_set(data, coords[1], coords[0], channel, value);
}

/// The components of the pixel at `coords`.
pub(crate) fn get_pixel<const N: usize>(data: &Array3, coords: [usize; 2]) -> (pixel: [u8; N])
    requires
        data@.has_pixel(coords[0] as int, coords[1] as int),
        data@.channels == N,
    ensures
        pixel@ == data@.pixel(coords[0] as int, coords[1] as int),
{
    let mut pixel = [0u8; N];
    let mut c: usize = 0;
    while c < N
        invariant
            0 <= c <= N,
            data@.has_pixel(coords[0] as int, coords[1] as int),
            data@.channels == N,
            forall|k: int|
                0 <= k < c ==> pixel@[k] == data@.component(
                    coords[0] as int,
                    coords[1] as int,
                    k,
                ),
        decreases N - c,
    {
        pixel[c] = array3_get(data, coords[1], coords[0], c);
        c = c + 1;
    }
    proof {
        assert(pixel@ =~= data@.pixel(coords[0] as int, coords[1] as int));
    }
    pixel
}

/// Replaces the components of the pixel at `coords`.
pub(crate) fn set_pixel<const N: usize>(data: &mut Array3, coords: [usize; 2], pixel: [u8; N])
    requires
        old(data)@.wf(),
        old(data)@.has_pixel(coords[0] as int, coords[1] as int),
        old(data)@.channels == N,
    ensures
        final(data)@ == old(data)@.with_pixel(coords[0] as int, coords[1] as int, pixel@),
{
    let ghost x = coords[0] as int;
    let ghost y = coords[1] as int;
    let mut c: usize = 0;
    while c < N
        invariant
            0 <= c <= N,
            x == coords[0],
            y == coords[1],
            data@.wf(),
            data@.height == old(data)@.height,
            data@.width == old(data)@.width,
            data@.channels == N,
            data@.has_pixel(x, y),
            forall|i: int, j: int, k: int|
                data@.has(i, j, k) ==> #[trigger] data@.component(i, j, k) == (if i == x && j == y
                    && k < c {
                    pixel@[k]
                } else {
                    old(data)@.component(i, j, k)
                }),
        decreases N - c,
    {
        let ghost before = data@;
        array3_set(data, coords[1], coords[0], c, pixel[c]);
        proof {
            lemma_with_component(before, x, y, c as int, pixel@[c as int]);
            assert forall|i: int, j: int, k: int| data@.has(i, j, k) implies #[trigger]
                data@.component(i, j, k) == (if i == x && j == y && k < c + 1 {
                pixel@[k]
            } else {
                old(data)@.component(i, j, k)
            }) by {
                assert(before.has(i, j, k));
            }
        }
        c = c + 1;
    }
    proof {
        let target = old(data)@.with_pixel(x, y, pixel@);
        lemma_with_pixel(old(data)@, x, y, pixel@);
        assert forall|i: int, j: int, k: int| data@.has(i, j, k) implies data@.component(i, j, k)
            == target.component(i, j, k) by {
            assert(old(data)@.has(i, j, k));
        }
        lemma_same_components(data@, target);
    }
}

/// A copy of one channel of the buffer.
pub(crate) fn get_layer(data: &Array3, channel: usize) -> (layer: Array2)
    requires
        data@.wf(),
        channel < data@.channels,
    ensures
        layer@ == data@.layer(channel as int),
{
    let layer = array3_layer(data, channel);
    proof {
        let target = data@.layer(channel as int);
        lemma_layer(data@, channel as int);
        assert forall|x: int, y: int, c: int| layer@.has(x, y, c) implies layer@.component(x, y, c)
            == target.component(x, y, c) by {
            assert(data@.has_pixel(x, y));
        }
        lemma_same_components(layer@, target);
    }
    layer
}

/// The layers are at least one and have a single shape, which is not empty.
pub open spec fn layers_agree(layers: Seq<Array2>) -> bool {
    &&& layers.len() > 0
    &&& layers[0]@.height > 0
    &&& layers[0]@.width > 0
    &&& forall|k: int|
        0 <= k < layers.len() ==> (#[trigger] layers[k])@.height == layers[0]@.height
            && layers[k]@.width == layers[0]@.width
}

/// The buffer whose channel `k` is `layers[k]`.
pub(crate) fn from_layers(layers: &[Array2]) -> (data: Array3)
    requires
        layers_agree(layers@),
        layers@[0]@.height * layers@[0]@.width * layers@.len() <= isize::MAX,
    ensures
        data@ == Raster::interleaved(
            layer_views(layers@),
            layers@[0]@.height,
            layers@[0]@.width,
        ),
{
    let ghost height = layers@[0]@.height;
    let ghost width = layers@[0]@.width;
    proof {
        assert(same_shapes(layers@)) by {
            assert forall|k: int| 0 <= k < layers@.len() implies array2_shape(
                #[trigger] layers@[k],
            ) == array2_shape(layers@[0]) by {
                assert(layers@[k]@.height == height);
            }
        }
    }
    let stacked = array3_stack(layers);
    let data = stacked.unwrap();
    proof {
        let target = Raster::interleaved(layer_views(layers@), height, width);
        lemma_interleaved(layer_views(layers@), height, width);
        assert forall|x: int, y: int, c: int| data@.has(x, y, c) implies data@.component(x, y, c)
            == target.component(x, y, c) by {
            assert(target.has(x, y, c));
        }
        lemma_same_components(data@, target);
    }
    data
}

/// Exchanges the rows and the columns.
pub(crate) fn transpose(data: &mut Array3)
    requires
        old(data)@.wf(),
    ensures
        final(data)@ == old(data)@.transposed(),
{
    let turned = array3_permuted_axes(data, [1, 0, 2]);
    proof {
        let target = data@.transposed();
        lemma_transposed(data@);
        assert(turned@.wf()) by (nonlinear_arith)
            requires
                data@.wf(),
                turned@.data.len() == data@.data.len(),
                turned@.height == data@.width,
                turned@.width == data@.height,
                turned@.channels == data@.channels,
        ;
        assert forall|x: int, y: int, c: int| turned@.has(x, y, c) implies turned@.component(
            x,
            y,
            c,
        ) == target.component(x, y, c) by {
            assert(target.has(x, y, c));
        }
        lemma_same_components(turned@, target);
    }
    *data = turned;
}

/// Reverses the order of the rows.
pub(crate) fn flip_vertical(data: &mut Array3)
    requires
        old(data)@.wf(),
    ensures
        final(data)@ == old(data)@.flipped_vertical(),
{
    array3_invert_axis(data, 0);
    proof {
        let target = old(data)@.flipped_vertical();
        lemma_flipped_vertical(old(data)@);
        assert forall|x: int, y: int, c: int| data@.has(x, y, c) implies data@.component(x, y, c)
            == target.component(x, y, c) by {
            assert(target.has(x, y, c));
        }
        lemma_same_components(data@, target);
    }
}

/// Reverses the order of the columns.
pub(crate) fn flip_horizontal(data: &mut Array3)
    requires
        old(data)@.wf(),
    ensures
        final(data)@ == old(data)@.flipped_horizontal(),
{
    array3_invert_axis(data, 1);
    proof {
        let target = old(data)@.flipped_horizontal();
        lemma_flipped_horizontal(old(data)@);
        assert forall|x: int, y: int, c: int| data@.has(x, y, c) implies data@.component(x, y, c)
            == target.component(x, y, c) by {
            assert(target.has(x, y, c));
        }
        lemma_same_components(data@, target);
    }
}

/// Turns the buffer a quarter clockwise.
pub(crate) fn rotate_clockwise(data: &mut Array3)
    requires
        old(data)@.wf(),
    ensures
        final(data)@ == old(data)@.rotated_clockwise(),
{
    transpose(data);
    proof {
        lemma_transposed(old(data)@);
    }
    flip_horizontal(data);
}

/// Turns the buffer a quarter anticlockwise.
pub(crate) fn rotate_anticlockwise(data: &mut Array3)
    requires
        old(data)@.wf(),
    ensures
        final(data)@ == old(data)@.rotated_anticlockwise(),
{
    transpose(data);
    proof {
        lemma_transposed(old(data)@);
    }
    flip_vertical(data);
}

/// Turns the buffer by a half.
pub(crate) fn rotate_180(data: &mut Array3)
    requires
        old(data)@.wf(),
    ensures
        final(data)@ == old(data)@.rotated_180(),
{
    flip_vertical(data);
    proof {
        lemma_flipped_vertical(old(data)@);
    }
    flip_horizontal(data);
}

/// A copy of the window of `size` pixels whose first pixel is `start`.
pub(crate) fn extract(data: &Array3, start: [usize; 2], size: [usize; 2]) -> (part: Array3)
    requires
        data@.has_window(start[0] as int, start[1] as int, size[0] as int, size[1] as int),
    ensures
        part@ == data@.window(start[0] as int, start[1] as int, size[0] as nat, size[1] as nat),
{
    let _ = array3_dim(data);
    let part = array3_slice_owned(
        data,
        start[1],
        start[1] + size[1],
        start[0],
        start[0] + size[0],
    );
    proof {
        let target = data@.window(
            start[0] as int,
            start[1] as int,
            size[0] as nat,
            size[1] as nat,
        );
        lemma_window(data@, start[0] as int, start[1] as int, size[0] as nat, size[1] as nat);
        assert forall|x: int, y: int, c: int| part@.has(x, y, c) implies part@.component(x, y, c)
            == target.component(x, y, c) by {
            assert(target.has(x, y, c));
        }
        lemma_same_components(part@, target);
    }
    part
}

/// A read-only view of the window of `size` pixels whose first pixel is
/// `start`.
pub(crate) fn view<'a>(
    data: &'a Array3,
    start: [usize; 2],
    size: [usize; 2],
) -> (part: ArrayView3<'a>)
    requires
        data@.has_window(start[0] as int, start[1] as int, size[0] as int, size[1] as int),
    ensures
        part@ == data@.window(start[0] as int, start[1] as int, size[0] as nat, size[1] as nat),
{
    let _ = array3_dim(data);
    let part = array3_view(data, start[1], start[1] + size[1], start[0], start[0] + size[0]);
    proof {
        let target = data@.window(
            start[0] as int,
            start[1] as int,
            size[0] as nat,
            size[1] as nat,
        );
        lemma_window(data@, start[0] as int, start[1] as int, size[0] as nat, size[1] as nat);
        assert forall|x: int, y: int, c: int| part@.has(x, y, c) implies part@.component(x, y, c)
            == target.component(x, y, c) by {
            assert(target.has(x, y, c));
        }
        lemma_same_components(part@, target);
    }
    part
}

/// Whatever is written through a view of the window of `width` by `height`
/// pixels whose first pixel is `(x0, y0)`, the buffer keeps its dimensions
/// and every component outside the window.
pub open spec fn differs_within(
    after: Raster,
    before: Raster,
    x0: int,
    y0: int,
    width: int,
    height: int,
) -> bool {
    &&& after.wf()
    &&& after.height == before.height
    &&& after.width == before.width
    &&& after.channels == before.channels
    &&& forall|x: int, y: int, c: int|
        before.has(x, y, c) && !(x0 <= x < x0 + width && y0 <= y < y0 + height)
            ==> #[trigger] after.component(x, y, c) == before.component(x, y, c)
}

/// A view of the window of `size` pixels whose first pixel is `start`,
/// through which the window can be written.
pub(crate) fn view_mut<'a>(
    data: &'a mut Array3,
    start: [usize; 2],
    size: [usize; 2],
) -> (part: ArrayViewMut3<'a>)
    requires
        old(data)@.wf(),
        old(data)@.has_window(start[0] as int, start[1] as int, size[0] as int, size[1] as int),
    ensures
        part@ == old(data)@.window(
            start[0] as int,
            start[1] as int,
            size[0] as nat,
            size[1] as nat,
        ),
        differs_within(
            final(data)@,
            old(data)@,
            start[0] as int,
            start[1] as int,
            size[0] as int,
            size[1] as int,
        ),
{
    let ghost before = data@;
    let _ = array3_dim(data);
    let part = array3_view_mut(data, start[1], start[1] + size[1], start[0], start[0] + size[0]);
    proof {
        let target = before.window(
            start[0] as int,
            start[1] as int,
            size[0] as nat,
            size[1] as nat,
        );
        lemma_window(before, start[0] as int, start[1] as int, size[0] as nat, size[1] as nat);
        assert forall|x: int, y: int, c: int| part@.has(x, y, c) implies part@.component(x, y, c)
            == target.component(x, y, c) by {
            assert(target.has(x, y, c));
        }
        lemma_same_components(part@, target);
    }
    part
}

/// A copy of the tile `tile_index` of the grid of tiles of `tile_size`
/// pixels.
pub(crate) fn extract_tile(
    data: &Array3,
    tile_size: [usize; 2],
    tile_index: [usize; 2],
) -> (part: Array3)
    requires
        data@.has_tile(
            tile_size[0] as int,
            tile_size[1] as int,
            tile_index[0] as int,
            tile_index[1] as int,
        ),
    ensures
        part@ == data@.tile(
            tile_size[0] as nat,
            tile_size[1] as nat,
            tile_index[0] as int,
            tile_index[1] as int,
        ),
{
    let _ = array3_dim(data);
    proof {
        lemma_tile_is_window(
            data@,
            tile_size[0] as int,
            tile_size[1] as int,
            tile_index[0] as int,
            tile_index[1] as int,
        );
    }
    extract(data, [tile_index[0] * tile_size[0], tile_index[1] * tile_size[1]], tile_size)
}

/// A read-only view of the tile `tile_index` of the grid of tiles of
/// `tile_size` pixels.
pub(crate) fn view_tile<'a>(
    data: &'a Array3,
    tile_size: [usize; 2],
    tile_index: [usize; 2],
) -> (part: ArrayView3<'a>)
    requires
        data@.has_tile(
            tile_size[0] as int,
            tile_size[1] as int,
            tile_index[0] as int,
            tile_index[1] as int,
        ),
    ensures
        part@ == data@.tile(
            tile_size[0] as nat,
            tile_size[1] as nat,
            tile_index[0] as int,
            tile_index[1] as int,
        ),
{
    let _ = array3_dim(data);
    proof {
        lemma_tile_is_window(
            data@,
            tile_size[0] as int,
            tile_size[1] as int,
            tile_index[0] as int,
            tile_index[1] as int,
        );
    }
    view(data, [tile_index[0] * tile_size[0], tile_index[1] * tile_size[1]], tile_size)
}

/// A view of the tile `tile_index` of the grid of tiles of `tile_size`
/// pixels, through which the tile can be written.
pub(crate) fn view_tile_mut<'a>(
    data: &'a mut Array3,
    tile_size: [usize; 2],
    tile_index: [usize; 2],
) -> (part: ArrayViewMut3<'a>)
    requires
        old(data)@.has_tile(
            tile_size[0] as int,
            tile_size[1] as int,
            tile_index[0] as int,
            tile_index[1] as int,
        ),
    ensures
        part@ == old(data)@.tile(
            tile_size[0] as nat,
            tile_size[1] as nat,
            tile_index[0] as int,
            tile_index[1] as int,
        ),
        differs_within(
            final(data)@,
            old(data)@,
            tile_index[0] * tile_size[0],
            tile_index[1] * tile_size[1],
            tile_size[0] as int,
            tile_size[1] as int,
        ),
{
    let _ = array3_dim(data);
    proof {
        lemma_tile_is_window(
            data@,
            tile_size[0] as int,
            tile_size[1] as int,
            tile_index[0] as int,
            tile_index[1] as int,
        );
    }
    view_mut(data, [tile_index[0] * tile_size[0], tile_index[1] * tile_size[1]], tile_size)
}

/// Copies of the tiles of the grid of tiles of `tile_size` pixels, row by
/// row.
pub(crate) fn tile_list(data: &Array3, tile_size: [usize; 2]) -> (list: Vec<Array3>)
    requires
        data@.tiles_by(tile_size[0] as int, tile_size[1] as int),
    ensures
        rasters_of(list@) == data@.tile_sequence(tile_size[0] as nat, tile_size[1] as nat),
{
    let shape = array3_dim(data);
    let rows = shape.0 / tile_size[1];
    let columns = shape.1 / tile_size[0];
    let ghost tw = tile_size[0] as nat;
    let ghost th = tile_size[1] as nat;
    let ghost tiles = data@.tile_sequence(tw, th);
    proof {
        lemma_tile_counts(data@, tw as int, th as int);
    }
    let mut list: Vec<Array3> = Vec::new();
    let mut row: usize = 0;
    while row < rows
        invariant
            0 <= row <= rows,
            rows == data@.tile_rows(th as int),
            columns == data@.tile_columns(tw as int),
            tw == tile_size[0],
            th == tile_size[1],
            data@.tiles_by(tw as int, th as int),
            tiles == data@.tile_sequence(tw, th),
            tiles.len() == rows * columns,
            list@.len() == row * columns,
            forall|i: int| 0 <= i < list@.len() ==> (#[trigger] list@[i])@ == tiles[i],
        decreases rows - row,
    {
        let mut column: usize = 0;
        while column < columns
            invariant
                0 <= row < rows,
                0 <= column <= columns,
                rows == data@.tile_rows(th as int),
                columns == data@.tile_columns(tw as int),
                tw == tile_size[0],
                th == tile_size[1],
                data@.tiles_by(tw as int, th as int),
                tiles == data@.tile_sequence(tw, th),
                tiles.len() == rows * columns,
                list@.len() == row * columns + column,
                forall|i: int| 0 <= i < list@.len() ==> (#[trigger] list@[i])@ == tiles[i],
            decreases columns - column,
        {
            proof {
                lemma_tile_position(data@, tw, th, column as int, row as int);
            }
            let tile = extract_tile(data, tile_size, [column, row]);
            list.push(tile);
            column = column + 1;
        }
        proof {
            assert((row + 1) * columns == row * columns + columns) by (nonlinear_arith);
        }
        row = row + 1;
    }
    proof {
        assert(rasters_of(list@) =~= tiles);
    }
    list
}

/// The grid of copies of the tiles of `tile_size` pixels.
pub(crate) fn tiles(data: &Array3, tile_size: [usize; 2]) -> (grid: TileGrid)
    requires
        data@.tiles_by(tile_size[0] as int, tile_size[1] as int),
    ensures
        grid.rows() == data@.tile_rows(tile_size[1] as int),
        grid.columns() == data@.tile_columns(tile_size[0] as int),
        grid.tiles() == data@.tile_sequence(tile_size[0] as nat, tile_size[1] as nat),
        forall|column: int, row: int|
            0 <= column < grid.columns() && 0 <= row < grid.rows() ==> #[trigger] grid.tile(
                column,
                row,
            ) == data@.tile(tile_size[0] as nat, tile_size[1] as nat, column, row),
{
    let shape = array3_dim(data);
    let rows = shape.0 / tile_size[1];
    let columns = shape.1 / tile_size[0];
    proof {
        lemma_tile_counts(data@, tile_size[0] as int, tile_size[1] as int);
        let nr = non_zero(rows as nat);
        let nc = non_zero(columns as nat);
        let nh = non_zero(shape.0 as nat);
        let nw = non_zero(shape.1 as nat);
        let nk = non_zero(shape.2 as nat);
        assert(nr * nc * 1 <= isize::MAX) by (nonlinear_arith)
            requires
                1 <= nr <= nh,
                1 <= nc <= nw,
                1 <= nk,
                nh * nw * nk <= isize::MAX,
        ;
    }
    let list = tile_list(data, tile_size);
    proof {
        assert(rasters_of(list@).len() == list@.len());
        assert(list@.len() == rows * columns);
    }
    let grid = grid_from_shape_vec(rows, columns, list).unwrap();
    proof {
        assert forall|column: int, row: int|
            0 <= column < grid.columns() && 0 <= row < grid.rows() implies #[trigger] grid.tile(
            column,
            row,
        ) == data@.tile(tile_size[0] as nat, tile_size[1] as nat, column, row) by {
            lemma_tile_position(
                data@,
                tile_size[0] as nat,
                tile_size[1] as nat,
                column,
                row,
            );
        }
    }
    grid
}

/// What the tiles of a list of groups hold, each with its count.
pub open spec fn group_views(groups: Seq<(Array3, usize)>) -> Seq<(Raster, usize)> {
    Seq::new(groups.len(), |g: int| (groups[g].0@, groups[g].1))
}

/// The distinct tiles of the grid of tiles of `tile_size` pixels, each once
/// and with the number of tiles that hold the same components, in the order
/// in which they first occur when the grid is read row by row.
pub(crate) fn unique_tiles(data: &Array3, tile_size: [usize; 2]) -> (groups: Vec<(Array3, usize)>)
    requires
        data@.tiles_by(tile_size[0] as int, tile_size[1] as int),
    ensures
        is_tally_of(
            group_views(groups@),
            data@.tile_sequence(tile_size[0] as nat, tile_size[1] as nat),
        ),
        total(group_views(groups@)) == data@.tile_sequence(
            tile_size[0] as nat,
            tile_size[1] as nat,
        ).len(),
        forall|g: int|
            0 <= g < groups@.len() ==> (#[trigger] groups@[g]).0@.is_image(data@.channels),
{
    let ghost tw = tile_size[0] as nat;
    let ghost th = tile_size[1] as nat;
    let ghost tiles = data@.tile_sequence(tw, th);
    let list = tile_list(data, tile_size);
    assert(rasters_of(list@).len() == list@.len());
    let mut keys: Vec<Vec<u8>> = Vec::new();
    let mut i: usize = 0;
    while i < list.len()
        invariant
            0 <= i <= list@.len(),
            keys@.len() == i,
            rasters_of(list@) == tiles,
            forall|k: int| 0 <= k < i ==> (#[trigger] keys@[k])@ == tiles[k].data,
        decreases list@.len() - i,
    {
        assert(rasters_of(list@)[i as int] == list@[i as int]@);
        keys.push(array3_to_vec(&list[i]));
        i = i + 1;
    }
    let positions = tally(&keys);
    proof {
        let names = key_views(keys@);
        assert forall|a: int, b: int| 0 <= a < names.len() && 0 <= b < names.len() implies ((
        #[trigger] names[a] == #[trigger] names[b]) <==> tiles[a] == tiles[b]) by {
            lemma_tile_at(data@, tw, th, a);
            lemma_tile_at(data@, tw, th, b);
            let columns = data@.tile_columns(tw as int);
            lemma_tile(data@, tw, th, a % columns, a / columns);
            lemma_tile(data@, tw, th, b % columns, b / columns);
        }
        assert(keys_tell_apart(names, tiles));
    }
    let mut groups: Vec<(Array3, usize)> = Vec::new();
    let mut g: usize = 0;
    while g < positions.len()
        invariant
            0 <= g <= positions@.len(),
            groups@.len() == g,
            rasters_of(list@) == tiles,
            tiles.len() == list@.len(),
            is_tally(positions@, key_views(keys@)),
            key_views(keys@).len() == tiles.len(),
            tiles == data@.tile_sequence(tw, th),
            data@.tiles_by(tw as int, th as int),
            forall|k: int|
                0 <= k < g ==> (#[trigger] groups@[k]).0@ == tiles[positions@[k].0 as int]
                    && groups@[k].1 == positions@[k].1 && groups@[k].0@.is_image(data@.channels),
        decreases positions@.len() - g,
    {
        let first = positions[g].0;
        let count = positions[g].1;
        assert(is_group(key_views(keys@), positions@[g as int]));
        assert(rasters_of(list@)[first as int] == list@[first as int]@);
        proof {
            let columns = data@.tile_columns(tw as int);
            lemma_tile_at(data@, tw, th, first as int);
            lemma_tile(data@, tw, th, first as int % columns, first as int / columns);
        }
        groups.push((array3_clone(&list[first]), count));
        g = g + 1;
    }
    proof {
        let views = group_views(groups@);
        assert forall|k: int| 0 <= k < views.len() implies #[trigger] views[k] == (
            tiles[positions@[k].0 as int],
            positions@[k].1,
        ) by {
            assert(groups@[k].0@ == tiles[positions@[k].0 as int]);
        }
        lemma_tally_by_key(positions@, key_views(keys@), views, tiles);
    }
    groups
}

} // verus!
