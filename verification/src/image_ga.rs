//! Grayscale images with transparency: two components per pixel, gray and
//! alpha.

use crate::array::{layer_views, Array2, Array3, ArrayView3, ArrayViewMut3, TileGrid};
use crate::buffer;
use crate::buffer::{differs_within, layers_agree};
use crate::frequency::{is_tally_of, total};
use crate::raster::{
    lemma_flipped_horizontal, lemma_flipped_vertical, lemma_interleaved, lemma_rotated_180,
    lemma_rotated_anticlockwise, lemma_rotated_clockwise, lemma_tile, lemma_transposed,
    lemma_uniform, lemma_window, lemma_with_component, lemma_with_pixel, Raster,
};
use vstd::prelude::*;

verus! {

/// A grayscale image with transparency.
#[derive(Debug, PartialEq)]
pub struct ImageGA {
    /// The components, indexed by row, column and channel.
    pub data: Array3,
}

impl Clone for ImageGA {
    /// An image that holds the same pixels.
    fn clone(&self) -> (copy: Self)
        ensures
            copy.raster() == self.raster(),
    {
        ImageGA { data: self.data.clone() }
    }
}

impl ImageGA {
    /// What the image holds.
    pub open spec fn raster(&self) -> Raster {
        self.data@
    }

    /// The image is not empty and has two components per pixel.
    pub open spec fn wf(&self) -> bool {
        self.raster().is_image(2)
    }

    /// What the images of a list of groups hold, each with its count.
    pub open spec fn group_views(groups: Seq<(ImageGA, usize)>) -> Seq<(Raster, usize)> {
        Seq::new(groups.len(), |g: int| (groups[g].0.raster(), groups[g].1))
    }

    /// The image stored in `data`, which has at least one row and one column
    /// and exactly two channels.
    pub fn new(data: Array3) -> (image: Self)
        requires
            data@.height > 0,
            data@.width > 0,
            data@.channels == 2,
        ensures
            image.data == data,
            image.wf(),
    {
        let _ = data.dim();
        ImageGA { data }
    }

    /// The image of `width` by `height` pixels that are black and fully
    /// opaque: the gray component zero, the alpha component one.
    pub fn empty(width: usize, height: usize) -> (image: Self)
        requires
            width > 0,
            height > 0,
            height * width * 2 <= isize::MAX,
        ensures
            image.wf(),
            image.raster() == Raster::uniform(
                height as nat,
                width as nat,
                Raster::blank_pixel(2, true),
            ),
    {
        proof {
            lemma_uniform(height as nat, width as nat, Raster::blank_pixel(2, true));
        }
        ImageGA { data: buffer::blank(width, height, 2, true) }
    }

    /// The image of `width` by `height` pixels that all equal `value`.
    pub fn filled(width: usize, height: usize, value: [u8; 2]) -> (image: Self)
        requires
            width > 0,
            height > 0,
            height * width * 2 <= isize::MAX,
        ensures
            image.wf(),
            image.raster() == Raster::uniform(height as nat, width as nat, value@),
    {
        proof {
            lemma_uniform(height as nat, width as nat, value@);
        }
        ImageGA { data: buffer::filled(width, height, value.as_slice()) }
    }

    /// The image whose gray and alpha channels are the two layers, which
    /// have one shape and are not empty.
    pub fn from_layers(layers: [Array2; 2]) -> (image: Self)
        requires
            layers_agree(layers@),
            layers@[0]@.height * layers@[0]@.width * 2 <= isize::MAX,
        ensures
            image.wf(),
            image.raster() == Raster::interleaved(
                layer_views(layers@),
                layers@[0]@.height,
                layers@[0]@.width,
            ),
    {
        proof {
            lemma_interleaved(layer_views(layers@), layers@[0]@.height, layers@[0]@.width);
        }
        ImageGA { data: buffer::from_layers(layers.as_slice()) }
    }

    /// The number of columns.
    pub fn width(&self) -> (width: usize)
        ensures
            width == self.raster().width,
    {
        self.data.dim().1
    }

    /// The number of rows.
    pub fn height(&self) -> (height: usize)
        ensures
            height == self.raster().height,
    {
        self.data.dim().0
    }

    /// The component `component` of the pixel at `coords`.
    pub fn get_component(&self, coords: [usize; 2], component: usize) -> (value: u8)
        requires
            self.raster().has(coords[0] as int, coords[1] as int, component as int),
        ensures
            value == self.raster().component(
                coords[0] as int,
                coords[1] as int,
                component as int,
            ),
    {
        buffer::get_component(&self.data, coords, component)
    }

    /// Replaces the component `component` of the pixel at `coords`.
    pub fn set_component(&mut self, coords: [usize; 2], component: usize, value: u8)
        requires
            old(self).raster().has(coords[0] as int, coords[1] as int, component as int),
        ensures
            final(self).raster() == old(self).raster().with_component(
                coords[0] as int,
                coords[1] as int,
                component as int,
                value,
            ),
            old(self).wf() ==> final(self).wf(),
    {
        proof {
            if self.wf() {
                lemma_with_component(
                    self.raster(),
                    coords[0] as int,
                    coords[1] as int,
                    component as int,
                    value,
                );
            }
        }
        buffer::set_component(&mut self.data, coords, component, value);
    }

    /// The gray and alpha components of the pixel at `coords`.
    pub fn get_pixel(&self, coords: [usize; 2]) -> (pixel: [u8; 2])
        requires
            self.wf(),
            self.raster().has_pixel(coords[0] as int, coords[1] as int),
        ensures
            pixel@ == self.raster().pixel(coords[0] as int, coords[1] as int),
    {
        buffer::get_pixel::<2>(&self.data, coords)
    }

    /// Replaces the gray and alpha components of the pixel at `coords`.
    pub fn set_pixel(&mut self, coords: [usize; 2], pixel: [u8; 2])
        requires
            old(self).wf(),
            old(self).raster().has_pixel(coords[0] as int, coords[1] as int),
        ensures
            final(self).wf(),
            final(self).raster() == old(self).raster().with_pixel(
                coords[0] as int,
                coords[1] as int,
                pixel@,
            ),
            final(self).raster().pixel(coords[0] as int, coords[1] as int) == pixel@,
    {
        proof {
            lemma_with_pixel(self.raster(), coords[0] as int, coords[1] as int, pixel@);
        }
        buffer::set_pixel::<2>(&mut self.data, coords, pixel);
    }

    /// A copy of one channel of the image.
    pub fn get_layer(&self, component: usize) -> (layer: Array2)
        requires
            self.wf(),
            component < 2,
        ensures
            layer@ == self.raster().layer(component as int),
    {
        buffer::get_layer(&self.data, component)
    }

    /// Exchanges the rows and the columns: the pixel at `(x, y)` becomes the
    /// pixel at `(y, x)`.
    pub fn transpose(&mut self)
        requires
            old(self).wf(),
        ensures
            final(self).wf(),
            final(self).raster() == old(self).raster().transposed(),
            final(self).raster().width == old(self).raster().height,
            final(self).raster().height == old(self).raster().width,
    {
        proof {
            lemma_transposed(self.raster());
        }
        buffer::transpose(&mut self.data);
    }

    /// Reverses the order of the rows.
    pub fn flip_vertical(&mut self)
        requires
            old(self).wf(),
        ensures
            final(self).wf(),
            final(self).raster() == old(self).raster().flipped_vertical(),
    {
        proof {
            lemma_flipped_vertical(self.raster());
        }
        buffer::flip_vertical(&mut self.data);
    }

    /// Reverses the order of the columns.
    pub fn flip_horizontal(&mut self)
        requires
            old(self).wf(),
        ensures
            final(self).wf(),
            final(self).raster() == old(self).raster().flipped_horizontal(),
    {
        proof {
            lemma_flipped_horizontal(self.raster());
        }
        buffer::flip_horizontal(&mut self.data);
    }

    /// Turns the image a quarter clockwise.
    pub fn rotate_clockwise(&mut self)
        requires
            old(self).wf(),
        ensures
            final(self).wf(),
            final(self).raster() == old(self).raster().rotated_clockwise(),
            final(self).raster().width == old(self).raster().height,
            final(self).raster().height == old(self).raster().width,
    {
        proof {
            lemma_rotated_clockwise(self.raster());
        }
        buffer::rotate_clockwise(&mut self.data);
    }

    /// Turns the image a quarter anticlockwise.
    pub fn rotate_anticlockwise(&mut self)
        requires
            old(self).wf(),
        ensures
            final(self).wf(),
            final(self).raster() == old(self).raster().rotated_anticlockwise(),
            final(self).raster().width == old(self).raster().height,
            final(self).raster().height == old(self).raster().width,
    {
        proof {
            lemma_rotated_anticlockwise(self.raster());
        }
        buffer::rotate_anticlockwise(&mut self.data);
    }

    /// Turns the image by a half.
    pub fn rotate_180(&mut self)
        requires
            old(self).wf(),
        ensures
            final(self).wf(),
            final(self).raster() == old(self).raster().rotated_180(),
    {
        proof {
            lemma_rotated_180(self.raster());
        }
        buffer::rotate_180(&mut self.data);
    }

    /// A copy of the window of `size` pixels whose first pixel is `start`.
    pub fn extract(&self, start: [usize; 2], size: [usize; 2]) -> (part: ImageGA)
        requires
            self.wf(),
            self.raster().has_window(
                start[0] as int,
                start[1] as int,
                size[0] as int,
                size[1] as int,
            ),
        ensures
            part.wf(),
            part.raster() == self.raster().window(
                start[0] as int,
                start[1] as int,
                size[0] as nat,
                size[1] as nat,
            ),
            part.raster().width == size[0],
            part.raster().height == size[1],
            forall|i: int, j: int|
                0 <= i < size[0] && 0 <= j < size[1] ==> #[trigger] part.raster().pixel(i, j)
                    == self.raster().pixel(start[0] + i, start[1] + j),
    {
        let part = ImageGA { data: buffer::extract(&self.data, start, size) };
        proof {
            lemma_window(
                self.raster(),
                start[0] as int,
                start[1] as int,
                size[0] as nat,
                size[1] as nat,
            );
            assert forall|i: int, j: int| 0 <= i < size[0] && 0 <= j < size[1] implies #[trigger]
                part.raster().pixel(i, j) == self.raster().pixel(start[0] + i, start[1] + j) by {
                assert(part.raster().has_pixel(i, j));
            }
        }
        part
    }

    /// A read-only view of the window of `size` pixels whose first pixel is
    /// `start`.
    pub fn view(&self, start: [usize; 2], size: [usize; 2]) -> (part: ArrayView3<'_>)
        requires
            self.wf(),
            self.raster().has_window(
                start[0] as int,
                start[1] as int,
                size[0] as int,
                size[1] as int,
            ),
        ensures
            part@ == self.raster().window(
                start[0] as int,
                start[1] as int,
                size[0] as nat,
                size[1] as nat,
            ),
    {
        buffer::view(&self.data, start, size)
    }

    /// A view of the window of `size` pixels whose first pixel is `start`,
    /// through which the window can be written. While the view lives nothing
    /// else reads or writes the image; afterwards the image has its
    /// dimensions and, outside the window, its pixels as before.
    pub fn view_mut(&mut self, start: [usize; 2], size: [usize; 2]) -> (part: ArrayViewMut3<'_>)
        requires
            old(self).wf(),
            old(self).raster().has_window(
                start[0] as int,
                start[1] as int,
                size[0] as int,
                size[1] as int,
            ),
        ensures
            part@ == old(self).raster().window(
                start[0] as int,
                start[1] as int,
                size[0] as nat,
                size[1] as nat,
            ),
            final(self).wf(),
            differs_within(
                final(self).raster(),
                old(self).raster(),
                start[0] as int,
                start[1] as int,
                size[0] as int,
                size[1] as int,
            ),
    {
        buffer::view_mut(&mut self.data, start, size)
    }

    /// A copy of the tile `tile_index` of the grid of tiles of `tile_size`
    /// pixels.
    pub fn extract_tile(&self, tile_size: [usize; 2], tile_index: [usize; 2]) -> (part: ImageGA)
        requires
            self.wf(),
            self.raster().has_tile(
                tile_size[0] as int,
                tile_size[1] as int,
                tile_index[0] as int,
                tile_index[1] as int,
            ),
        ensures
            part.wf(),
            part.raster() == self.raster().tile(
                tile_size[0] as nat,
                tile_size[1] as nat,
                tile_index[0] as int,
                tile_index[1] as int,
            ),
            part.raster().width == tile_size[0],
            part.raster().height == tile_size[1],
            forall|i: int, j: int|
                0 <= i < tile_size[0] && 0 <= j < tile_size[1] ==> #[trigger] part.raster().pixel(
                    i,
                    j,
                ) == self.raster().pixel(
                    tile_index[0] * tile_size[0] + i,
                    tile_index[1] * tile_size[1] + j,
                ),
    {
        let part = ImageGA { data: buffer::extract_tile(&self.data, tile_size, tile_index) };
        proof {
            lemma_tile(
                self.raster(),
                tile_size[0] as nat,
                tile_size[1] as nat,
                tile_index[0] as int,
                tile_index[1] as int,
            );
            assert forall|i: int, j: int|
                0 <= i < tile_size[0] && 0 <= j < tile_size[1] implies #[trigger]
                part.raster().pixel(i, j) == self.raster().pixel(
                tile_index[0] * tile_size[0] + i,
                tile_index[1] * tile_size[1] + j,
            ) by {
                assert(part.raster().has_pixel(i, j));
            }
        }
        part
    }

    /// A read-only view of the tile `tile_index` of the grid of tiles of
    /// `tile_size` pixels.
    pub fn view_tile(
        &self,
        tile_size: [usize; 2],
        tile_index: [usize; 2],
    ) -> (part: ArrayView3<'_>)
        requires
            self.wf(),
            self.raster().has_tile(
                tile_size[0] as int,
                tile_size[1] as int,
                tile_index[0] as int,
                tile_index[1] as int,
            ),
        ensures
            part@ == self.raster().tile(
                tile_size[0] as nat,
                tile_size[1] as nat,
                tile_index[0] as int,
                tile_index[1] as int,
            ),
    {
        buffer::view_tile(&self.data, tile_size, tile_index)
    }

    /// A view of the tile `tile_index` of the grid of tiles of `tile_size`
    /// pixels, through which the tile can be written. While the view lives
    /// nothing else reads or writes the image; afterwards the image has its
    /// dimensions and, outside the tile, its pixels as before.
    pub fn view_tile_mut(
        &mut self,
        tile_size: [usize; 2],
        tile_index: [usize; 2],
    ) -> (part: ArrayViewMut3<'_>)
        requires
            old(self).wf(),
            old(self).raster().has_tile(
                tile_size[0] as int,
                tile_size[1] as int,
                tile_index[0] as int,
                tile_index[1] as int,
            ),
        ensures
            part@ == old(self).raster().tile(
                tile_size[0] as nat,
                tile_size[1] as nat,
                tile_index[0] as int,
                tile_index[1] as int,
            ),
            final(self).wf(),
            differs_within(
                final(self).raster(),
                old(self).raster(),
                tile_index[0] * tile_size[0],
                tile_index[1] * tile_size[1],
                tile_size[0] as int,
                tile_size[1] as int,
            ),
    {
        buffer::view_tile_mut(&mut self.data, tile_size, tile_index)
    }

    /// The grid of copies of the tiles of `tile_size` pixels, which cover the
    /// image with no remainder: `height / tile_size[1]` rows of
    /// `width / tile_size[0]` tiles.
    pub fn tiles(&self, tile_size: [usize; 2]) -> (grid: TileGrid)
        requires
            self.wf(),
            self.raster().tiles_by(tile_size[0] as int, tile_size[1] as int),
        ensures
            grid.rows() == self.raster().tile_rows(tile_size[1] as int),
            grid.columns() == self.raster().tile_columns(tile_size[0] as int),
            grid.tiles() == self.raster().tile_sequence(tile_size[0] as nat, tile_size[1] as nat),
            forall|column: int, row: int|
                0 <= column < grid.columns() && 0 <= row < grid.rows() ==> #[trigger] grid.tile(
                    column,
                    row,
                ) == self.raster().tile(tile_size[0] as nat, tile_size[1] as nat, column, row),
            forall|column: int, row: int, i: int, j: int|
                0 <= column < grid.columns() && 0 <= row < grid.rows() && 0 <= i < tile_size[0]
                    && 0 <= j < tile_size[1] ==> #[trigger] grid.tile(column, row).pixel(i, j)
                    == self.raster().pixel(column * tile_size[0] + i, row * tile_size[1] + j),
    {
        let grid = buffer::tiles(&self.data, tile_size);
        proof {
            assert forall|column: int, row: int, i: int, j: int|
                0 <= column < grid.columns() && 0 <= row < grid.rows() && 0 <= i < tile_size[0]
                    && 0 <= j < tile_size[1] implies #[trigger] grid.tile(column, row).pixel(i, j)
                == self.raster().pixel(column * tile_size[0] + i, row * tile_size[1] + j) by {
                let tile = self.raster().tile(
                    tile_size[0] as nat,
                    tile_size[1] as nat,
                    column,
                    row,
                );
                lemma_tile(self.raster(), tile_size[0] as nat, tile_size[1] as nat, column, row);
                assert(tile.has_pixel(i, j));
            }
        }
        grid
    }

    /// The distinct tiles of the grid of tiles of `tile_size` pixels, each
    /// once and with the number of tiles that hold the same components, in
    /// the order in which they first occur when the grid is read row by row.
    /// The counts add up to the number of tiles.
    pub fn unique_tiles(&self, tile_size: [usize; 2]) -> (groups: Vec<(ImageGA, usize)>)
        requires
            self.wf(),
            self.raster().tiles_by(tile_size[0] as int, tile_size[1] as int),
        ensures
            is_tally_of(
                Self::group_views(groups@),
                self.raster().tile_sequence(tile_size[0] as nat, tile_size[1] as nat),
            ),
            total(Self::group_views(groups@)) == self.raster().tile_rows(tile_size[1] as int)
                * self.raster().tile_columns(tile_size[0] as int),
            forall|g: int| 0 <= g < groups@.len() ==> (#[trigger] groups@[g]).0.wf(),
    {
        let found = buffer::unique_tiles(&self.data, tile_size);
        let ghost views = buffer::group_views(found@);
        let mut groups: Vec<(ImageGA, usize)> = Vec::new();
        let mut g: usize = 0;
        while g < found.len()
            invariant
                0 <= g <= found@.len(),
                groups@.len() == g,
                forall|k: int| 0 <= k < found@.len() ==> (#[trigger] found@[k]).0@.is_image(2),
                forall|k: int|
                    0 <= k < g ==> (#[trigger] groups@[k]).0.raster() == found@[k].0@
                        && groups@[k].1 == found@[k].1,
            decreases found@.len() - g,
        {
            groups.push((ImageGA { data: found[g].0.clone() }, found[g].1));
            g = g + 1;
        }
        proof {
            assert(Self::group_views(groups@) =~= views);
        }
        groups
    }
}

} // verus!
