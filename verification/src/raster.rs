//! The mathematical model of a raster buffer and of the operations on it.

use vstd::arithmetic::div_mod::{
    lemma_div_pos_is_pos, lemma_fundamental_div_mod, lemma_fundamental_div_mod_converse,
    lemma_mod_pos_bound,
};
use vstd::prelude::*;

verus! {

/// What a raster buffer holds: its dimensions and its components in row-major
/// order, the channel varying fastest.
pub struct Raster {
    pub height: nat,
    pub width: nat,
    pub channels: nat,
    pub data: Seq<u8>,
}

/// The position of component `c` of the pixel in column `x` of row `y`, in a
/// buffer with `width` columns and `channels` components per pixel.
pub open spec fn offset(width: nat, channels: nat, x: int, y: int, c: int) -> int {
    (y * width + x) * channels + c
}

/// The column of the pixel whose component stands at position `i`.
pub open spec fn column_at(width: nat, channels: nat, i: int) -> int {
    (i / channels as int) % width as int
}

/// The row of the pixel whose component stands at position `i`.
pub open spec fn row_at(width: nat, channels: nat, i: int) -> int {
    (i / channels as int) / width as int
}

/// The channel of the component at position `i`.
pub open spec fn channel_at(channels: nat, i: int) -> int {
    i % channels as int
}

impl Raster {
    /// The storage has one slot for each component of each pixel.
    pub open spec fn wf(self) -> bool {
        self.data.len() == self.height * self.width * self.channels
    }

    /// A well-formed buffer that is not empty and has `channels` components
    /// per pixel.
    pub open spec fn is_image(self, channels: nat) -> bool {
        &&& self.wf()
        &&& self.height > 0
        &&& self.width > 0
        &&& self.channels == channels
    }

    /// `(x, y)` names a pixel of the buffer.
    pub open spec fn has_pixel(self, x: int, y: int) -> bool {
        0 <= x < self.width && 0 <= y < self.height
    }

    /// `(x, y, c)` names a component of the buffer.
    pub open spec fn has(self, x: int, y: int, c: int) -> bool {
        self.has_pixel(x, y) && 0 <= c < self.channels
    }

    /// Component `c` of the pixel in column `x` of row `y`.
    pub open spec fn component(self, x: int, y: int, c: int) -> u8 {
        self.data[offset(self.width, self.channels, x, y, c)]
    }

    /// The components of the pixel in column `x` of row `y`.
    pub open spec fn pixel(self, x: int, y: int) -> Seq<u8> {
        Seq::new(self.channels, |c: int| self.component(x, y, c))
    }

    /// The buffer of the given dimensions whose component `(x, y, c)` is
    /// `f(x, y, c)`.
    pub open spec fn build(
        height: nat,
        width: nat,
        channels: nat,
        f: spec_fn(int, int, int) -> u8,
    ) -> Raster {
        Raster {
            height,
            width,
            channels,
            data: Seq::new(
                height * width * channels,
                |i: int|
                    f(
                        column_at(width, channels, i),
                        row_at(width, channels, i),
                        channel_at(channels, i),
                    ),
            ),
        }
    }
}

impl Raster {
    /// The buffer with rows and columns exchanged.
    pub open spec fn transposed(self) -> Raster {
        Raster::build(
            self.width,
            self.height,
            self.channels,
            |x: int, y: int, c: int| self.component(y, x, c),
        )
    }

    /// The buffer with the order of its rows reversed.
    pub open spec fn flipped_vertical(self) -> Raster {
        Raster::build(
            self.height,
            self.width,
            self.channels,
            |x: int, y: int, c: int| self.component(x, self.height - 1 - y, c),
        )
    }

    /// The buffer with the order of its columns reversed.
    pub open spec fn flipped_horizontal(self) -> Raster {
        Raster::build(
            self.height,
            self.width,
            self.channels,
            |x: int, y: int, c: int| self.component(self.width - 1 - x, y, c),
        )
    }

    /// The buffer turned a quarter clockwise: transposed, then its columns
    /// reversed.
    pub open spec fn rotated_clockwise(self) -> Raster {
        self.transposed().flipped_horizontal()
    }

    /// The buffer turned a quarter anticlockwise: transposed, then its rows
    /// reversed.
    pub open spec fn rotated_anticlockwise(self) -> Raster {
        self.transposed().flipped_vertical()
    }

    /// The buffer turned by a half: its rows reversed, then its columns.
    pub open spec fn rotated_180(self) -> Raster {
        self.flipped_vertical().flipped_horizontal()
    }

    /// The rectangle of `width` by `height` pixels whose first pixel is
    /// `(x0, y0)` fits in the buffer and is not empty.
    pub open spec fn has_window(self, x0: int, y0: int, width: int, height: int) -> bool {
        &&& 0 <= x0
        &&& 0 <= y0
        &&& 0 < width
        &&& 0 < height
        &&& x0 + width <= self.width
        &&& y0 + height <= self.height
    }

    /// The pixels of the rectangle of `width` by `height` pixels whose first
    /// pixel is `(x0, y0)`.
    pub open spec fn window(self, x0: int, y0: int, width: nat, height: nat) -> Raster {
        Raster::build(
            height,
            width,
            self.channels,
            |x: int, y: int, c: int| self.component(x0 + x, y0 + y, c),
        )
    }

    /// Tiles of `tile_width` by `tile_height` pixels cover the buffer with no
    /// remainder.
    pub open spec fn tiles_by(self, tile_width: int, tile_height: int) -> bool {
        &&& 0 < tile_width
        &&& 0 < tile_height
        &&& self.width as int % tile_width == 0
        &&& self.height as int % tile_height == 0
    }

    /// The tile in column `column` of row `row` of the grid of tiles.
    pub open spec fn tile(
        self,
        tile_width: nat,
        tile_height: nat,
        column: int,
        row: int,
    ) -> Raster {
        self.window(column * tile_width, row * tile_height, tile_width, tile_height)
    }

    /// The number of columns of the grid of tiles.
    pub open spec fn tile_columns(self, tile_width: int) -> int {
        self.width as int / tile_width
    }

    /// The number of rows of the grid of tiles.
    pub open spec fn tile_rows(self, tile_height: int) -> int {
        self.height as int / tile_height
    }

    /// Tiles of the given size cover the buffer and `(column, row)` names one
    /// of them.
    pub open spec fn has_tile(
        self,
        tile_width: int,
        tile_height: int,
        column: int,
        row: int,
    ) -> bool {
        &&& self.tiles_by(tile_width, tile_height)
        &&& 0 <= column < self.tile_columns(tile_width)
        &&& 0 <= row < self.tile_rows(tile_height)
    }

    /// The tiles of the grid, row by row.
    pub open spec fn tile_sequence(self, tile_width: nat, tile_height: nat) -> Seq<Raster> {
        Seq::new(
            (self.tile_rows(tile_height as int) * self.tile_columns(tile_width as int)) as nat,
            |i: int|
                self.tile(
                    tile_width,
                    tile_height,
                    i % self.tile_columns(tile_width as int),
                    i / self.tile_columns(tile_width as int),
                ),
        )
    }

    /// The buffer with one component replaced.
    pub open spec fn with_component(self, x: int, y: int, c: int, value: u8) -> Raster {
        Raster {
            height: self.height,
            width: self.width,
            channels: self.channels,
            data: self.data.update(offset(self.width, self.channels, x, y, c), value),
        }
    }

    /// The buffer with the components of one pixel replaced.
    pub open spec fn with_pixel(self, x: int, y: int, pixel: Seq<u8>) -> Raster {
        Raster::build(
            self.height,
            self.width,
            self.channels,
            |i: int, j: int, c: int|
                if i == x && j == y {
                    pixel[c]
                } else {
                    self.component(i, j, c)
                },
        )
    }

    /// The pixel of a blank buffer: every component zero, but the last one
    /// where the buffer is `opaque`, which is one.
    pub open spec fn blank_pixel(channels: nat, opaque: bool) -> Seq<u8> {
        Seq::new(
            channels,
            |c: int|
                if opaque && c == channels - 1 {
                    1u8
                } else {
                    0u8
                },
        )
    }

    /// The buffer of the given dimensions whose pixels all equal `pixel`.
    pub open spec fn uniform(height: nat, width: nat, pixel: Seq<u8>) -> Raster {
        Raster::build(height, width, pixel.len(), |x: int, y: int, c: int| pixel[c])
    }

    /// The values of one channel across the buffer, as a buffer with a single
    /// channel.
    pub open spec fn layer(self, channel: int) -> Raster {
        Raster::build(
            self.height,
            self.width,
            1,
            |x: int, y: int, c: int| self.component(x, y, channel),
        )
    }

    /// The buffer whose channel `k` is the layer `layers[k]`.
    pub open spec fn interleaved(layers: Seq<Raster>, height: nat, width: nat) -> Raster {
        Raster::build(
            height,
            width,
            layers.len(),
            |x: int, y: int, c: int| layers[c].component(x, y, 0),
        )
    }
}

/// A component inside the dimensions stands inside the storage.
pub proof fn lemma_offset_in_range(height: nat, width: nat, channels: nat, x: int, y: int, c: int)
    requires
        0 <= x < width,
        0 <= y < height,
        0 <= c < channels,
    ensures
        0 <= offset(width, channels, x, y, c) < height * width * channels,
{
    let p = y * width + x;
    assert(0 <= p <= height * width - 1) by (nonlinear_arith)
        requires
            0 <= x < width,
            0 <= y < height,
            p == y * width + x,
    ;
    assert(0 <= p * channels + c < height * width * channels) by (nonlinear_arith)
        requires
            0 <= p <= height * width - 1,
            0 <= c < channels,
    ;
}

/// The position of a component determines its column, row and channel.
pub proof fn lemma_offset_split(width: nat, channels: nat, x: int, y: int, c: int)
    requires
        0 <= x < width,
        0 <= y,
        0 <= c < channels,
    ensures
        column_at(width, channels, offset(width, channels, x, y, c)) == x,
        row_at(width, channels, offset(width, channels, x, y, c)) == y,
        channel_at(channels, offset(width, channels, x, y, c)) == c,
{
    let p = y * width + x;
    let i = offset(width, channels, x, y, c);
    lemma_fundamental_div_mod_converse(i, channels as int, p, c);
    lemma_fundamental_div_mod_converse(p, width as int, y, x);
}

/// Every position of the storage is that of one component inside the
/// dimensions.
pub proof fn lemma_offset_join(height: nat, width: nat, channels: nat, i: int)
    requires
        0 <= i < height * width * channels,
    ensures
        0 <= column_at(width, channels, i) < width,
        0 <= row_at(width, channels, i) < height,
        0 <= channel_at(channels, i) < channels,
        offset(
            width,
            channels,
            column_at(width, channels, i),
            row_at(width, channels, i),
            channel_at(channels, i),
        ) == i,
{
    assert(width > 0 && channels > 0) by (nonlinear_arith)
        requires
            0 <= i < height * width * channels,
    ;
    let ch = channels as int;
    let w = width as int;
    let p = i / ch;
    lemma_fundamental_div_mod(i, ch);
    lemma_mod_pos_bound(i, ch);
    lemma_div_pos_is_pos(i, ch);
    assert(p < height * width) by (nonlinear_arith)
        requires
            i == ch * p + i % ch,
            0 <= i % ch,
            i < height * width * ch,
            ch > 0,
    ;
    lemma_fundamental_div_mod(p, w);
    lemma_mod_pos_bound(p, w);
    lemma_div_pos_is_pos(p, w);
    assert(p / w < height) by (nonlinear_arith)
        requires
            p == w * (p / w) + p % w,
            0 <= p % w,
            p < height * w,
            w > 0,
    ;
    assert((p / w) * w + p % w == p) by (nonlinear_arith)
        requires
            p == w * (p / w) + p % w,
    ;
    assert(p * ch + i % ch == i) by (nonlinear_arith)
        requires
            i == ch * p + i % ch,
    ;
}

/// A built buffer is well formed and holds `f(x, y, c)` at `(x, y, c)`.
pub proof fn lemma_build(height: nat, width: nat, channels: nat, f: spec_fn(int, int, int) -> u8)
    ensures
        Raster::build(height, width, channels, f).wf(),
        Raster::build(height, width, channels, f).height == height,
        Raster::build(height, width, channels, f).width == width,
        Raster::build(height, width, channels, f).channels == channels,
        forall|x: int, y: int, c: int|
            0 <= x < width && 0 <= y < height && 0 <= c < channels ==> #[trigger] Raster::build(
                height,
                width,
                channels,
                f,
            ).component(x, y, c) == f(x, y, c),
{
    let r = Raster::build(height, width, channels, f);
    assert forall|x: int, y: int, c: int|
        0 <= x < width && 0 <= y < height && 0 <= c < channels implies #[trigger] r.component(
        x,
        y,
        c,
    ) == f(x, y, c) by {
        lemma_offset_in_range(height, width, channels, x, y, c);
        lemma_offset_split(width, channels, x, y, c);
    }
}

/// Two well-formed buffers of the same dimensions that agree on every
/// component are the same buffer.
pub proof fn lemma_same_components(a: Raster, b: Raster)
    requires
        a.wf(),
        b.wf(),
        a.height == b.height,
        a.width == b.width,
        a.channels == b.channels,
        forall|x: int, y: int, c: int|
            a.has(x, y, c) ==> a.component(x, y, c) == b.component(x, y, c),
    ensures
        a == b,
{
    assert forall|i: int| 0 <= i < a.data.len() implies a.data[i] == b.data[i] by {
        lemma_offset_join(a.height, a.width, a.channels, i);
        let x = column_at(a.width, a.channels, i);
        let y = row_at(a.width, a.channels, i);
        let c = channel_at(a.channels, i);
        assert(a.has(x, y, c));
        assert(a.component(x, y, c) == b.component(x, y, c));
    }
    assert(a.data =~= b.data);
}

/// The transposed buffer is well formed, has the dimensions exchanged, and
/// holds at `(x, y)` what the buffer holds at `(y, x)`.
pub proof fn lemma_transposed(a: Raster)
    ensures
        a.transposed().wf(),
        a.transposed().height == a.width,
        a.transposed().width == a.height,
        a.transposed().channels == a.channels,
        forall|x: int, y: int, c: int| #[trigger]
            a.transposed().has(x, y, c) ==> a.transposed().component(x, y, c) == a.component(
                y,
                x,
                c,
            ),
{
    lemma_build(a.width, a.height, a.channels, |x: int, y: int, c: int| a.component(y, x, c));
}

/// The buffer with its rows reversed is well formed, has the same dimensions,
/// and holds in row `y` what the buffer holds in row `height - 1 - y`.
pub proof fn lemma_flipped_vertical(a: Raster)
    ensures
        a.flipped_vertical().wf(),
        a.flipped_vertical().height == a.height,
        a.flipped_vertical().width == a.width,
        a.flipped_vertical().channels == a.channels,
        forall|x: int, y: int, c: int| #[trigger]
            a.flipped_vertical().has(x, y, c) ==> a.flipped_vertical().component(x, y, c)
                == a.component(x, a.height - 1 - y, c),
{
    lemma_build(
        a.height,
        a.width,
        a.channels,
        |x: int, y: int, c: int| a.component(x, a.height - 1 - y, c),
    );
}

/// The buffer with its columns reversed is well formed, has the same
/// dimensions, and holds in column `x` what the buffer holds in column
/// `width - 1 - x`.
pub proof fn lemma_flipped_horizontal(a: Raster)
    ensures
        a.flipped_horizontal().wf(),
        a.flipped_horizontal().height == a.height,
        a.flipped_horizontal().width == a.width,
        a.flipped_horizontal().channels == a.channels,
        forall|x: int, y: int, c: int| #[trigger]
            a.flipped_horizontal().has(x, y, c) ==> a.flipped_horizontal().component(x, y, c)
                == a.component(a.width - 1 - x, y, c),
{
    lemma_build(
        a.height,
        a.width,
        a.channels,
        |x: int, y: int, c: int| a.component(a.width - 1 - x, y, c),
    );
}

/// A window is well formed, has the dimensions asked for, and its pixel
/// `(i, j)` is the buffer's pixel `(x0 + i, y0 + j)`.
pub proof fn lemma_window(a: Raster, x0: int, y0: int, width: nat, height: nat)
    ensures
        a.window(x0, y0, width, height).wf(),
        a.window(x0, y0, width, height).height == height,
        a.window(x0, y0, width, height).width == width,
        a.window(x0, y0, width, height).channels == a.channels,
        forall|i: int, j: int, c: int| #[trigger]
            a.window(x0, y0, width, height).has(i, j, c) ==> a.window(
                x0,
                y0,
                width,
                height,
            ).component(i, j, c) == a.component(x0 + i, y0 + j, c),
        forall|i: int, j: int| #[trigger]
            a.window(x0, y0, width, height).has_pixel(i, j) ==> a.window(
                x0,
                y0,
                width,
                height,
            ).pixel(i, j) == a.pixel(x0 + i, y0 + j),
{
    let w = a.window(x0, y0, width, height);
    lemma_build(
        height,
        width,
        a.channels,
        |x: int, y: int, c: int| a.component(x0 + x, y0 + y, c),
    );
    assert forall|i: int, j: int| #[trigger] w.has_pixel(i, j) implies w.pixel(i, j) == a.pixel(
        x0 + i,
        y0 + j,
    ) by {
        assert forall|c: int| 0 <= c < a.channels implies w.component(i, j, c) == a.component(
            x0 + i,
            y0 + j,
            c,
        ) by {
            assert(w.has(i, j, c));
        }
        assert(w.pixel(i, j) =~= a.pixel(x0 + i, y0 + j));
    }
}

/// A tile is well formed, has the tile's dimensions, and its pixel `(i, j)`
/// is the buffer's pixel at the tile's first pixel plus `(i, j)`.
pub proof fn lemma_tile(a: Raster, tile_width: nat, tile_height: nat, column: int, row: int)
    ensures
        a.tile(tile_width, tile_height, column, row).wf(),
        a.tile(tile_width, tile_height, column, row).height == tile_height,
        a.tile(tile_width, tile_height, column, row).width == tile_width,
        a.tile(tile_width, tile_height, column, row).channels == a.channels,
        forall|i: int, j: int| #[trigger]
            a.tile(tile_width, tile_height, column, row).has_pixel(i, j) ==> a.tile(
                tile_width,
                tile_height,
                column,
                row,
            ).pixel(i, j) == a.pixel(column * tile_width + i, row * tile_height + j),
{
    lemma_window(a, column * tile_width, row * tile_height, tile_width, tile_height);
}

/// Replacing one component keeps the buffer well formed and changes that
/// component alone.
pub proof fn lemma_with_component(a: Raster, x: int, y: int, c: int, value: u8)
    requires
        a.wf(),
        a.has(x, y, c),
    ensures
        a.with_component(x, y, c, value).wf(),
        a.with_component(x, y, c, value).component(x, y, c) == value,
        forall|i: int, j: int, k: int| #[trigger]
            a.has(i, j, k) && (i, j, k) != (x, y, c) ==> a.with_component(x, y, c, value).component(
                i,
                j,
                k,
            ) == a.component(i, j, k),
{
    let b = a.with_component(x, y, c, value);
    lemma_offset_in_range(a.height, a.width, a.channels, x, y, c);
    lemma_offset_split(a.width, a.channels, x, y, c);
    assert forall|i: int, j: int, k: int| #[trigger]
        a.has(i, j, k) && (i, j, k) != (x, y, c) implies b.component(i, j, k) == a.component(
        i,
        j,
        k,
    ) by {
        lemma_offset_in_range(a.height, a.width, a.channels, i, j, k);
        lemma_offset_split(a.width, a.channels, i, j, k);
    }
}

/// Replacing one pixel keeps the buffer well formed, puts the new components
/// there and leaves every other pixel as it was.
pub proof fn lemma_with_pixel(a: Raster, x: int, y: int, pixel: Seq<u8>)
    requires
        pixel.len() == a.channels,
    ensures
        a.with_pixel(x, y, pixel).wf(),
        a.with_pixel(x, y, pixel).height == a.height,
        a.with_pixel(x, y, pixel).width == a.width,
        a.with_pixel(x, y, pixel).channels == a.channels,
        a.has_pixel(x, y) ==> a.with_pixel(x, y, pixel).pixel(x, y) == pixel,
        forall|i: int, j: int| #[trigger]
            a.has_pixel(i, j) && (i, j) != (x, y) ==> a.with_pixel(x, y, pixel).pixel(i, j)
                == a.pixel(i, j),
        forall|i: int, j: int, c: int|
            a.has(i, j, c) ==> #[trigger] a.with_pixel(x, y, pixel).component(i, j, c) == (if i == x
                && j == y {
                pixel[c]
            } else {
                a.component(i, j, c)
            }),
{
    let b = a.with_pixel(x, y, pixel);
    assert forall|i: int, j: int, c: int| a.has(i, j, c) implies #[trigger] b.component(i, j, c)
        == (if i == x && j == y {
        pixel[c]
    } else {
        a.component(i, j, c)
    }) by {
        lemma_offset_in_range(a.height, a.width, a.channels, i, j, c);
        lemma_offset_split(a.width, a.channels, i, j, c);
    }
    if a.has_pixel(x, y) {
        assert forall|c: int| 0 <= c < a.channels implies b.component(x, y, c) == pixel[c] by {
            lemma_offset_in_range(a.height, a.width, a.channels, x, y, c);
            lemma_offset_split(a.width, a.channels, x, y, c);
        }
        assert(b.pixel(x, y) =~= pixel);
    }
    assert forall|i: int, j: int| #[trigger] a.has_pixel(i, j) && (i, j) != (x, y) implies b.pixel(
        i,
        j,
    ) == a.pixel(i, j) by {
        assert forall|c: int| 0 <= c < a.channels implies b.component(i, j, c) == a.component(
            i,
            j,
            c,
        ) by {
            lemma_offset_in_range(a.height, a.width, a.channels, i, j, c);
            lemma_offset_split(a.width, a.channels, i, j, c);
        }
        assert(b.pixel(i, j) =~= a.pixel(i, j));
    }
}

/// A uniform buffer is well formed and each of its pixels is the given one.
pub proof fn lemma_uniform(height: nat, width: nat, pixel: Seq<u8>)
    ensures
        Raster::uniform(height, width, pixel).wf(),
        Raster::uniform(height, width, pixel).height == height,
        Raster::uniform(height, width, pixel).width == width,
        Raster::uniform(height, width, pixel).channels == pixel.len(),
        forall|x: int, y: int, c: int| #[trigger]
            Raster::uniform(height, width, pixel).has(x, y, c) ==> Raster::uniform(
                height,
                width,
                pixel,
            ).component(x, y, c) == pixel[c],
        forall|x: int, y: int| #[trigger]
            Raster::uniform(height, width, pixel).has_pixel(x, y) ==> Raster::uniform(
                height,
                width,
                pixel,
            ).pixel(x, y) == pixel,
{
    let u = Raster::uniform(height, width, pixel);
    lemma_build(height, width, pixel.len(), |x: int, y: int, c: int| pixel[c]);
    assert forall|x: int, y: int| #[trigger] u.has_pixel(x, y) implies u.pixel(x, y) == pixel by {
        assert forall|c: int| 0 <= c < pixel.len() implies u.component(x, y, c) == pixel[c] by {
            assert(u.has(x, y, c));
        }
        assert(u.pixel(x, y) =~= pixel);
    }
}

/// A layer is well formed, has the buffer's height and width and one
/// channel, and holds at `(x, y)` the buffer's component of that channel.
pub proof fn lemma_layer(a: Raster, channel: int)
    ensures
        a.layer(channel).wf(),
        a.layer(channel).height == a.height,
        a.layer(channel).width == a.width,
        a.layer(channel).channels == 1,
        forall|x: int, y: int| #[trigger]
            a.has_pixel(x, y) ==> a.layer(channel).component(x, y, 0) == a.component(
                x,
                y,
                channel,
            ),
{
    let l = a.layer(channel);
    lemma_build(a.height, a.width, 1, |x: int, y: int, c: int| a.component(x, y, channel));
    assert forall|x: int, y: int| #[trigger] a.has_pixel(x, y) implies l.component(x, y, 0)
        == a.component(x, y, channel) by {
        assert(l.has(x, y, 0));
    }
}

/// Interleaved layers make a well-formed buffer with one channel for each
/// layer, whose component `c` at `(x, y)` is what layer `c` holds there.
pub proof fn lemma_interleaved(layers: Seq<Raster>, height: nat, width: nat)
    ensures
        Raster::interleaved(layers, height, width).wf(),
        Raster::interleaved(layers, height, width).height == height,
        Raster::interleaved(layers, height, width).width == width,
        Raster::interleaved(layers, height, width).channels == layers.len(),
        forall|x: int, y: int, c: int| #[trigger]
            Raster::interleaved(layers, height, width).has(x, y, c) ==> Raster::interleaved(
                layers,
                height,
                width,
            ).component(x, y, c) == layers[c].component(x, y, 0),
{
    lemma_build(height, width, layers.len(), |x: int, y: int, c: int| layers[c].component(x, y, 0));
}

/// Reading a pixel that was just written gives back what was written.
pub proof fn lemma_pixel_written_is_read(a: Raster, x: int, y: int, pixel: Seq<u8>)
    requires
        a.has_pixel(x, y),
        pixel.len() == a.channels,
    ensures
        a.with_pixel(x, y, pixel).pixel(x, y) == pixel,
{
    lemma_with_pixel(a, x, y, pixel);
}

/// Reversing the rows twice gives the buffer back.
pub proof fn lemma_flip_vertical_twice(a: Raster)
    requires
        a.wf(),
    ensures
        a.flipped_vertical().flipped_vertical() == a,
{
    let b = a.flipped_vertical();
    let d = b.flipped_vertical();
    lemma_flipped_vertical(a);
    lemma_flipped_vertical(b);
    assert forall|x: int, y: int, c: int| d.has(x, y, c) implies d.component(x, y, c)
        == a.component(x, y, c) by {
        assert(b.has(x, b.height - 1 - y, c));
    }
    lemma_same_components(d, a);
}

/// Reversing the columns twice gives the buffer back.
pub proof fn lemma_flip_horizontal_twice(a: Raster)
    requires
        a.wf(),
    ensures
        a.flipped_horizontal().flipped_horizontal() == a,
{
    let b = a.flipped_horizontal();
    let d = b.flipped_horizontal();
    lemma_flipped_horizontal(a);
    lemma_flipped_horizontal(b);
    assert forall|x: int, y: int, c: int| d.has(x, y, c) implies d.component(x, y, c)
        == a.component(x, y, c) by {
        assert(b.has(b.width - 1 - x, y, c));
    }
    lemma_same_components(d, a);
}

/// Transposing twice gives the buffer back.
pub proof fn lemma_transpose_twice(a: Raster)
    requires
        a.wf(),
    ensures
        a.transposed().transposed() == a,
{
    let b = a.transposed();
    let d = b.transposed();
    lemma_transposed(a);
    lemma_transposed(b);
    assert forall|x: int, y: int, c: int| d.has(x, y, c) implies d.component(x, y, c)
        == a.component(x, y, c) by {
        assert(b.has(y, x, c));
    }
    lemma_same_components(d, a);
}

/// A quarter turn clockwise holds at `(x, y)` what the buffer holds at
/// `(y, height - 1 - x)`, and exchanges the dimensions.
pub proof fn lemma_rotated_clockwise(a: Raster)
    ensures
        a.rotated_clockwise().wf(),
        a.rotated_clockwise().height == a.width,
        a.rotated_clockwise().width == a.height,
        a.rotated_clockwise().channels == a.channels,
        forall|x: int, y: int, c: int| #[trigger]
            a.rotated_clockwise().has(x, y, c) ==> a.rotated_clockwise().component(x, y, c)
                == a.component(y, a.height - 1 - x, c),
{
    let t = a.transposed();
    let r = a.rotated_clockwise();
    lemma_transposed(a);
    lemma_flipped_horizontal(t);
    assert forall|x: int, y: int, c: int| #[trigger] r.has(x, y, c) implies r.component(x, y, c)
        == a.component(y, a.height - 1 - x, c) by {
        assert(t.has(t.width - 1 - x, y, c));
    }
}

/// A quarter turn anticlockwise holds at `(x, y)` what the buffer holds at
/// `(width - 1 - y, x)`, and exchanges the dimensions.
pub proof fn lemma_rotated_anticlockwise(a: Raster)
    ensures
        a.rotated_anticlockwise().wf(),
        a.rotated_anticlockwise().height == a.width,
        a.rotated_anticlockwise().width == a.height,
        a.rotated_anticlockwise().channels == a.channels,
        forall|x: int, y: int, c: int| #[trigger]
            a.rotated_anticlockwise().has(x, y, c) ==> a.rotated_anticlockwise().component(x, y, c)
                == a.component(a.width - 1 - y, x, c),
{
    let t = a.transposed();
    let r = a.rotated_anticlockwise();
    lemma_transposed(a);
    lemma_flipped_vertical(t);
    assert forall|x: int, y: int, c: int| #[trigger] r.has(x, y, c) implies r.component(x, y, c)
        == a.component(a.width - 1 - y, x, c) by {
        assert(t.has(x, t.height - 1 - y, c));
    }
}

/// A half turn holds at `(x, y)` what the buffer holds at
/// `(width - 1 - x, height - 1 - y)`.
pub proof fn lemma_rotated_180(a: Raster)
    ensures
        a.rotated_180().wf(),
        a.rotated_180().height == a.height,
        a.rotated_180().width == a.width,
        a.rotated_180().channels == a.channels,
        forall|x: int, y: int, c: int| #[trigger]
            a.rotated_180().has(x, y, c) ==> a.rotated_180().component(x, y, c) == a.component(
                a.width - 1 - x,
                a.height - 1 - y,
                c,
            ),
{
    let f = a.flipped_vertical();
    let r = a.rotated_180();
    lemma_flipped_vertical(a);
    lemma_flipped_horizontal(f);
    assert forall|x: int, y: int, c: int| #[trigger] r.has(x, y, c) implies r.component(x, y, c)
        == a.component(a.width - 1 - x, a.height - 1 - y, c) by {
        assert(f.has(f.width - 1 - x, y, c));
    }
}

/// A quarter turn clockwise followed by one anticlockwise gives the buffer
/// back.
pub proof fn lemma_rotate_clockwise_then_anticlockwise(a: Raster)
    requires
        a.wf(),
    ensures
        a.rotated_clockwise().rotated_anticlockwise() == a,
{
    let b = a.rotated_clockwise();
    let d = b.rotated_anticlockwise();
    lemma_rotated_clockwise(a);
    lemma_rotated_anticlockwise(b);
    assert forall|x: int, y: int, c: int| d.has(x, y, c) implies d.component(x, y, c)
        == a.component(x, y, c) by {
        assert(b.has(b.width - 1 - y, x, c));
    }
    lemma_same_components(d, a);
}

/// A quarter turn anticlockwise followed by one clockwise gives the buffer
/// back.
pub proof fn lemma_rotate_anticlockwise_then_clockwise(a: Raster)
    requires
        a.wf(),
    ensures
        a.rotated_anticlockwise().rotated_clockwise() == a,
{
    let b = a.rotated_anticlockwise();
    let d = b.rotated_clockwise();
    lemma_rotated_anticlockwise(a);
    lemma_rotated_clockwise(b);
    assert forall|x: int, y: int, c: int| d.has(x, y, c) implies d.component(x, y, c)
        == a.component(x, y, c) by {
        assert(b.has(y, b.height - 1 - x, c));
    }
    lemma_same_components(d, a);
}

/// Two quarter turns clockwise make a half turn.
pub proof fn lemma_rotate_clockwise_twice(a: Raster)
    requires
        a.wf(),
    ensures
        a.rotated_clockwise().rotated_clockwise() == a.rotated_180(),
{
    let b = a.rotated_clockwise();
    let d = b.rotated_clockwise();
    let h = a.rotated_180();
    lemma_rotated_clockwise(a);
    lemma_rotated_clockwise(b);
    lemma_rotated_180(a);
    assert forall|x: int, y: int, c: int| d.has(x, y, c) implies d.component(x, y, c)
        == h.component(x, y, c) by {
        assert(b.has(y, b.height - 1 - x, c));
        assert(h.has(x, y, c));
    }
    lemma_same_components(d, h);
}

/// Two half turns give the buffer back.
pub proof fn lemma_rotate_180_twice(a: Raster)
    requires
        a.wf(),
    ensures
        a.rotated_180().rotated_180() == a,
{
    let b = a.rotated_180();
    let d = b.rotated_180();
    lemma_rotated_180(a);
    lemma_rotated_180(b);
    assert forall|x: int, y: int, c: int| d.has(x, y, c) implies d.component(x, y, c)
        == a.component(x, y, c) by {
        assert(b.has(b.width - 1 - x, b.height - 1 - y, c));
    }
    lemma_same_components(d, a);
}

/// Four quarter turns clockwise give the buffer back.
pub proof fn lemma_rotate_clockwise_four_times(a: Raster)
    requires
        a.wf(),
    ensures
        a.rotated_clockwise().rotated_clockwise().rotated_clockwise().rotated_clockwise() == a,
{
    let b = a.rotated_clockwise().rotated_clockwise();
    lemma_rotate_clockwise_twice(a);
    lemma_rotated_180(a);
    lemma_rotate_clockwise_twice(b);
    lemma_rotate_180_twice(a);
}

/// A half turn is the two flips, in either order.
pub proof fn lemma_rotate_180_is_both_flips(a: Raster)
    requires
        a.wf(),
    ensures
        a.rotated_180() == a.flipped_vertical().flipped_horizontal(),
        a.rotated_180() == a.flipped_horizontal().flipped_vertical(),
{
    let h = a.rotated_180();
    let f = a.flipped_horizontal();
    let d = f.flipped_vertical();
    lemma_rotated_180(a);
    lemma_flipped_horizontal(a);
    lemma_flipped_vertical(f);
    assert forall|x: int, y: int, c: int| d.has(x, y, c) implies d.component(x, y, c)
        == h.component(x, y, c) by {
        assert(f.has(x, f.height - 1 - y, c));
        assert(h.has(x, y, c));
    }
    lemma_same_components(d, h);
}

/// A tile of the grid is a window of the buffer.
pub proof fn lemma_tile_is_window(
    a: Raster,
    tile_width: int,
    tile_height: int,
    column: int,
    row: int,
)
    requires
        a.has_tile(tile_width, tile_height, column, row),
    ensures
        a.has_window(column * tile_width, row * tile_height, tile_width, tile_height),
        a.tile_columns(tile_width) * tile_width == a.width,
        a.tile_rows(tile_height) * tile_height == a.height,
{
    let w = a.width as int;
    let h = a.height as int;
    lemma_fundamental_div_mod(w, tile_width);
    lemma_fundamental_div_mod(h, tile_height);
    let columns = w / tile_width;
    let rows = h / tile_height;
    assert(columns * tile_width == w) by (nonlinear_arith)
        requires
            w == tile_width * columns + w % tile_width,
            w % tile_width == 0,
    ;
    assert(rows * tile_height == h) by (nonlinear_arith)
        requires
            h == tile_height * rows + h % tile_height,
            h % tile_height == 0,
    ;
    assert(0 <= column * tile_width && column * tile_width + tile_width <= columns * tile_width)
        by (nonlinear_arith)
        requires
            0 <= column < columns,
            tile_width > 0,
    ;
    assert(0 <= row * tile_height && row * tile_height + tile_height <= rows * tile_height)
        by (nonlinear_arith)
        requires
            0 <= row < rows,
            tile_height > 0,
    ;
}

/// The grid has no more tiles in a direction than the buffer has pixels.
pub proof fn lemma_tile_counts(a: Raster, tile_width: int, tile_height: int)
    requires
        a.tiles_by(tile_width, tile_height),
    ensures
        0 <= a.tile_rows(tile_height) <= a.height,
        0 <= a.tile_columns(tile_width) <= a.width,
        0 <= a.tile_rows(tile_height) * a.tile_columns(tile_width) <= a.height * a.width,
{
    let columns = a.tile_columns(tile_width);
    let rows = a.tile_rows(tile_height);
    let w = a.width as int;
    let h = a.height as int;
    lemma_fundamental_div_mod(w, tile_width);
    lemma_fundamental_div_mod(h, tile_height);
    lemma_div_pos_is_pos(w, tile_width);
    lemma_div_pos_is_pos(h, tile_height);
    assert(columns <= w) by (nonlinear_arith)
        requires
            w == tile_width * columns + w % tile_width,
            w % tile_width == 0,
            tile_width > 0,
            columns >= 0,
    ;
    assert(rows <= h) by (nonlinear_arith)
        requires
            h == tile_height * rows + h % tile_height,
            h % tile_height == 0,
            tile_height > 0,
            rows >= 0,
    ;
    assert(0 <= rows * columns <= h * w) by (nonlinear_arith)
        requires
            0 <= rows <= h,
            0 <= columns <= w,
    ;
}

/// The tile `(column, row)` stands at position `row * columns + column` of
/// the sequence of tiles.
pub proof fn lemma_tile_position(
    a: Raster,
    tile_width: nat,
    tile_height: nat,
    column: int,
    row: int,
)
    requires
        a.has_tile(tile_width as int, tile_height as int, column, row),
    ensures
        0 <= row * a.tile_columns(tile_width as int) + column < a.tile_sequence(
            tile_width,
            tile_height,
        ).len(),
        a.tile_sequence(tile_width, tile_height)[row * a.tile_columns(tile_width as int) + column]
            == a.tile(tile_width, tile_height, column, row),
{
    let columns = a.tile_columns(tile_width as int);
    let rows = a.tile_rows(tile_height as int);
    let i = row * columns + column;
    assert(0 <= i < rows * columns) by (nonlinear_arith)
        requires
            0 <= column < columns,
            0 <= row < rows,
            i == row * columns + column,
    ;
    lemma_fundamental_div_mod_converse(i, columns, row, column);
}

/// Every position of the sequence of tiles is that of a tile of the grid.
pub proof fn lemma_tile_at(a: Raster, tile_width: nat, tile_height: nat, i: int)
    requires
        a.tiles_by(tile_width as int, tile_height as int),
        0 <= i < a.tile_sequence(tile_width, tile_height).len(),
    ensures
        a.has_tile(
            tile_width as int,
            tile_height as int,
            i % a.tile_columns(tile_width as int),
            i / a.tile_columns(tile_width as int),
        ),
        a.tile_sequence(tile_width, tile_height)[i] == a.tile(
            tile_width,
            tile_height,
            i % a.tile_columns(tile_width as int),
            i / a.tile_columns(tile_width as int),
        ),
{
    let columns = a.tile_columns(tile_width as int);
    let rows = a.tile_rows(tile_height as int);
    lemma_tile_counts(a, tile_width as int, tile_height as int);
    assert(columns > 0) by (nonlinear_arith)
        requires
            0 <= i < rows * columns,
            columns >= 0,
    ;
    lemma_fundamental_div_mod(i, columns);
    lemma_mod_pos_bound(i, columns);
    lemma_div_pos_is_pos(i, columns);
    assert(i / columns < rows) by (nonlinear_arith)
        requires
            i == columns * (i / columns) + i % columns,
            0 <= i % columns,
            i < rows * columns,
            columns > 0,
    ;
}

} // verus!
