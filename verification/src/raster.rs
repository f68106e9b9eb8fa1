//! Pictures in memory and the cutting of tiles out of them.

use crate::geometry::{
    lemma_covered_region, lemma_emission_order, lemma_piece_is_empty, lemma_piece_of_position,
    lemma_tile_within_source, Grid, GridPlan,
};
use vstd::prelude::*;

verus! {

/// One pixel: red, green, blue and alpha, eight bits each.
#[derive(Clone, Copy, Debug, PartialEq, Eq, Structural)]
pub struct Rgba {
    pub red: u8,
    pub green: u8,
    pub blue: u8,
    pub alpha: u8,
}

/// The mathematical description of a picture: `height` rows of `width`
/// pixels each, the top row first, each row from left to right.
pub struct Picture {
    pub width: nat,
    pub height: nat,
    pub rows: Seq<Seq<Rgba>>,
}

impl Picture {
    /// There are `height` rows, and each holds `width` pixels.
    pub open spec fn valid(self) -> bool {
        &&& self.rows.len() == self.height
        &&& forall|y: int| 0 <= y < self.height ==> (#[trigger] self.rows[y]).len() == self.width
    }

    /// The pixel in column `x` of row `y`.
    pub open spec fn pixel(self, x: int, y: int) -> Rgba {
        self.rows[y][x]
    }

    /// The part of the picture that is `width` wide and `height` high and
    /// has its top left corner at `(x, y)`.
    pub open spec fn crop(self, x: int, y: int, width: nat, height: nat) -> Picture {
        Picture {
            width,
            height,
            rows: Seq::new(height, |b: int| Seq::new(width, |a: int| self.rows[y + b][x + a])),
        }
    }

    /// Tile `(column, row)` of the picture under `grid`.
    pub open spec fn tile(self, grid: Grid, column: int, row: int) -> Picture {
        self.crop(grid.origin_x(column), grid.origin_y(row), grid.tile_width(), grid.tile_height())
    }
}

/// Place in a buffer of samples of channel `channel` of the pixel at
/// `(x, y)`, for a picture `width` pixels wide: rows follow one another,
/// and each pixel takes four samples.
pub open spec fn sample_index(width: int, x: int, y: int, channel: int) -> int {
    4 * (y * width + x) + channel
}

/// The picture that a buffer of samples holds.
pub open spec fn picture_of(width: nat, height: nat, samples: Seq<u8>) -> Picture {
    Picture {
        width,
        height,
        rows: Seq::new(
            height,
            |y: int|
                Seq::new(
                    width,
                    |x: int|
                        Rgba {
                            red: samples[sample_index(width as int, x, y, 0)],
                            green: samples[sample_index(width as int, x, y, 1)],
                            blue: samples[sample_index(width as int, x, y, 2)],
                            alpha: samples[sample_index(width as int, x, y, 3)],
                        },
                ),
        ),
    }
}

/// Along the samples of a picture: the four samples of an inside pixel lie
/// inside the buffer.
pub proof fn lemma_sample_inside(width: int, height: int, x: int, y: int, channel: int)
    requires
        0 <= x < width,
        0 <= y < height,
        0 <= channel < 4,
    ensures
        0 <= sample_index(width, x, y, channel) < 4 * (width * height),
        0 <= y * width + x < width * height,
{
    assert(0 <= y * width && y * width + width <= height * width && height * width == width
        * height) by (nonlinear_arith)
        requires
            0 <= y,
            y + 1 <= height,
            0 < width,
    ;
}

impl Picture {
    /// The picture made by laying tiles side by side in the places that
    /// `grid` gives them. `tiles` holds them in the order of emission.
    pub open spec fn stitch(tiles: Seq<Picture>, grid: Grid) -> Picture {
        Picture {
            width: grid.covered_width(),
            height: grid.covered_height(),
            rows: Seq::new(
                grid.covered_height(),
                |y: int|
                    Seq::new(
                        grid.covered_width(),
                        |x: int|
                            tiles[grid.index_of(
                                x / (grid.tile_width() as int),
                                y / (grid.tile_height() as int),
                            )].pixel(
                                x % (grid.tile_width() as int),
                                y % (grid.tile_height() as int),
                            ),
                    ),
            ),
        }
    }
}

/// Every tile is a valid picture of the tile size, and each of its pixels
/// is the source pixel that lies as far from the tile's origin; that source
/// pixel lies in the covered part of the source.
pub proof fn lemma_tile_pixels(source: Picture, grid: Grid, column: int, row: int, a: int, b: int)
    requires
        grid.valid(),
        source.valid(),
        source.width == grid.width,
        source.height == grid.height,
        grid.has_tile(column, row),
    ensures
        source.tile(grid, column, row).valid(),
        source.tile(grid, column, row).width == grid.tile_width(),
        source.tile(grid, column, row).height == grid.tile_height(),
        0 <= a < grid.tile_width() && 0 <= b < grid.tile_height() ==> {
            &&& source.tile(grid, column, row).pixel(a, b) == source.pixel(
                grid.origin_x(column) + a,
                grid.origin_y(row) + b,
            )
            &&& 0 <= grid.origin_x(column) + a < grid.covered_width()
            &&& 0 <= grid.origin_y(row) + b < grid.covered_height()
        },
{
    lemma_tile_within_source(grid, column, row);
}

/// Pixel fidelity: a source pixel in the covered part of the source is
/// found again in the tile whose grid coordinates are the pixel's
/// coordinates divided by the tile size, at the remainders of those
/// divisions.
pub proof fn lemma_pixel_fidelity(source: Picture, grid: Grid, x: int, y: int)
    requires
        grid.valid(),
        source.valid(),
        source.width == grid.width,
        source.height == grid.height,
        0 <= x < grid.covered_width(),
        0 <= y < grid.covered_height(),
    ensures
        grid.has_tile(x / (grid.tile_width() as int), y / (grid.tile_height() as int)),
        0 <= x % (grid.tile_width() as int) < grid.tile_width(),
        0 <= y % (grid.tile_height() as int) < grid.tile_height(),
        source.tile(grid, x / (grid.tile_width() as int), y / (grid.tile_height() as int)).pixel(
            x % (grid.tile_width() as int),
            y % (grid.tile_height() as int),
        ) == source.pixel(x, y),
{
    let tw: int = grid.tile_width() as int;
    let th: int = grid.tile_height() as int;
    lemma_covered_region(grid, x, y);
    assert(grid.tile_holds(x / tw, y / th, x, y));
    lemma_piece_of_position(grid.tile_width(), x / tw, x);
    lemma_piece_of_position(grid.tile_height(), y / th, y);
    lemma_tile_pixels(source, grid, x / tw, y / th, x % tw, y % th);
}

/// Reassembly: the tiles of a picture, laid side by side in grid order,
/// make up the picture cut down to the covered part.
pub proof fn lemma_reassembly(source: Picture, grid: Grid, tiles: Seq<Picture>)
    requires
        grid.valid(),
        source.valid(),
        source.width == grid.width,
        source.height == grid.height,
        tiles.len() == grid.tile_count(),
        forall|index: int|
            0 <= index < tiles.len() ==> #[trigger] tiles[index] == source.tile(
                grid,
                grid.column_of(index),
                grid.row_of(index),
            ),
    ensures
        Picture::stitch(tiles, grid) == source.crop(
            0,
            0,
            grid.covered_width(),
            grid.covered_height(),
        ),
{
    let whole = Picture::stitch(tiles, grid);
    let cut = source.crop(0, 0, grid.covered_width(), grid.covered_height());
    let tw: int = grid.tile_width() as int;
    let th: int = grid.tile_height() as int;
    assert forall|y: int| 0 <= y < grid.covered_height() implies #[trigger] whole.rows[y]
        == cut.rows[y] by {
        assert forall|x: int| 0 <= x < grid.covered_width() implies #[trigger] whole.rows[y][x]
            == cut.rows[y][x] by {
            lemma_pixel_fidelity(source, grid, x, y);
            let index: int = grid.index_of(x / tw, y / th);
            lemma_emission_order(grid, x / tw, y / th, index);
            assert(tiles[index] == source.tile(grid, x / tw, y / th));
        }
        assert(whole.rows[y] =~= cut.rows[y]);
    }
    assert(whole.rows =~= cut.rows);
}

/// A picture in memory: its size and its samples, four for each pixel (red,
/// green, blue, alpha), row after row from the top.
#[derive(Clone, Debug, PartialEq, Eq)]
pub struct Raster {
    width: u32,
    height: u32,
    samples: Vec<u8>,
}

impl View for Raster {
    type V = Picture;

    open spec fn view(&self) -> Picture {
        picture_of(self.extent().0, self.extent().1, self.raw())
    }
}

impl Raster {
    /// Width and height of the picture, in pixels.
    pub closed spec fn extent(&self) -> (nat, nat) {
        (self.width as nat, self.height as nat)
    }

    /// The samples of the picture, in the order in which they are stored.
    pub closed spec fn raw(&self) -> Seq<u8> {
        self.samples@
    }

    /// The buffer holds exactly four samples for each pixel.
    pub open spec fn wf(&self) -> bool {
        &&& self.raw().len() == 4 * (self.extent().0 * self.extent().1)
        &&& self.extent().0 <= u32::MAX
        &&& self.extent().1 <= u32::MAX
    }

    /// Makes a picture of `width` by `height` pixels from its samples.
    /// There is a picture exactly when `samples` holds four samples for
    /// each pixel.
    pub fn from_rgba8(width: u32, height: u32, samples: Vec<u8>) -> (made: Option<Raster>)
        ensures
            made is Some <==> samples@.len() == 4 * (width * height),
            made matches Some(raster) ==> {
                &&& raster.wf()
                &&& raster.extent() == (width as nat, height as nat)
                &&& raster.raw() == samples@
            },
    {
        assert(4 * (width * height) <= 0x4_0000_0000_0000_0000) by (nonlinear_arith)
            requires
                0 <= width <= 0xffff_ffff,
                0 <= height <= 0xffff_ffff,
        ;
        let pixels: u128 = (width as u128) * (height as u128);
        let needed: u128 = 4 * pixels;
        if samples.len() as u128 == needed {
            Some(Raster { width, height, samples })
        } else {
            None
        }
    }

    /// Width of the picture in pixels.
    pub fn width(&self) -> (w: u32)
        ensures
            w == self@.width,
    {
        self.width
    }

    /// Height of the picture in pixels.
    pub fn height(&self) -> (h: u32)
        ensures
            h == self@.height,
    {
        self.height
    }

    /// The pixel at `(x, y)`, if the picture has one there.
    pub fn pixel(&self, x: u32, y: u32) -> (found: Option<Rgba>)
        requires
            self.wf(),
        ensures
            found == if x < self@.width && y < self@.height {
                Some(self@.pixel(x as int, y as int))
            } else {
                None
            },
    {
        if x < self.width && y < self.height {
            let stored: usize = self.samples.len();
            proof {
                lemma_sample_inside(self.width as int, self.height as int, x as int, y as int, 0);
                lemma_sample_inside(self.width as int, self.height as int, x as int, y as int, 3);
                assert(stored == 4 * (self.width * self.height));
                assert(0 <= y * self.width) by (nonlinear_arith)
                    requires
                        0 <= y,
                        0 <= self.width,
                ;
            }
            let base: usize = 4 * ((y as usize) * (self.width as usize) + (x as usize));
            Some(
                Rgba {
                    red: self.samples[base],
                    green: self.samples[base + 1],
                    blue: self.samples[base + 2],
                    alpha: self.samples[base + 3],
                },
            )
        } else {
            None
        }
    }

    /// Gives up the picture for its samples.
    pub fn into_raw(self) -> (samples: Vec<u8>)
        ensures
            samples@ == self.raw(),
    {
        self.samples
    }

    /// Cuts tile `(column, row)` of `plan` out of the picture. The picture
    /// itself stays as it was.
    pub fn tile(&mut self, plan: &GridPlan, column: u32, row: u32) -> (tile: Raster)
        requires
            old(self).wf(),
            plan.wf(),
            plan@.width == old(self)@.width,
            plan@.height == old(self)@.height,
            plan@.has_tile(column as int, row as int),
        ensures
            final(self).wf(),
            final(self).extent() == old(self).extent(),
            final(self).raw() == old(self).raw(),
            tile.wf(),
            tile@.width == plan@.tile_width(),
            tile@.height == plan@.tile_height(),
            tile@ == old(self)@.tile(plan@, column as int, row as int),
    {
        let corner = plan.origin(column, row);
        let width: u32 = plan.tile_width();
        let height: u32 = plan.tile_height();
        let samples = if self.width == 0 || self.height == 0 {
            proof {
                lemma_piece_is_empty(plan@.width, plan@.columns);
                lemma_piece_is_empty(plan@.height, plan@.rows);
                assert(width * height == 0) by (nonlinear_arith)
                    requires
                        width == 0 || height == 0,
                ;
            }
            Vec::new()
        } else {
            crop_rgba8(
                &mut self.samples,
                self.width,
                self.height,
                corner.0,
                corner.1,
                width,
                height,
            )
        };
        let tile = Raster { width, height, samples };
        proof {
            lemma_picture_of_crop(
                old(self).raw(),
                old(self).extent().0,
                old(self).extent().1,
                tile.raw(),
                corner.0 as int,
                corner.1 as int,
                width as nat,
                height as nat,
            );
        }
        tile
    }
}

/// A buffer whose samples are those of a region of another buffer holds
/// the crop of that buffer's picture.
proof fn lemma_picture_of_crop(
    source: Seq<u8>,
    source_width: nat,
    source_height: nat,
    region: Seq<u8>,
    x: int,
    y: int,
    width: nat,
    height: nat,
)
    requires
        0 <= x,
        0 <= y,
        x + width <= source_width,
        y + height <= source_height,
        forall|a: int, b: int, c: int|
            0 <= a < width && 0 <= b < height && 0 <= c < 4 ==> #[trigger] region[sample_index(
                width as int,
                a,
                b,
                c,
            )] == source[sample_index(source_width as int, x + a, y + b, c)],
    ensures
        picture_of(width, height, region) == picture_of(source_width, source_height, source).crop(
            x,
            y,
            width,
            height,
        ),
{
    let made = picture_of(width, height, region);
    let cut = picture_of(source_width, source_height, source).crop(x, y, width, height);
    assert forall|b: int| 0 <= b < height implies #[trigger] made.rows[b] == cut.rows[b] by {
        assert forall|a: int| 0 <= a < width implies #[trigger] made.rows[b][a] == cut.rows[b][a] by {
            assert(region[sample_index(width as int, a, b, 0)] == source[sample_index(
                source_width as int,
                x + a,
                y + b,
                0,
            )]);
            assert(region[sample_index(width as int, a, b, 1)] == source[sample_index(
                source_width as int,
                x + a,
                y + b,
                1,
            )]);
            assert(region[sample_index(width as int, a, b, 2)] == source[sample_index(
                source_width as int,
                x + a,
                y + b,
                2,
            )]);
            assert(region[sample_index(width as int, a, b, 3)] == source[sample_index(
                source_width as int,
                x + a,
                y + b,
                3,
            )]);
        }
        assert(made.rows[b] =~= cut.rows[b]);
    }
    assert(made.rows =~= cut.rows);
}

/// Calls `image::imageops::crop` on an `image::RgbaImage` made of
/// `samples`, and `to_image` on the view that it returns. The picture has
/// at least one pixel and `samples` holds exactly its samples, so the image
/// can be made; the region asked for lies inside the picture, so nothing is
/// clamped. The contract claims that the result holds four samples for
/// each pixel of the region, rows following one another, and that the
/// pixel at `(a, b)` of the result is the pixel at `(x + a, y + b)` of the
/// picture. The samples are lent to the image for the call and handed back
/// as they were.
#[verifier::external_body]
fn crop_rgba8(
    samples: &mut Vec<u8>,
    source_width: u32,
    source_height: u32,
    x: u32,
    y: u32,
    width: u32,
    height: u32,
) -> (region: Vec<u8>)
    requires
        source_width >= 1,
        source_height >= 1,
        old(samples)@.len() == 4 * (source_width * source_height),
        x + width <= source_width,
        y + height <= source_height,
    ensures
        final(samples)@ == old(samples)@,
        region@.len() == 4 * (width * height),
        forall|a: int, b: int, c: int|
            0 <= a < width && 0 <= b < height && 0 <= c < 4 ==> #[trigger] region@[sample_index(
                width as int,
                a,
                b,
                c,
            )] == old(samples)@[sample_index(source_width as int, x + a, y + b, c)],
{
    let lent = std::mem::take(samples);
    let mut source = image::RgbaImage::from_raw(source_width, source_height, lent).unwrap();
    let region = image::imageops::crop(&mut source, x, y, width, height).to_image();
    *samples = source.into_raw();
    region.into_raw()
}

} // verus!
