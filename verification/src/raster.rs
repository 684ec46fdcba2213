//! The pixel buffer of a rendering.
//!
//! A raster is filled one pixel at a time: it names the next grid point to
//! sample, and takes the iteration count of that point. Pixels follow one
//! another column by column: the column index is the outer one, the row index
//! the inner one. `get_julia_set` fills a whole raster from a function that
//! gives the count of a grid point.

use vstd::prelude::*;
use crate::color::{colorize, pixel_of, Pixel};

verus! {

/// The grid point of a pixel, by the axis that each index drives: the row
/// index counts the steps along the real axis, the column index those along
/// the imaginary axis.
#[derive(Clone, Copy, Debug, PartialEq, Eq, Structural)]
pub struct Sample {
    pub real_steps: u32,
    pub imag_steps: u32,
}

/// The bytes of the pixels that stand for `counts`, four for each count:
/// byte `k` is channel `k % 4` of the pixel of `counts[k / 4]`.
pub open spec fn packed(counts: Seq<u32>) -> Seq<u8> {
    Seq::new(4 * counts.len(), |k: int| pixel_of(counts[k / 4]).bytes()[k % 4])
}

/// A raster as a mathematical value: its dimensions and the iteration counts
/// of the pixels written so far, in the order of writing.
pub struct RasterModel {
    pub width: nat,
    pub height: nat,
    pub counts: Seq<u32>,
}

impl RasterModel {
    /// The number of pixels of the full raster.
    pub open spec fn area(self) -> nat {
        self.width * self.height
    }

    /// The dimensions are those of a raster, and no more pixels are written
    /// than it has.
    pub open spec fn wf(self) -> bool {
        &&& self.width <= u32::MAX
        &&& self.height <= u32::MAX
        &&& self.counts.len() <= self.area()
    }

    /// Whether every pixel is written.
    pub open spec fn complete(self) -> bool {
        self.counts.len() == self.area()
    }

    /// The grid point of the pixel with the given index in writing order.
    pub open spec fn sample_at(self, index: nat) -> Sample
        recommends
            index < self.area(),
    {
        Sample {
            real_steps: (index % self.height) as u32,
            imag_steps: (index / self.height) as u32,
        }
    }

    /// The grid point of the next pixel to write.
    pub open spec fn next_sample(self) -> Sample
        recommends
            !self.complete(),
    {
        self.sample_at(self.counts.len())
    }

    /// The raster with one more pixel, which stands for `iter_index`.
    pub open spec fn push(self, iter_index: u32) -> RasterModel {
        RasterModel { counts: self.counts.push(iter_index), ..self }
    }

    /// The buffer: four bytes for each pixel written.
    pub open spec fn bytes(self) -> Seq<u8> {
        packed(self.counts)
    }

    /// Whether each count written is the one that `kernel` gives for the grid
    /// point of its pixel.
    pub open spec fn follows(self, kernel: spec_fn(Sample) -> u32) -> bool {
        forall|k: int|
            0 <= k < self.counts.len() ==> self.counts[k] == kernel(self.sample_at(k as nat))
    }
}

/// The buffer of the complete raster of the given dimensions in which the
/// count of every pixel is the one that `kernel` gives for its grid point.
pub open spec fn rendered(width: nat, height: nat, kernel: spec_fn(Sample) -> u32) -> Seq<u8> {
    let blank = RasterModel { width, height, counts: Seq::empty() };
    packed(Seq::new(blank.area(), |k: int| kernel(blank.sample_at(k as nat))))
}

/// Writing one more count appends the four bytes of its pixel.
pub proof fn lemma_packed_push(counts: Seq<u32>, iter_index: u32)
    ensures
        packed(counts.push(iter_index)) == packed(counts) + pixel_of(iter_index).bytes(),
{
    assert(packed(counts.push(iter_index)) =~= packed(counts) + pixel_of(iter_index).bytes());
}

/// The layout of the buffer: it has four bytes for each count, and those of
/// the pixel with index `p` are its red, green, blue and alpha channels, in
/// this order, from offset `4 * p`. The alpha byte is 255.
pub proof fn lemma_packed_layout(counts: Seq<u32>, p: int)
    requires
        0 <= p < counts.len(),
    ensures
        packed(counts).len() == 4 * counts.len(),
        packed(counts)[4 * p] == pixel_of(counts[p]).red,
        packed(counts)[4 * p + 1] == pixel_of(counts[p]).green,
        packed(counts)[4 * p + 2] == pixel_of(counts[p]).blue,
        packed(counts)[4 * p + 3] == pixel_of(counts[p]).alpha,
        packed(counts)[4 * p + 3] == 255,
{
}

/// The order of writing is column by column: the pixel of column `x` and
/// row `y` has the index `x * height + y`, and its grid point takes `y` steps
/// along the real axis and `x` steps along the imaginary axis.
pub proof fn lemma_sample_order(model: RasterModel, x: u32, y: u32)
    requires
        x < model.width <= u32::MAX,
        y < model.height <= u32::MAX,
    ensures
        x * model.height + y < model.area(),
        model.sample_at((x * model.height + y) as nat) == (Sample { real_steps: y, imag_steps: x }),
{
    let (w, h) = (model.width as int, model.height as int);
    assert(x * h + y < w * h) by (nonlinear_arith)
        requires
            0 <= x < w,
            0 <= y < h,
    ;
    assert(0 <= x * h) by (nonlinear_arith)
        requires
            0 <= x,
            0 <= h,
    ;
    vstd::arithmetic::div_mod::lemma_fundamental_div_mod_converse(x * h + y, h, x as int, y as int);
}

/// The grid point of a pixel of the raster lies in the grid: its steps are
/// the pixel's row and column, which the height and the width bound.
pub proof fn lemma_sample_in_grid(model: RasterModel, index: nat)
    requires
        index < model.area(),
        model.width <= u32::MAX,
        model.height <= u32::MAX,
    ensures
        model.sample_at(index).real_steps == index % model.height,
        model.sample_at(index).imag_steps == index / model.height,
        model.sample_at(index).real_steps < model.height,
        model.sample_at(index).imag_steps < model.width,
{
    let (w, h, i) = (model.width as int, model.height as int, index as int);
    assert(h > 0) by (nonlinear_arith)
        requires
            0 <= i < w * h,
            0 <= w,
            0 <= h,
    ;
    vstd::arithmetic::div_mod::lemma_fundamental_div_mod(i, h);
    assert(i / h < w) by (nonlinear_arith)
        requires
            0 <= i < w * h,
            i == h * (i / h) + i % h,
            0 <= i % h < h,
    ;
}

/// A raster being filled.
pub struct Raster {
    width: u32,
    height: u32,
    column: u32,
    row: u32,
    data: Vec<u8>,
    counts: Ghost<Seq<u32>>,
}

impl View for Raster {
    type V = RasterModel;

    closed spec fn view(&self) -> RasterModel {
        RasterModel {
            width: self.width as nat,
            height: self.height as nat,
            counts: self.counts@,
        }
    }
}

impl Raster {
    /// The buffer holds the pixels of the counts written, and the cursor
    /// stands at the grid point of the next pixel.
    pub closed spec fn wf(&self) -> bool {
        &&& self.data@ == packed(self.counts@)
        &&& self.counts@.len() == self.column * self.height + self.row
        &&& if self.width == 0 || self.height == 0 {
            self.column == 0 && self.row == 0
        } else {
            (self.column < self.width && self.row < self.height) || (self.column == self.width
                && self.row == 0)
        }
    }

    /// The cursor's column and row are the quotient and the remainder of the
    /// number of pixels written by the height, and the raster is complete
    /// exactly when the cursor has left the last column.
    proof fn lemma_cursor(&self)
        requires
            self.wf(),
        ensures
            self@.wf(),
            self@.complete() <==> (self.height == 0 || self.column == self.width),
            !self@.complete() ==> self.row == self.counts@.len() % (self.height as nat)
                && self.column == self.counts@.len() / (self.height as nat),
    {
        let (w, h) = (self.width as int, self.height as int);
        let (c, r) = (self.column as int, self.row as int);
        if w == 0 || h == 0 {
            assert(w * h == 0) by (nonlinear_arith)
                requires
                    w == 0 || h == 0,
            ;
            assert(c * h + r == 0) by (nonlinear_arith)
                requires
                    c == 0,
                    r == 0,
            ;
        } else if c < w {
            assert(c * h + r < w * h) by (nonlinear_arith)
                requires
                    0 <= c < w,
                    0 <= r < h,
            ;
            vstd::arithmetic::div_mod::lemma_fundamental_div_mod_converse(c * h + r, h, c, r);
        }
    }

    /// An empty raster of the given dimensions. Room for the whole buffer is
    /// reserved at once where its length can be the capacity of a vector.
    pub fn new(width: u32, height: u32) -> (raster: Raster)
        ensures
            raster.wf(),
            raster@ == (RasterModel {
                width: width as nat,
                height: height as nat,
                counts: Seq::empty(),
            }),
            raster@.wf(),
    {
        let row_len: u128 = 4 * (width as u128);
        assert(row_len * height <= 0x4_0000_0000 * 0x1_0000_0000) by (nonlinear_arith)
            requires
                row_len <= 0x4_0000_0000,
                height <= 0x1_0000_0000,
        ;
        let len: u128 = row_len * (height as u128);
        let data: Vec<u8> = if len <= isize::MAX as u128 {
            Vec::with_capacity(len as usize)
        } else {
            Vec::new()
        };
        let raster = Raster { width, height, column: 0, row: 0, data, counts: Ghost(Seq::empty()) };
        proof {
            assert(raster.data@ =~= packed(raster.counts@));
            assert(0 * (height as int) == 0);
            raster.lemma_cursor();
        }
        raster
    }

    /// The width in pixels.
    pub fn width(&self) -> (width: u32)
        ensures
            width == self@.width,
    {
        self.width
    }

    /// The height in pixels.
    pub fn height(&self) -> (height: u32)
        ensures
            height == self@.height,
    {
        self.height
    }

    /// Whether every pixel is written.
    pub fn is_complete(&self) -> (complete: bool)
        requires
            self.wf(),
        ensures
            complete == self@.complete(),
    {
        proof {
            self.lemma_cursor();
        }
        self.height == 0 || self.column == self.width
    }

    /// The grid point whose iteration count the raster wants next, or `None`
    /// when every pixel is written.
    pub fn next_sample(&self) -> (sample: Option<Sample>)
        requires
            self.wf(),
        ensures
            sample == if self@.complete() {
                None
            } else {
                Some(self@.next_sample())
            },
    {
        proof {
            self.lemma_cursor();
        }
        if self.height == 0 || self.column == self.width {
            None
        } else {
            Some(Sample { real_steps: self.row, imag_steps: self.column })
        }
    }

    /// Writes the pixel that stands for `iter_index` at the grid point that
    /// `next_sample` names. A complete raster is left as it is. Returns
    /// whether the pixel was written.
    pub fn push_pixel(&mut self, iter_index: u32) -> (written: bool)
        requires
            old(self).wf(),
        ensures
            final(self).wf(),
            final(self)@.wf(),
            written == !old(self)@.complete(),
            final(self)@ == if written {
                old(self)@.push(iter_index)
            } else {
                old(self)@
            },
    {
        proof {
            self.lemma_cursor();
        }
        if self.height == 0 || self.column == self.width {
            return false;
        }
        let px: Pixel = colorize(iter_index);
        self.data.push(px.red);
        self.data.push(px.green);
        self.data.push(px.blue);
        self.data.push(px.alpha);
        self.row = self.row + 1;
        if self.row == self.height {
            self.row = 0;
            self.column = self.column + 1;
        }
        proof {
            lemma_packed_push(self.counts@, iter_index);
            assert(self.data@ =~= old(self).data@ + px.bytes());
            let h = self.height as int;
            let (c0, r0) = (old(self).column as int, old(self).row as int);
            let (c1, r1) = (self.column as int, self.row as int);
            assert(c1 * h + r1 == c0 * h + r0 + 1) by (nonlinear_arith)
                requires
                    (c1 == c0 && r1 == r0 + 1) || (c1 == c0 + 1 && r1 == 0 && r0 + 1 == h),
            ;
            self.counts = Ghost(self.counts@.push(iter_index));
            self.lemma_cursor();
        }
        true
    }

    /// The buffer of the pixels written so far.
    pub fn into_bytes(self) -> (bytes: Vec<u8>)
        requires
            self.wf(),
        ensures
            bytes@ == self@.bytes(),
            bytes@.len() == 4 * self@.counts.len(),
            self@.complete() ==> bytes@.len() == 4 * self@.width * self@.height,
            forall|k: int| 0 <= k < bytes@.len() && k % 4 == 3 ==> bytes@[k] == 255,
    {
        proof {
            let model = self@;
            assert(4 * (model.width * model.height) == 4 * model.width * model.height)
                by (nonlinear_arith);
        }
        self.data
    }
}

/// Renders the raster of the given dimensions: asks `kernel` for the iteration
/// count of each grid point, column by column, and returns the RGBA bytes of
/// the pixels in that order. A raster without pixels gives an empty buffer.
pub fn get_julia_set<K: Fn(Sample) -> u32>(width: u32, height: u32, kernel: K) -> (bytes: Vec<u8>)
    requires
        forall|sample: Sample|
            sample.imag_steps < width && sample.real_steps < height ==> kernel.requires((sample,)),
    ensures
        bytes@.len() == 4 * width * height,
        forall|k: int| 0 <= k < bytes@.len() && k % 4 == 3 ==> bytes@[k] == 255,
        exists|model: RasterModel|
            {
                &&& model.width == width
                &&& model.height == height
                &&& model.complete()
                &&& forall|p: int|
                    0 <= p < model.counts.len() ==> kernel.ensures(
                        (model.sample_at(p as nat),),
                        #[trigger] model.counts[p],
                    )
                &&& bytes@ == model.bytes()
            },
        forall|count_of: spec_fn(Sample) -> u32|
            (forall|sample: Sample, count: u32| #[trigger]
                kernel.ensures((sample,), count) ==> count == count_of(sample)) ==> bytes@
                == #[trigger] rendered(width as nat, height as nat, count_of),
{
    let mut raster = Raster::new(width, height);
    loop
        invariant
            forall|sample: Sample|
                sample.imag_steps < width && sample.real_steps < height ==> kernel.requires(
                    (sample,),
                ),
            raster.wf(),
            raster@.wf(),
            raster@.width == width,
            raster@.height == height,
            forall|p: int|
                0 <= p < raster@.counts.len() ==> kernel.ensures(
                    (raster@.sample_at(p as nat),),
                    #[trigger] raster@.counts[p],
                ),
        ensures
            raster@.complete(),
        decreases raster@.area() - raster@.counts.len(),
    {
        match raster.next_sample() {
            None => {
                break ;
            },
            Some(sample) => {
                proof {
                    lemma_sample_in_grid(raster@, raster@.counts.len());
                }
                let iter_index = kernel(sample);
                raster.push_pixel(iter_index);
            },
        }
    }
    let ghost model = raster@;
    let bytes = raster.into_bytes();
    assert(model.complete() && bytes@ == model.bytes());
    assert forall|count_of: spec_fn(Sample) -> u32|
        (forall|sample: Sample, count: u32| #[trigger]
            kernel.ensures((sample,), count) ==> count == count_of(sample)) implies bytes@
        == #[trigger] rendered(width as nat, height as nat, count_of) by {
        assert(model.follows(count_of));
        lemma_complete_is_rendered(model, count_of);
    }
    bytes
}

/// Answering the raster's next grid point with the count that `kernel` gives
/// for it keeps the raster following `kernel`.
pub proof fn lemma_push_follows(model: RasterModel, kernel: spec_fn(Sample) -> u32)
    requires
        model.follows(kernel),
    ensures
        model.push(kernel(model.next_sample())).follows(kernel),
{
}

/// A complete raster that follows `kernel` holds the rendering of `kernel`.
pub proof fn lemma_complete_is_rendered(model: RasterModel, kernel: spec_fn(Sample) -> u32)
    requires
        model.complete(),
        model.follows(kernel),
    ensures
        model.bytes() == rendered(model.width, model.height, kernel),
{
    let blank = RasterModel { width: model.width, height: model.height, counts: Seq::empty() };
    assert(model.counts =~= Seq::new(blank.area(), |k: int| kernel(blank.sample_at(k as nat))));
}

/// A rendering has four bytes for each pixel of the raster.
pub proof fn lemma_rendered_len(width: nat, height: nat, kernel: spec_fn(Sample) -> u32)
    ensures
        rendered(width, height, kernel).len() == 4 * width * height,
{
    assert(4 * (width * height) == 4 * width * height) by (nonlinear_arith);
}

/// Every fourth byte of a rendering, from offset 3 on, is 255.
pub proof fn lemma_rendered_alpha(width: nat, height: nat, kernel: spec_fn(Sample) -> u32)
    ensures
        forall|k: int|
            0 <= k < rendered(width, height, kernel).len() && k % 4 == 3 ==> rendered(
                width,
                height,
                kernel,
            )[k] == 255,
{
}

/// Two complete rasters of the same dimensions that follow the same kernel
/// hold the same bytes.
pub proof fn lemma_rendering_is_determined(
    first: RasterModel,
    second: RasterModel,
    kernel: spec_fn(Sample) -> u32,
)
    requires
        first.width == second.width,
        first.height == second.height,
        first.complete(),
        second.complete(),
        first.follows(kernel),
        second.follows(kernel),
    ensures
        first.bytes() == second.bytes(),
{
    lemma_complete_is_rendered(first, kernel);
    lemma_complete_is_rendered(second, kernel);
}

} // verus!
