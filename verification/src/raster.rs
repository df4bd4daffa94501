//! The raster form of a barcode: PNG bytes of the bare barcode, and the
//! canvas of a label, on which the barcode stands between caption bands.

use vstd::prelude::*;
use vstd::arithmetic::div_mod::lemma_fundamental_div_mod_converse;
use barcoders::generators::image::Image;
use vstd::string::StringExecFns;
use crate::compositor::{centered_x, place, place_at, Placement, TEXT_PADDING};
use crate::error::BarcodeError;
use crate::symbology::ModuleTrain;

verus! {

/// The height of the barcode band, in pixels.
pub const BARCODE_HEIGHT: u32 = 44;

/// The space above and below the text of a caption, in pixels.
pub const PADDING: u32 = 4;

/// The height of a caption's text, in pixels.
pub const FONT_SIZE: u32 = 22;

/// The height of a caption band: the text and the space above and below it.
pub const CAPTION_HEIGHT: u32 = FONT_SIZE + 2 * PADDING;

/// The place of channel `ch` of the pixel at column `x` and row `y` in a
/// buffer of rows of `width` pixels with three channels each.
pub open spec fn rgb_index(width: int, x: int, y: int, ch: int) -> int {
    3 * (y * width + x) + ch
}

/// The place of channel `ch` of the pixel at column `x` and row `y` in a
/// buffer of rows of `width` pixels with four channels each.
pub open spec fn rgba_index(width: int, x: int, y: int, ch: int) -> int {
    4 * (y * width + x) + ch
}

/// An image of red, green and blue bytes, row by row from the top.
pub struct Raster {
    pub width: nat,
    pub height: nat,
    pub pixels: Seq<u8>,
}

impl Raster {
    /// The buffer holds three bytes for every pixel.
    pub open spec fn wf(self) -> bool {
        self.pixels.len() == 3 * (self.width * self.height)
    }

    /// Whether the image has a pixel at column `x` and row `y`.
    pub open spec fn inside(self, x: int, y: int) -> bool {
        0 <= x < self.width && 0 <= y < self.height
    }

    /// Channel `ch` (0 red, 1 green, 2 blue) of the pixel at `x`, `y`.
    pub open spec fn channel(self, x: int, y: int, ch: int) -> u8 {
        self.pixels[rgb_index(self.width as int, x, y, ch)]
    }
}

proof fn lemma_index_bounds(width: int, height: int, x: int, y: int, ch: int, channels: int)
    requires
        0 <= x < width,
        0 <= y < height,
        0 <= ch < channels,
    ensures
        0 <= y * width + x < width * height,
        0 <= channels * (y * width + x) + ch < channels * (width * height),
{
    assert(0 <= y * width + x < width * height) by (nonlinear_arith)
        requires
            0 <= x < width,
            0 <= y < height,
    ;
    assert(channels * (y * width + x) + ch < channels * (width * height)) by (nonlinear_arith)
        requires
            0 <= y * width + x < width * height,
            0 <= ch < channels,
    ;
    assert(0 <= channels * (y * width + x)) by (nonlinear_arith)
        requires
            0 <= y * width + x,
            0 < channels,
    ;
}

proof fn lemma_rgb_index_injective(
    width: int,
    x1: int,
    y1: int,
    c1: int,
    x2: int,
    y2: int,
    c2: int,
)
    requires
        0 <= x1 < width,
        0 <= x2 < width,
        0 <= y1,
        0 <= y2,
        0 <= c1 < 3,
        0 <= c2 < 3,
        rgb_index(width, x1, y1, c1) == rgb_index(width, x2, y2, c2),
    ensures
        x1 == x2 && y1 == y2 && c1 == c2,
{
    let k = rgb_index(width, x1, y1, c1);
    lemma_fundamental_div_mod_converse(k, 3, y1 * width + x1, c1);
    lemma_fundamental_div_mod_converse(k, 3, y2 * width + x2, c2);
    let q = k / 3;
    lemma_fundamental_div_mod_converse(q, width, y1, x1);
    lemma_fundamental_div_mod_converse(q, width, y2, x2);
}

/// The canvas of a label: an RGB image that the library fills and hands on.
#[derive(Debug)]
pub struct Canvas {
    width: u32,
    height: u32,
    pixels: Vec<u8>,
}

impl View for Canvas {
    type V = Raster;

    closed spec fn view(&self) -> Raster {
        Raster { width: self.width as nat, height: self.height as nat, pixels: self.pixels@ }
    }
}

impl Canvas {
    #[verifier::type_invariant]
    spec fn well_formed(&self) -> bool {
        self.pixels@.len() == 3 * (self.width * self.height)
    }

    /// The width in pixels.
    pub fn width(&self) -> (r: u32)
        ensures
            r == self@.width,
    {
        self.width
    }

    /// The height in pixels.
    pub fn height(&self) -> (r: u32)
        ensures
            r == self@.height,
    {
        self.height
    }

    /// The bytes of the image, three for each pixel, row by row.
    pub fn pixels(&self) -> (r: &Vec<u8>)
        ensures
            r@ == self@.pixels,
            self@.wf(),
    {
        proof {
            use_type_invariant(self);
        }
        &self.pixels
    }

    /// Gives up the canvas for its bytes.
    pub fn into_raw(self) -> (r: Vec<u8>)
        ensures
            r@ == self@.pixels,
            self@.wf(),
    {
        proof {
            use_type_invariant(&self);
        }
        self.pixels
    }

    /// A canvas of the given size, all white.
    ///
    /// There is none if and only if its bytes would be more than the
    /// machine can address.
    pub fn white(width: u32, height: u32) -> (r: Option<Canvas>)
        ensures
            match r {
                Some(canvas) => {
                    &&& canvas@.width == width
                    &&& canvas@.height == height
                    &&& canvas@.wf()
                    &&& forall|k: int| 0 <= k < canvas@.pixels.len() ==> canvas@.pixels[k] == 255
                },
                None => 3 * (width * height) > usize::MAX,
            },
    {
        proof {
            assert(width * height <= 0xffff_ffff * 0xffff_ffff) by (nonlinear_arith)
                requires
                    width <= 0xffff_ffff,
                    height <= 0xffff_ffff,
            ;
        }
        let bytes: u128 = 3 * ((width as u128) * (height as u128));
        if bytes > usize::MAX as u128 {
            return None;
        }
        let n: usize = bytes as usize;
        let mut pixels: Vec<u8> = Vec::new();
        let mut i: usize = 0;
        while i < n
            invariant
                i <= n,
                pixels@.len() == i,
                forall|k: int| 0 <= k < i ==> pixels@[k] == 255,
            decreases n - i,
        {
            pixels.push(255);
            i += 1;
        }
        Some(Canvas { width, height, pixels })
    }

    /// Copies an image of red, green, blue and alpha bytes onto the canvas,
    /// with its top left corner at column `left` and row `top`. What falls
    /// outside the canvas is left out; alpha is not looked at.
    ///
    /// The format error comes if and only if `source` has not four bytes
    /// for each of its pixels.
    pub fn overlay_rgba(
        self,
        source: &Vec<u8>,
        source_width: u32,
        source_height: u32,
        left: u32,
        top: u32,
    ) -> (r: Result<Canvas, BarcodeError>)
        ensures
            match r {
                Ok(canvas) => {
                    &&& source@.len() == 4 * (source_width * source_height)
                    &&& canvas@.width == self@.width
                    &&& canvas@.height == self@.height
                    &&& canvas@.wf()
                    &&& forall|x: int, y: int, ch: int|
                        canvas@.inside(x, y) && 0 <= ch < 3 ==> #[trigger] canvas@.channel(x, y, ch)
                            == (if left <= x < left + source_width && top <= y < top
                            + source_height {
                            source@[rgba_index(source_width as int, x - left, y - top, ch)]
                        } else {
                            self@.channel(x, y, ch)
                        })
                },
                Err(e) => e == BarcodeError::Format && source@.len() != 4 * (source_width
                    * source_height),
            },
    {
        proof {
            assert(source_width * source_height <= 0xffff_ffff * 0xffff_ffff) by (nonlinear_arith)
                requires
                    source_width <= 0xffff_ffff,
                    source_height <= 0xffff_ffff,
            ;
        }
        let expected: u128 = 4 * ((source_width as u128) * (source_height as u128));
        if source.len() as u128 != expected {
            return Err(BarcodeError::Format);
        }
        proof {
            use_type_invariant(&self);
        }
        let width = self.width;
        let height = self.height;
        let mut pixels = self.pixels;
        let total: usize = pixels.len();
        let bytes: usize = source.len();
        let ghost before = pixels@;
        let ghost w = width as int;
        let ghost sw = source_width as int;
        let mut sy: u32 = 0;
        while sy < source_height && (top as u64 + sy as u64) < height as u64
            invariant
                sy <= source_height,
                total == before.len(),
                bytes == source@.len(),
                w == width,
                sw == source_width,
                source@.len() == 4 * (source_width * source_height),
                pixels@.len() == before.len(),
                before.len() == 3 * (width * height),
                forall|x: int, y: int, ch: int|
                    0 <= x < width && 0 <= y < height && 0 <= ch < 3 ==> pixels@[#[trigger] rgb_index(
                        w,
                        x,
                        y,
                        ch,
                    )] == (if left <= x < left + source_width && top <= y < top + sy {
                        source@[rgba_index(sw, x - left, y - top, ch)]
                    } else {
                        before[rgb_index(w, x, y, ch)]
                    }),
            decreases source_height - sy,
        {
            let y: u32 = top + sy;
            let mut sx: u32 = 0;
            while sx < source_width && (left as u64 + sx as u64) < width as u64
                invariant
                    sx <= source_width,
                    sy < source_height,
                    total == before.len(),
                    bytes == source@.len(),
                    y == top + sy,
                    y < height,
                    w == width,
                    sw == source_width,
                    source@.len() == 4 * (source_width * source_height),
                    pixels@.len() == before.len(),
                    before.len() == 3 * (width * height),
                    forall|x: int, y2: int, ch: int|
                        0 <= x < width && 0 <= y2 < height && 0 <= ch < 3 ==> pixels@[#[trigger] rgb_index(
                            w,
                            x,
                            y2,
                            ch,
                        )] == (if left <= x < left + source_width && (top <= y2 < top + sy || (y2
                            == y && x < left + sx)) {
                            source@[rgba_index(sw, x - left, y2 - top, ch)]
                        } else {
                            before[rgb_index(w, x, y2, ch)]
                        }),
                decreases source_width - sx,
            {
                let x: u32 = left + sx;
                proof {
                    lemma_index_bounds(w, height as int, x as int, y as int, 0, 3);
                    lemma_index_bounds(w, height as int, x as int, y as int, 2, 3);
                    lemma_index_bounds(sw, source_height as int, sx as int, sy as int, 0, 4);
                    lemma_index_bounds(sw, source_height as int, sx as int, sy as int, 2, 4);
                    assert(y * width >= 0 && sy * source_width >= 0) by (nonlinear_arith)
                        requires
                            y >= 0,
                            width >= 0,
                            sy >= 0,
                            source_width >= 0,
                    ;
                }
                let d: usize = 3 * (y as usize * width as usize + x as usize);
                let s: usize = 4 * (sy as usize * source_width as usize + sx as usize);
                let ghost row = pixels@;
                pixels.set(d, source[s]);
                pixels.set(d + 1, source[s + 1]);
                pixels.set(d + 2, source[s + 2]);
                proof {
                    assert forall|x2: int, y2: int, ch: int|
                        0 <= x2 < width && 0 <= y2 < height && 0 <= ch < 3 implies pixels@[#[trigger] rgb_index(
                        w,
                        x2,
                        y2,
                        ch,
                    )] == (if left <= x2 < left + source_width && (top <= y2 < top + sy || (y2 == y
                        && x2 < left + sx + 1)) {
                        source@[rgba_index(sw, x2 - left, y2 - top, ch)]
                    } else {
                        before[rgb_index(w, x2, y2, ch)]
                    }) by {
                        lemma_index_bounds(w, height as int, x2, y2, ch, 3);
                        let k = rgb_index(w, x2, y2, ch);
                        if x2 == x && y2 == y {
                            assert(k == d + ch);
                        } else {
                            if k == d {
                                lemma_rgb_index_injective(w, x2, y2, ch, x as int, y as int, 0);
                            }
                            if k == d + 1 {
                                lemma_rgb_index_injective(w, x2, y2, ch, x as int, y as int, 1);
                            }
                            if k == d + 2 {
                                lemma_rgb_index_injective(w, x2, y2, ch, x as int, y as int, 2);
                            }
                            assert(pixels@[k] == row[k]);
                        }
                    }
                }
                sx += 1;
            }
            sy += 1;
        }
        proof {
            assert forall|x: int, y: int, ch: int|
                0 <= x < width && 0 <= y < height && 0 <= ch < 3 implies pixels@[#[trigger] rgb_index(
                w,
                x,
                y,
                ch,
            )] == (if left <= x < left + source_width && top <= y < top + source_height {
                source@[rgba_index(sw, x - left, y - top, ch)]
            } else {
                before[rgb_index(w, x, y, ch)]
            }) by {}
        }
        Ok(Canvas { width, height, pixels })
    }
}

/// What `Image::generate` of `barcoders` returns for the PNG generator of
/// the given height and for the given modules: the bytes of a PNG file, or
/// nothing where the generator fails.
pub uninterp spec fn png_image(height: u32, modules: Seq<u8>) -> Option<Seq<u8>>;

/// `Image::generate` of `barcoders`, for the generator that
/// `Image::png(height)` makes: one pixel column for each module, black on
/// white. Whether it succeeds, and its bytes where it does, depend on the
/// height and the modules alone: it writes into memory, and every failure
/// of the encoder is returned as an error. It computes the width in `u32`
/// and panics where the pixel buffer would be larger than the machine can
/// address.
#[verifier::external_body]
fn png_generate(height: u32, modules: &Vec<u8>) -> (r: Option<Vec<u8>>)
    requires
        modules@.len() <= u32::MAX,
        4 * modules@.len() <= usize::MAX,
        4 * (modules@.len() * height) <= usize::MAX,
    ensures
        match r {
            Some(bytes) => png_image(height, modules@) == Some(bytes@),
            None => png_image(height, modules@) is None,
        },
{
    Image::png(height).generate(modules).ok()
}

/// Channel `ch` (0 red, 1 green, 2 blue, 3 alpha) of a pixel that shows
/// `module`: opaque white for a space, opaque black for anything else.
pub open spec fn band_channel(module: u8, ch: int) -> u8 {
    if module == 0 || ch == 3 {
        255
    } else {
        0
    }
}

/// `Image::generate_buffer` of `barcoders`, for the generator that
/// `Image::image_buffer(height)` makes, and the raw bytes of the buffer it
/// returns. It always succeeds. The buffer is as wide as there are modules
/// and `height` high, holds red, green, blue and alpha row by row, and shows
/// in every row each module as one pixel. It computes the width in `u32` and
/// panics where the buffer would be larger than the machine can address.
#[verifier::external_body]
fn barcode_pixels(height: u32, modules: &Vec<u8>) -> (r: Option<Vec<u8>>)
    requires
        modules@.len() <= u32::MAX,
        4 * modules@.len() <= usize::MAX,
        4 * (modules@.len() * height) <= usize::MAX,
    ensures
        r is Some,
        r matches Some(p) ==> p@.len() == 4 * (modules@.len() * height),
        r matches Some(p) ==> forall|x: int, y: int, ch: int|
            0 <= x < modules@.len() && 0 <= y < height && 0 <= ch < 4 ==> p@[#[trigger] rgba_index(
                modules@.len() as int,
                x,
                y,
                ch,
            )] == band_channel(modules@[x], ch),
{
    match Image::image_buffer(height).generate_buffer(modules) {
        Ok(buffer) => Some(buffer.into_raw()),
        Err(_) => None,
    }
}

/// What the bare PNG rendering returns for what the generator gave: the
/// bytes, or the format error where there are none.
pub fn png_outcome(generated: Option<Vec<u8>>) -> (r: Result<Vec<u8>, BarcodeError>)
    ensures
        match generated {
            Some(bytes) => r == Ok::<Vec<u8>, BarcodeError>(bytes),
            None => r == Err::<Vec<u8>, BarcodeError>(BarcodeError::Format),
        },
{
    match generated {
        Some(bytes) => Ok(bytes),
        None => Err(BarcodeError::Format),
    }
}

/// Renders a train as the bytes of a PNG file: the bare barcode,
/// `BARCODE_HEIGHT` pixels high and one pixel wide for each module.
///
/// The bytes are those that the PNG generator gives for the train; the
/// format error comes if and only if the generator gives none.
pub fn render_png(train: &ModuleTrain) -> (r: Result<Vec<u8>, BarcodeError>)
    ensures
        match png_image(BARCODE_HEIGHT, train@) {
            Some(image) => r matches Ok(bytes) && bytes@ == image,
            None => r matches Err(e) && e == BarcodeError::Format,
        },
{
    let modules = train.modules();
    png_outcome(png_generate(BARCODE_HEIGHT, modules))
}

/// A channel of the pixel at column `x` and row `y` of a label whose
/// barcode band begins at row `band_top`: black where a bar crosses the
/// band, white everywhere else.
pub open spec fn label_channel(modules: Seq<u8>, band_top: int, x: int, y: int) -> u8 {
    if band_top <= y < band_top + BARCODE_HEIGHT && modules[x] != 0 {
        0
    } else {
        255
    }
}

/// Whether `raster` is the label of `modules`, `height` pixels high, with
/// the barcode band at row `band_top`.
pub open spec fn is_label_of(raster: Raster, modules: Seq<u8>, band_top: int, height: int) -> bool {
    &&& raster.width == modules.len()
    &&& raster.height == height
    &&& raster.wf()
    &&& forall|x: int, y: int, ch: int|
        raster.inside(x, y) && 0 <= ch < 3 ==> #[trigger] raster.channel(x, y, ch)
            == label_channel(modules, band_top, x, y)
}

/// Draws the barcode of a train on a white canvas `height` pixels high and
/// as wide as the train has modules, with the barcode band at row
/// `band_top`.
///
/// The format error comes if and only if the canvas would hold more bytes
/// than the machine can address.
pub fn label_canvas(train: &ModuleTrain, band_top: u32, height: u32) -> (r: Result<
    Canvas,
    BarcodeError,
>)
    ensures
        match r {
            Ok(canvas) => is_label_of(canvas@, train@, band_top as int, height as int),
            Err(e) => e == BarcodeError::Format && 3 * (train@.len() * height) > usize::MAX,
        },
{
    let modules = train.modules();
    let width: u32 = modules.len() as u32;
    let blank = match Canvas::white(width, height) {
        Some(canvas) => canvas,
        None => {
            return Err(BarcodeError::Format);
        },
    };
    match barcode_pixels(BARCODE_HEIGHT, modules) {
        Some(band) => {
            let canvas = match blank.overlay_rgba(&band, width, BARCODE_HEIGHT, 0, band_top) {
                Ok(canvas) => canvas,
                Err(e) => {
                    return Err(e);
                },
            };
            proof {
                assert forall|x: int, y: int, ch: int|
                    canvas@.inside(x, y) && 0 <= ch < 3 implies #[trigger] canvas@.channel(x, y, ch)
                    == label_channel(modules@, band_top as int, x, y) by {
                    lemma_index_bounds(width as int, height as int, x, y, ch, 3);
                    if band_top <= y < band_top + BARCODE_HEIGHT {
                        assert(band@[rgba_index(width as int, x - 0, y - band_top, ch)]
                            == band_channel(modules@[x], ch));
                    } else {
                        assert(blank@.channel(x, y, ch) == 255);
                    }
                }
            }
            Ok(canvas)
        },
        None => Err(BarcodeError::Format),
    }
}

/// A caption and the place where its text is drawn.
#[derive(Debug)]
pub struct Caption {
    pub text: String,
    pub at: Placement,
}

/// A label before its captions are drawn: the canvas with the barcode, and
/// the captions to draw on it.
#[derive(Debug)]
pub struct Label {
    pub canvas: Canvas,
    pub captions: Vec<Caption>,
}

/// The height of a label with the given number of caption bands: the
/// barcode band, the caption bands, and `TEXT_PADDING` between every two
/// neighbouring bands.
pub open spec fn label_height(caption_bands: nat) -> nat {
    (BARCODE_HEIGHT + caption_bands * (CAPTION_HEIGHT + TEXT_PADDING)) as nat
}

/// Whether `caption` shows `text` centred on a canvas `width` pixels wide,
/// with its top edge at row `top`.
pub open spec fn is_centered(caption: Caption, text: Seq<char>, width: nat, top: int) -> bool {
    &&& caption.text@ == text
    &&& caption.at.x == centered_x(width, text)
    &&& caption.at.y == top
}

/// The label with one caption band below the barcode.
///
/// The barcode band is at the top; the caption is centred and begins
/// `TEXT_PADDING` pixels below the barcode.
pub fn captioned_label(train: &ModuleTrain, caption: &str) -> (r: Result<Label, BarcodeError>)
    ensures
        r matches Ok(label) && {
            &&& is_label_of(label.canvas@, train@, 0, label_height(1) as int)
            &&& label.captions@.len() == 1
            &&& is_centered(
                label.captions@[0],
                caption@,
                train@.len(),
                BARCODE_HEIGHT + TEXT_PADDING,
            )
        },
{
    let width: u32 = train.len() as u32;
    let height: u32 = BARCODE_HEIGHT + CAPTION_HEIGHT + TEXT_PADDING;
    proof {
        assert(3 * (train@.len() * height) <= 3 * (3353 * 84)) by (nonlinear_arith)
            requires
                train@.len() <= 3353,
                height == 84,
        ;
    }
    let canvas = match label_canvas(train, 0, height) {
        Ok(canvas) => canvas,
        Err(e) => {
            return Err(e);
        },
    };
    let mut captions: Vec<Caption> = Vec::new();
    captions.push(
        Caption { text: String::from_str(caption), at: place(caption, width, BARCODE_HEIGHT) },
    );
    Ok(Label { canvas, captions })
}

/// The label with a caption band above the barcode and one below it.
///
/// The upper caption is centred and begins `PADDING` pixels from the top;
/// the barcode band follows the upper caption band after `TEXT_PADDING`
/// pixels; the lower caption is centred and begins `TEXT_PADDING` pixels
/// below the barcode.
pub fn captioned_label_with_sku(train: &ModuleTrain, sku_line: &str, caption: &str) -> (r: Result<
    Label,
    BarcodeError,
>)
    ensures
        r matches Ok(label) && {
            &&& is_label_of(
                label.canvas@,
                train@,
                CAPTION_HEIGHT + TEXT_PADDING,
                label_height(2) as int,
            )
            &&& label.captions@.len() == 2
            &&& is_centered(label.captions@[0], sku_line@, train@.len(), PADDING as int)
            &&& is_centered(
                label.captions@[1],
                caption@,
                train@.len(),
                CAPTION_HEIGHT + TEXT_PADDING + BARCODE_HEIGHT + TEXT_PADDING,
            )
        },
{
    let width: u32 = train.len() as u32;
    let band_top: u32 = CAPTION_HEIGHT + TEXT_PADDING;
    let height: u32 = band_top + BARCODE_HEIGHT + TEXT_PADDING + CAPTION_HEIGHT;
    proof {
        assert(3 * (train@.len() * height) <= 3 * (3353 * 124)) by (nonlinear_arith)
            requires
                train@.len() <= 3353,
                height == 124,
        ;
    }
    let canvas = match label_canvas(train, band_top, height) {
        Ok(canvas) => canvas,
        Err(e) => {
            return Err(e);
        },
    };
    let mut captions: Vec<Caption> = Vec::new();
    captions.push(
        Caption { text: String::from_str(sku_line), at: place_at(sku_line, width, PADDING) },
    );
    captions.push(
        Caption {
            text: String::from_str(caption),
            at: place(caption, width, band_top + BARCODE_HEIGHT),
        },
    );
    Ok(Label { canvas, captions })
}

} // verus!
