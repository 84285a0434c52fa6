//! Pixel frames as plain bytes, and the image operations applied to them.
use vstd::prelude::*;

verus! {

/// The height of the window title bar at the top of a captured frame, in pixels.
pub const TITLE_BAR_HEIGHT: u32 = 28;

/// The width of a frame that the model takes, in pixels.
pub const MODEL_WIDTH: u32 = 384;

/// The height of a frame that the model takes, in pixels.
pub const MODEL_HEIGHT: u32 = 216;

/// The number of pixels of a model frame.
pub const MODEL_PIXELS: usize = 82_944;

/// The number of bytes of a model frame: three for each pixel.
pub const MODEL_FRAME_BYTES: usize = 248_832;

/// A side length up to which resampling is exact enough that every output pixel keeps
/// a positive total weight. The bound is conservative: weights in 32-bit floats may
/// still do somewhat above it.
pub const MAX_SAMPLED_SIDE: u32 = 1_048_576;

/// What a frame holds: its side lengths in pixels, and its bytes row by row.
#[verifier::ext_equal]
pub struct Raster {
    pub width: u32,
    pub height: u32,
    pub data: Seq<u8>,
}

/// A frame with four bytes for each pixel: red, green, blue, alpha.
#[derive(Debug, PartialEq, Eq)]
pub struct RgbaFrame {
    pub width: u32,
    pub height: u32,
    pub data: Vec<u8>,
}

impl Clone for RgbaFrame {
    fn clone(&self) -> (copy: Self)
        ensures
            copy@ == self@,
    {
        let copy = RgbaFrame { width: self.width, height: self.height, data: self.data.clone() };
        assert(copy@ =~= self@);
        copy
    }
}

impl View for RgbaFrame {
    type V = Raster;

    open spec fn view(&self) -> Raster {
        Raster { width: self.width, height: self.height, data: self.data@ }
    }
}

/// A frame with three bytes for each pixel: red, green, blue.
#[derive(Debug, PartialEq, Eq)]
pub struct RgbFrame {
    pub width: u32,
    pub height: u32,
    pub data: Vec<u8>,
}

impl Clone for RgbFrame {
    fn clone(&self) -> (copy: Self)
        ensures
            copy@ == self@,
    {
        let copy = RgbFrame { width: self.width, height: self.height, data: self.data.clone() };
        assert(copy@ =~= self@);
        copy
    }
}

impl View for RgbFrame {
    type V = Raster;

    open spec fn view(&self) -> Raster {
        Raster { width: self.width, height: self.height, data: self.data@ }
    }
}

/// The side lengths of a frame, in pixels.
#[derive(Clone, Copy, Debug, PartialEq, Eq, Structural)]
pub struct PixelSize {
    pub width: u32,
    pub height: u32,
}

/// The bytes that tightly packed RGBA pixels take.
pub open spec fn rgba_len(width: u32, height: u32) -> nat {
    (width * height * 4) as nat
}

impl Raster {
    /// Whether the bytes are exactly the RGBA pixels of the frame.
    pub open spec fn packed_rgba(self) -> bool {
        self.data.len() == rgba_len(self.width, self.height)
    }

    /// Whether there are enough bytes for the RGBA pixels of the frame.
    pub open spec fn holds_rgba(self) -> bool {
        rgba_len(self.width, self.height) <= self.data.len()
    }

    /// The bytes of the RGBA pixels, without what may stand behind them.
    pub open spec fn rgba_pixels(self) -> Seq<u8> {
        self.data.take(rgba_len(self.width, self.height) as int)
    }
}

/// The bytes that tightly packed RGBA pixels take, if that number is a `usize`.
pub fn rgba_bytes(width: u32, height: u32) -> (bytes: Option<usize>)
    ensures
        bytes == if rgba_len(width, height) <= usize::MAX {
            Some(rgba_len(width, height) as usize)
        } else {
            None
        },
{
    let w: usize = width as usize;
    let h: usize = height as usize;
    assert(0 <= w * h) by (nonlinear_arith);
    match w.checked_mul(h) {
        Some(pixels) => pixels.checked_mul(4),
        None => None,
    }
}

/// The rectangle of `width` by `height` pixels at (`x`, `y`) of an RGBA raster.
pub open spec fn cropped(raster: Raster, x: u32, y: u32, width: u32, height: u32) -> Raster {
    Raster {
        width,
        height,
        data: Seq::new(
            rgba_len(width, height),
            |i: int|
                raster.data[((y + i / (4 * width)) * raster.width + x) * 4 + i % (4 * width)],
        ),
    }
}

/// The bytes that `image::imageops::resize` makes, with the triangle filter, of
/// tightly packed RGBA pixels.
pub uninterp spec fn resized(
    width: u32,
    height: u32,
    data: Seq<u8>,
    new_width: u32,
    new_height: u32,
) -> Seq<u8>;

/// Whether a raster can be resampled to new side lengths. The bytes of a row can be
/// counted, and the new pixels fit in memory. Where there are pixels to sample from, and
/// the side lengths change, so do the intermediate ones and the sampling weights of each
/// axis, in a vector that at most doubles as it grows; and on each axis one of the two
/// lengths is small enough for those weights.
pub open spec fn resizable(width: u32, height: u32, new_width: u32, new_height: u32) -> bool {
    &&& 4 * width <= usize::MAX
    &&& 4 * new_width <= usize::MAX
    &&& 4 * (new_width * new_height) <= isize::MAX
    &&& 0 < width && 0 < height && (width != new_width || height != new_height) ==> {
        &&& 16 * (width * new_height) <= isize::MAX
        &&& 8 * width <= isize::MAX
        &&& 8 * height <= isize::MAX
        &&& width <= MAX_SAMPLED_SIDE || new_width <= MAX_SAMPLED_SIDE
        &&& height <= MAX_SAMPLED_SIDE || new_height <= MAX_SAMPLED_SIDE
    }
}

/// Decides `resizable`.
pub fn can_resize(width: u32, height: u32, new_width: u32, new_height: u32) -> (r: bool)
    ensures
        r == resizable(width, height, new_width, new_height),
{
    let limit: u128 = isize::MAX as u128;
    let (w, h): (u128, u128) = (width as u128, height as u128);
    let (nw, nh): (u128, u128) = (new_width as u128, new_height as u128);
    assert(0 <= w * nh <= 0xffff_ffff * 0xffff_ffff && 0 <= nw * nh <= 0xffff_ffff * 0xffff_ffff)
        by (nonlinear_arith)
        requires
            w <= 0xffff_ffff,
            nw <= 0xffff_ffff,
            nh <= 0xffff_ffff,
    ;
    let counted = 4 * w <= usize::MAX as u128 && 4 * nw <= usize::MAX as u128 && 4 * (nw * nh)
        <= limit;
    let copied = width == new_width && height == new_height;
    let sampled = 16 * (w * nh) <= limit && 8 * w <= limit && 8 * h <= limit && (width
        <= MAX_SAMPLED_SIDE || new_width <= MAX_SAMPLED_SIDE) && (height <= MAX_SAMPLED_SIDE
        || new_height <= MAX_SAMPLED_SIDE);
    counted && (width == 0 || height == 0 || copied || sampled)
}

/// Calls `image::RgbaImage::from_raw`, which takes the bytes exactly when there
/// are enough of them for the pixels, and keeps them as they are. It counts the
/// bytes of a row first, so that a row too long for a `usize` is refused even where
/// there is no row.
#[verifier::external_body]
pub(crate) fn decode_rgba(width: u32, height: u32, data: Vec<u8>) -> (decoded: Option<Vec<u8>>)
    ensures
        decoded is Some <==> (4 * width <= usize::MAX && rgba_len(width, height) <= data@.len()),
        decoded matches Some(bytes) ==> bytes@ == data@,
{
    image::RgbaImage::from_raw(width, height, data).map(|image| image.into_raw())
}

/// Calls `image::imageops::crop_imm`, whose result shows the pixels of the given
/// rectangle, and copies them out row by row.
#[verifier::external_body]
pub(crate) fn crop(frame: RgbaFrame, x: u32, y: u32, width: u32, height: u32) -> (part: RgbaFrame)
    requires
        frame@.packed_rgba(),
        4 * frame.width <= usize::MAX,
        x + width <= frame.width,
        y + height <= frame.height,
    ensures
        part@ == cropped(frame@, x, y, width, height),
{
    let image = image::RgbaImage::from_raw(frame.width, frame.height, frame.data).unwrap();
    let part = image::imageops::crop_imm(&image, x, y, width, height).to_image();
    RgbaFrame { width: part.width(), height: part.height(), data: part.into_raw() }
}

/// Calls `image::imageops::resize` with `FilterType::Triangle`. The result is
/// named by `resized`. It holds the RGBA pixels of the new side lengths; it is a
/// copy where those are the old ones, and transparent black where there was no
/// pixel to sample from.
#[verifier::external_body]
pub(crate) fn resize(frame: RgbaFrame, new_width: u32, new_height: u32) -> (scaled: RgbaFrame)
    requires
        frame@.packed_rgba(),
        resizable(frame.width, frame.height, new_width, new_height),
    ensures
        scaled.width == new_width,
        scaled.height == new_height,
        scaled.data@ == resized(frame.width, frame.height, frame.data@, new_width, new_height),
        scaled@.packed_rgba(),
        new_width == frame.width && new_height == frame.height ==> scaled.data@ == frame.data@,
        frame.width == 0 || frame.height == 0 ==> forall|i: int|
            0 <= i < scaled.data@.len() ==> scaled.data@[i] == 0,
{
    let image = image::RgbaImage::from_raw(frame.width, frame.height, frame.data).unwrap();
    let filter = image::imageops::FilterType::Triangle;
    let scaled = image::imageops::resize(&image, new_width, new_height, filter);
    RgbaFrame { width: scaled.width(), height: scaled.height(), data: scaled.into_raw() }
}

/// The RGB bytes of RGBA bytes: of every four, the first three.
pub open spec fn without_alpha(rgba: Seq<u8>) -> Seq<u8> {
    Seq::new(rgba.len() / 4 * 3, |i: int| rgba[i / 3 * 4 + i % 3])
}

/// Drops the alpha byte of every pixel.
pub fn drop_alpha(rgba: &Vec<u8>) -> (rgb: Vec<u8>)
    ensures
        rgb@ == without_alpha(rgba@),
{
    let pixels: usize = rgba.len() / 4;
    let mut rgb: Vec<u8> = Vec::with_capacity(MODEL_FRAME_BYTES);
    for p in 0..pixels
        invariant
            pixels == rgba@.len() / 4,
            rgb@.len() == 3 * p,
            forall|i: int| 0 <= i < 3 * p ==> rgb@[i] == #[trigger] without_alpha(rgba@)[i],
    {
        assert(4 * p + 3 < rgba.len());
        rgb.push(rgba[4 * p]);
        rgb.push(rgba[4 * p + 1]);
        rgb.push(rgba[4 * p + 2]);
    }
    assert(rgb@ =~= without_alpha(rgba@));
    rgb
}

/// RGBA pixels take four bytes each.
pub proof fn law_four_bytes_for_each_pixel(raster: Raster)
    ensures
        raster.packed_rgba() <==> raster.data.len() == 4 * (raster.width * raster.height),
        raster.holds_rgba() <==> 4 * (raster.width * raster.height) <= raster.data.len(),
        raster.holds_rgba() ==> raster.rgba_pixels() == raster.data.subrange(
            0,
            4 * (raster.width * raster.height),
        ),
{
}

/// A frame is known by its side lengths and its bytes: its view forgets neither.
pub proof fn law_frames_are_known_by_their_views(rgba: RgbaFrame, rgb: RgbFrame)
    ensures
        rgba@.width == rgba.width,
        rgba@.height == rgba.height,
        rgba@.data == rgba.data@,
        rgb@.width == rgb.width,
        rgb@.height == rgb.height,
        rgb@.data == rgb.data@,
{
}

/// Each pixel of a cropped raster is the pixel of the raster that lies as far from the
/// corner of the rectangle.
pub proof fn law_crop_shows_the_rectangle(
    raster: Raster,
    x: u32,
    y: u32,
    width: u32,
    height: u32,
    row: int,
    column: int,
    channel: int,
)
    requires
        0 <= row < height,
        0 <= column < width,
        0 <= channel < 4,
    ensures
        cropped(raster, x, y, width, height).width == width,
        cropped(raster, x, y, width, height).height == height,
        cropped(raster, x, y, width, height).packed_rgba(),
        cropped(raster, x, y, width, height).data[4 * (row * width + column) + channel]
            == raster.data[4 * ((y + row) * raster.width + (x + column)) + channel],
{
    let w = width as int;
    let i = 4 * (row * w + column) + channel;
    lemma_place_in_row(row, column, channel, w, height as int);
    let (from_y, from_w) = (y + row, raster.width as int);
    assert((from_y * from_w + x) * 4 + (4 * column + channel) == 4 * (from_y * from_w + (x
        + column)) + channel) by (nonlinear_arith);
}

proof fn lemma_place_in_row(row: int, column: int, channel: int, width: int, height: int)
    requires
        0 <= row < height,
        0 <= column < width,
        0 <= channel < 4,
    ensures
        0 <= 4 * (row * width + column) + channel < width * height * 4,
        (4 * (row * width + column) + channel) / (4 * width) == row,
        (4 * (row * width + column) + channel) % (4 * width) == 4 * column + channel,
{
    let i = 4 * (row * width + column) + channel;
    assert(i == (4 * width) * row + (4 * column + channel)) by (nonlinear_arith)
        requires
            i == 4 * (row * width + column) + channel,
    ;
    assert(0 <= row * width) by (nonlinear_arith)
        requires
            0 <= row,
            0 <= width,
    ;
    assert(row * width + width <= width * height) by (nonlinear_arith)
        requires
            row + 1 <= height,
            0 <= width,
    ;
    vstd::arithmetic::div_mod::lemma_fundamental_div_mod_converse(
        i,
        4 * width,
        row,
        4 * column + channel,
    );
}

/// Each pixel keeps its color without its alpha.
pub proof fn law_pixels_keep_their_color(rgba: Seq<u8>, pixel: int, channel: int)
    requires
        0 <= pixel < rgba.len() / 4,
        0 <= channel < 3,
    ensures
        without_alpha(rgba).len() == 3 * (rgba.len() / 4),
        without_alpha(rgba)[3 * pixel + channel] == rgba[4 * pixel + channel],
{
}

/// Equal side lengths can be kept and an empty raster filled wherever the bytes of a row
/// and the new pixels can be held. Else also what is sampled on the way must fit in
/// memory, and no side may be above a million pixels or so both before and after. All
/// of this is so for sides of up to 4096 pixels.
pub proof fn law_what_can_be_resized(width: u32, height: u32, new_width: u32, new_height: u32)
    ensures
        ({
            let held = 4 * width <= usize::MAX && 4 * new_width <= usize::MAX && 4 * (new_width
                * new_height) <= isize::MAX;
            let kept = width == new_width && height == new_height;
            let sampled = 16 * (width * new_height) <= isize::MAX && 8 * width <= isize::MAX && 8
                * height <= isize::MAX && !(width > 1_048_576 && new_width > 1_048_576) && !(height
                > 1_048_576 && new_height > 1_048_576);
            resizable(width, height, new_width, new_height) <==> held && (width == 0 || height == 0
                || kept || sampled)
        }),
        width <= 4096 && height <= 4096 && new_width <= 4096 && new_height <= 4096 ==> resizable(
            width,
            height,
            new_width,
            new_height,
        ),
{
    if width <= 4096 && new_width <= 4096 && new_height <= 4096 {
        assert(width * new_height <= 4096 * 4096 && new_width * new_height <= 4096 * 4096)
            by (nonlinear_arith)
            requires
                width <= 4096,
                new_width <= 4096,
                new_height <= 4096,
        ;
    }
}

} // verus!
