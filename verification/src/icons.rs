//! Icons and previews: decoding pictures, the pixels of the application's icon,
//! and the saved choice of its background.

use image::ImageDecoder;
use crate::blocks::{Blocks, Division, FEW_PIXELS, LARGEST_SIDE, MANY_PIXELS};
use crate::field::at_most;
use crate::rounding::{
    Fraction, ROUNDING_LIMIT, SINGLE, round_quotient, round_whole, rounded, rounded_whole,
};
use vstd::prelude::*;

verus! {

/// The side of an icon in pixels.
pub const ICON_SIDE: u32 = 128;

/// The longest side of a preview in pixels.
pub const PREVIEW_SIDE: u32 = 600;

/// A picture: four bytes for each pixel, line by line.
pub struct Picture {
    pub width: u32,
    pub height: u32,
    pub data: Vec<u8>,
}

/// The mathematical value of a picture.
#[verifier::ext_equal]
pub struct PictureView {
    pub width: int,
    pub height: int,
    pub data: Seq<u8>,
}

impl View for Picture {
    type V = PictureView;

    open spec fn view(&self) -> PictureView {
        PictureView { width: self.width as int, height: self.height as int, data: self.data@ }
    }
}

/// An optional picture, as its mathematical value.
pub open spec fn opt_picture(p: Option<Picture>) -> Option<PictureView> {
    match p {
        Some(x) => Some(x@),
        None => None,
    }
}

/// Optional bytes, as a sequence.
pub open spec fn opt_bytes(b: Option<Vec<u8>>) -> Option<Seq<u8>> {
    match b {
        Some(x) => Some(x@),
        None => None,
    }
}

/// Optional samples, as a sequence.
pub open spec fn opt_samples(s: Option<Vec<u16>>) -> Option<Seq<u16>> {
    match s {
        Some(x) => Some(x@),
        None => None,
    }
}

impl PictureView {
    /// Whether the bytes are as many as the pixels need.
    pub open spec fn wf(self) -> bool {
        &&& 0 <= self.width <= u32::MAX
        &&& 0 <= self.height <= u32::MAX
        &&& self.data.len() == self.width * self.height * 4
    }
}

impl Picture {
    /// Whether the bytes are as many as the pixels need.
    pub open spec fn wf(&self) -> bool {
        self@.wf()
    }
}

// ----- decoding ------------------------------------------------------------------------

/// What decoding bytes whose format is guessed gives: a width, a height and red,
/// green, blue and alpha of each pixel.
pub uninterp spec fn decoded(bytes: Seq<u8>) -> Option<(int, int, Seq<u8>)>;

/// What decoding the bytes of a file gives, whose format is taken from its name.
pub uninterp spec fn decoded_file(path: Seq<char>, bytes: Seq<u8>) -> Option<(int, int, Seq<u8>)>;

/// What the head of a PNG says of its pixels: width, height, bytes for each pixel
/// and channels of each pixel.
pub uninterp spec fn png_layout(bytes: Seq<u8>) -> Option<(u32, u32, u8, u8)>;

/// The samples of a PNG, if it has red, green, blue and alpha of two bytes each.
pub uninterp spec fn wide_samples(bytes: Seq<u8>) -> Option<Seq<u16>>;

/// What decoding bytes as PNG and scaling them down to fit a square of `side`
/// pixels gives.
pub uninterp spec fn thumbnail_of(bytes: Seq<u8>, side: int) -> Option<(int, int, Seq<u8>)>;

/// What encoding pixels as PNG gives.
pub uninterp spec fn png_of(width: int, height: int, data: Seq<u8>) -> Option<Seq<u8>>;

/// A decoded value as a picture.
pub open spec fn as_picture(v: Option<(int, int, Seq<u8>)>) -> Option<PictureView> {
    match v {
        Some(x) => Some(PictureView { width: x.0, height: x.1, data: x.2 }),
        None => None,
    }
}

/// Calls `image::load_from_memory` and converts to eight bits of red, green, blue
/// and alpha. Claimed of it is that the result depends on the bytes alone, and
/// that there are four bytes for each pixel.
#[verifier::external_body]
fn decode(bytes: &Vec<u8>) -> (r: Option<Picture>)
    ensures
        opt_picture(r) == as_picture(decoded(bytes@)),
        r matches Some(p) ==> p.wf(),
{
    let rgba = image::load_from_memory(bytes).ok()?.to_rgba8();
    let (width, height) = rgba.dimensions();
    Some(Picture { width, height, data: rgba.into_raw() })
}

/// Calls `image::load_from_memory_with_format` with the format that
/// `image::ImageFormat::from_path` gives, and converts to eight bits of red,
/// green, blue and alpha. Claimed of it is that the result depends on the path
/// and the bytes alone, and that there are four bytes for each pixel.
#[verifier::external_body]
fn decode_file(path: &str, bytes: &Vec<u8>) -> (r: Option<Picture>)
    ensures
        opt_picture(r) == as_picture(decoded_file(path@, bytes@)),
        r matches Some(p) ==> p.wf(),
{
    let format = image::ImageFormat::from_path(path).ok()?;
    let rgba = image::load_from_memory_with_format(bytes, format).ok()?.to_rgba8();
    let (width, height) = rgba.dimensions();
    Some(Picture { width, height, data: rgba.into_raw() })
}

/// Calls `image::load_from_memory`, `image::DynamicImage::resize_exact` with the
/// Lanczos filter, and converts to eight bits of red, green, blue and alpha.
/// Claimed of it is that it succeeds where decoding does, the size of the picture,
/// and that a picture that has the size already is copied. The colors are left
/// unsaid otherwise: the filter computes with the sine of the machine, whose
/// precision differs.
#[verifier::external_body]
fn decode_square(bytes: &Vec<u8>, side: u32) -> (r: Option<Picture>)
    requires
        0 < side <= 0x4000,
    ensures
        r is Some == decoded(bytes@) is Some,
        r matches Some(p) ==> p.wf() && p.width == side && p.height == side,
        decoded(bytes@) matches Some(d) ==> (d.0 == side && d.1 == side ==> opt_picture(r)
            == as_picture(decoded(bytes@))),
{
    let img = image::load_from_memory(bytes).ok()?;
    let rgba = img.resize_exact(side, side, image::imageops::FilterType::Lanczos3).to_rgba8();
    let (width, height) = rgba.dimensions();
    Some(Picture { width, height, data: rgba.into_raw() })
}

/// Calls `image::ImageReader::with_format` for PNG and `into_decoder`, and asks the
/// decoder for `dimensions` and `color_type`. Claimed of it is that the result
/// depends on the bytes alone.
#[verifier::external_body]
fn read_layout(bytes: &Vec<u8>) -> (r: Option<(u32, u32, u8, u8)>)
    ensures
        r == png_layout(bytes@),
{
    let cursor = std::io::Cursor::new(bytes);
    let reader = image::ImageReader::with_format(cursor, image::ImageFormat::Png);
    let decoder = reader.into_decoder().ok()?;
    let (width, height) = decoder.dimensions();
    let color = decoder.color_type();
    Some((width, height, color.bytes_per_pixel(), color.channel_count()))
}

/// Calls `image::load_from_memory_with_format` for PNG and
/// `image::DynamicImage::as_rgba16`. Claimed of it is that the result depends on
/// the bytes alone.
#[verifier::external_body]
fn read_samples(bytes: &Vec<u8>) -> (r: Option<Vec<u16>>)
    ensures
        opt_samples(r) == wide_samples(bytes@),
{
    let img = image::load_from_memory_with_format(bytes, image::ImageFormat::Png).ok()?;
    Some(img.as_rgba16()?.as_raw().clone())
}

/// Whether a PNG can be scaled to fit a square of `side` pixels by averaging: no
/// sum of samples exceeds 32 bits. Samples of two bytes that are not red, green,
/// blue and alpha are filled up with full ones, so that only their number counts.
pub open spec fn averages(bytes: Seq<u8>, side: nat) -> bool {
    png_layout(bytes) matches Some(l) ==> {
        let d = Division::fitting(l.0 as nat, l.1 as nat, side);
        ||| l.0 == 0 || l.1 == 0
        ||| d.within((if l.2 > l.3 {
            FEW_PIXELS
        } else {
            MANY_PIXELS
        }) as nat)
        ||| l.2 > l.3 && (wide_samples(bytes) matches Some(s) && d.sums_fit(s))
    }
}

/// Whether a PNG can be scaled to fit a square of `side` pixels by averaging.
fn can_average(bytes: &Vec<u8>, side: u32) -> (r: bool)
    requires
        0 < side <= LARGEST_SIDE,
    ensures
        r == averages(bytes@, side as nat),
{
    let (width, height, depth, channels): (u32, u32, u8, u8) = match read_layout(bytes) {
        Some(l) => l,
        None => {
            return true;
        },
    };
    if width == 0 || height == 0 {
        return true;
    }
    let blocks = Blocks::fitting(width, height, side);
    let limit: usize = if depth > channels {
        FEW_PIXELS
    } else {
        MANY_PIXELS
    };
    if blocks.within(limit) {
        return true;
    }
    if depth <= channels {
        return false;
    }
    match read_samples(bytes) {
        Some(s) => blocks.sums_fit(&s),
        None => false,
    }
}

/// Calls `image::load_from_memory_with_format` for PNG and
/// `image::DynamicImage::thumbnail`, and converts to eight bits of red, green,
/// blue and alpha. Claimed of it is that the result depends on the bytes and the
/// side alone, and that there are four bytes for each pixel. It sums up the samples
/// of a block of pixels in 32 bits, so blocks that overflow are left out.
#[verifier::external_body]
fn decode_thumbnail(bytes: &Vec<u8>, side: u32) -> (r: Option<Picture>)
    requires
        0 < side <= LARGEST_SIDE,
        averages(bytes@, side as nat),
    ensures
        opt_picture(r) == as_picture(thumbnail_of(bytes@, side as int)),
        r matches Some(p) ==> p.wf(),
{
    let img = image::load_from_memory_with_format(bytes, image::ImageFormat::Png).ok()?;
    let rgba = img.thumbnail(side, side).to_rgba8();
    let (width, height) = rgba.dimensions();
    Some(Picture { width, height, data: rgba.into_raw() })
}

/// Calls `image::imageops::resize` with the Lanczos filter. Claimed of it is the
/// size of the picture, and that a picture that has the size already is copied.
/// The colors are left unsaid otherwise: the filter computes with the sine of the
/// machine, whose precision differs.
#[verifier::external_body]
fn resize(p: &Picture, width: u32, height: u32) -> (r: Picture)
    requires
        p.wf(),
        width > 0,
        height > 0,
        width * height * 16 <= isize::MAX,
        p.width * height * 16 <= isize::MAX,
    ensures
        r.wf(),
        r.width == width,
        r.height == height,
        p.width == width && p.height == height ==> r@ == p@,
{
    let src = image::RgbaImage::from_raw(p.width, p.height, p.data.clone()).unwrap();
    let filter = image::imageops::FilterType::Lanczos3;
    let out = image::imageops::resize(&src, width, height, filter);
    Picture { width, height, data: out.into_raw() }
}

/// Calls `image::ImageBuffer::write_to` for PNG. Claimed of it is that the result
/// depends on the picture alone.
#[verifier::external_body]
fn encode_png(p: &Picture) -> (r: Option<Vec<u8>>)
    requires
        p.wf(),
    ensures
        opt_bytes(r) == png_of(p.width as int, p.height as int, p.data@),
{
    let buffer = image::RgbaImage::from_raw(p.width, p.height, p.data.clone())?;
    let mut out = Vec::new();
    let mut cursor = std::io::Cursor::new(&mut out);
    buffer.write_to(&mut cursor, image::ImageFormat::Png).ok()?;
    Some(out)
}

// ----- pixels for the screen -----------------------------------------------------------

/// Bytes with red and blue of each pixel exchanged.
pub open spec fn swapped(d: Seq<u8>) -> Seq<u8> {
    Seq::new(
        d.len(),
        |i: int|
            if i % 4 == 0 && i + 2 < d.len() {
                d[i + 2]
            } else if i % 4 == 2 {
                d[i - 2]
            } else {
                d[i]
            },
    )
}

/// A picture with red and blue of each pixel exchanged.
pub open spec fn on_screen(p: PictureView) -> PictureView {
    PictureView { data: swapped(p.data), ..p }
}

/// Exchanging red and blue twice changes nothing.
pub proof fn law_swap_twice(d: Seq<u8>)
    requires
        d.len() % 4 == 0,
    ensures
        swapped(swapped(d)) == d,
{
    let s = swapped(d);
    assert forall|i: int| 0 <= i < d.len() implies swapped(s)[i] == d[i] by {
        if i % 4 == 0 {
            assert((i + 2) % 4 == 2);
        } else if i % 4 == 2 {
            assert((i - 2) % 4 == 0);
        }
    }
    assert(swapped(s) =~= d);
}

/// Exchanges red and blue of each pixel.
pub fn to_bgra(p: Picture) -> (r: Picture)
    requires
        p.wf(),
    ensures
        r@ == on_screen(p@),
        r.wf(),
{
    let Picture { width, height, data } = p;
    let mut d = data;
    let ghost start = d@;
    let mut i: usize = 0;
    proof {
        let (w, h) = (width as int, height as int);
        assert((w * h * 4) % 4 == 0);
    }
    while i < d.len()
        invariant
            d@.len() == start.len(),
            start.len() % 4 == 0,
            i % 4 == 0,
            i <= d@.len(),
            forall|k: int| 0 <= k < i ==> #[trigger] d@[k] == swapped(start)[k],
            forall|k: int| i <= k < d@.len() ==> #[trigger] d@[k] == start[k],
        decreases d.len() - i,
    {
        let red: u8 = d[i];
        let blue: u8 = d[i + 2];
        d.set(i, blue);
        d.set(i + 2, red);
        i += 4;
    }
    proof {
        assert(d@ =~= swapped(start));
    }
    Picture { width, height, data: d }
}

/// Decodes an icon for the screen.
pub fn decode_icon(bytes: &Vec<u8>) -> (r: Option<Picture>)
    ensures
        r is Some == decoded(bytes@) is Some,
        r matches Some(p) ==> p.wf() && p.width == ICON_SIDE && p.height == ICON_SIDE,
        as_picture(decoded(bytes@)) matches Some(d) ==> (d.width == ICON_SIDE && d.height
            == ICON_SIDE ==> opt_picture(r) == Some(on_screen(d))),
{
    match decode_square(bytes, ICON_SIDE) {
        Some(p) => Some(to_bgra(p)),
        None => None,
    }
}

/// What a PNG gives for the screen once it fits a square of `side` pixels: nothing
/// where it cannot be decoded, or not be scaled by averaging.
pub open spec fn fitted_picture(bytes: Seq<u8>, side: nat) -> Option<PictureView> {
    match as_picture(thumbnail_of(bytes, side as int)) {
        Some(p) if averages(bytes, side) => Some(on_screen(p)),
        _ => None,
    }
}

/// Decodes a PNG for the screen and scales it to fit a square of `side` pixels.
pub fn decode_fitted(bytes: &Vec<u8>, side: u32) -> (r: Option<Picture>)
    requires
        0 < side <= LARGEST_SIDE,
    ensures
        opt_picture(r) == fitted_picture(bytes@, side as nat),
{
    if !can_average(bytes, side) {
        return None;
    }
    match decode_thumbnail(bytes, side) {
        Some(p) => Some(to_bgra(p)),
        None => None,
    }
}

/// Decodes a rendered preview for the screen.
pub fn decode_preview(bytes: &Vec<u8>) -> (r: Option<Picture>)
    ensures
        opt_picture(r) == fitted_picture(bytes@, PREVIEW_SIDE as nat),
{
    decode_fitted(bytes, PREVIEW_SIDE)
}

/// Decodes a rendered page for the screen.
pub fn decode_page(bytes: &Vec<u8>) -> (r: Option<Picture>)
    ensures
        match as_picture(decoded(bytes@)) {
            Some(p) => opt_picture(r) == Some(on_screen(p)),
            None => r is None,
        },
{
    match decode(bytes) {
        Some(p) => Some(to_bgra(p)),
        None => None,
    }
}

// ----- the icon of the application -----------------------------------------------------

/// What the icon of the application stands on.
pub enum IconBg {
    /// The built-in background.
    Default,
    /// A color.
    Color(u32),
    /// A picture in a file.
    Image(String),
}

/// The mathematical value of an icon background.
#[verifier::ext_equal]
pub enum IconBgView {
    Default,
    Color(u32),
    Image(Seq<char>),
}

impl View for IconBg {
    type V = IconBgView;

    open spec fn view(&self) -> IconBgView {
        match self {
            IconBg::Default => IconBgView::Default,
            IconBg::Color(c) => IconBgView::Color(*c),
            IconBg::Image(p) => IconBgView::Image(p@),
        }
    }
}

/// The largest of three values.
pub open spec fn largest(r: u8, g: u8, b: u8) -> u8 {
    let m = if r >= g {
        r
    } else {
        g
    };
    if m >= b {
        m
    } else {
        b
    }
}

/// The smallest of three values.
pub open spec fn smallest(r: u8, g: u8, b: u8) -> u8 {
    let m = if r <= g {
        r
    } else {
        g
    };
    if m <= b {
        m
    } else {
        b
    }
}

/// Whether a pixel of the icon belongs to its background, which is light and pale.
pub open spec fn pale(r: u8, g: u8, b: u8) -> bool {
    largest(r, g, b) >= 200 && largest(r, g, b) - smallest(r, g, b) <= 26
}

fn largest_of(r: u8, g: u8, b: u8) -> (m: u8)
    ensures
        m == largest(r, g, b),
{
    let m: u8 = if r >= g {
        r
    } else {
        g
    };
    if m >= b {
        m
    } else {
        b
    }
}

/// Whether a pixel of the icon belongs to its background.
pub fn is_icon_background(r: u8, g: u8, b: u8) -> (x: bool)
    ensures
        x == pale(r, g, b),
{
    let low: u8 = if r <= g {
        if r <= b {
            r
        } else {
            b
        }
    } else if g <= b {
        g
    } else {
        b
    };
    let high: u8 = largest_of(r, g, b);
    high >= 200 && high - low <= 26
}

/// A whole number kept within a byte.
pub open spec fn byte_of(n: int) -> u8 {
    if n > 255 {
        255
    } else {
        n as u8
    }
}

/// A color value dimmed to a brightness out of 255, in single precision, with the
/// fraction dropped.
pub open spec fn dimmed(c: u8, bright: u8) -> u8 {
    let l = rounded(bright as nat, 255, SINGLE as nat);
    let v = rounded(c as nat * l.0, l.1, SINGLE as nat);
    byte_of(v.0 as int / v.1 as int)
}

fn dim(c: u8, bright: u8) -> (r: u8)
    ensures
        r == dimmed(c, bright),
{
    let l = round_quotient(bright as u128, 255, SINGLE);
    proof {
        let (n, d, b) = (l.num as int, l.den as int, bright as int);
        assert(n <= 2 * d) by (nonlinear_arith)
            requires
                n * 255 <= 2 * b * d,
                0 <= b <= 255,
                d >= 1,
        ;
        let k = c as int;
        assert(k * n <= 255 * n) by (nonlinear_arith)
            requires
                0 <= k <= 255,
                n >= 0,
        ;
    }
    let v = round_quotient(c as u128 * l.num, l.den, SINGLE);
    let q: u128 = v.num / v.den;
    if q > 255 {
        255
    } else {
        q as u8
    }
}

/// The parts of a color.
pub open spec fn color_part(c: u32, k: int) -> u8 {
    if k == 0 {
        (c as int / 65536 % 256) as u8
    } else if k == 1 {
        (c as int / 256 % 256) as u8
    } else {
        (c as int % 256) as u8
    }
}

/// What the background of the icon is filled with.
pub enum Fill {
    Nothing,
    Color(u32),
    Image(Picture),
}

/// The mathematical value of a filling.
#[verifier::ext_equal]
pub enum FillView {
    Nothing,
    Color(u32),
    Image(PictureView),
}

impl View for Fill {
    type V = FillView;

    open spec fn view(&self) -> FillView {
        match self {
            Fill::Nothing => FillView::Nothing,
            Fill::Color(c) => FillView::Color(*c),
            Fill::Image(p) => FillView::Image(p@),
        }
    }
}

impl FillView {
    /// Whether the filling has a pixel to take.
    pub open spec fn wf(self) -> bool {
        self matches FillView::Image(p) ==> p.wf() && p.width > 0 && p.height > 0
    }
}

/// Byte `k` of the filling for the pixel in column `x` and line `y`, whose
/// brightness is `bright`.
pub open spec fn filling(f: FillView, x: int, y: int, k: int, own: u8, bright: u8) -> u8 {
    match f {
        FillView::Nothing => own,
        FillView::Color(c) => dimmed(color_part(c, k), bright),
        FillView::Image(p) => p.data[(at_most(y, p.height - 1) * p.width + at_most(
            x,
            p.width - 1,
        )) * 4 + k],
    }
}

/// Byte `i` of the recolored icon: what is transparent or belongs to the logo
/// stays, and so does the transparency.
pub open spec fn recolored_byte(p: PictureView, f: FillView, i: int) -> u8 {
    let n = i / 4;
    let (r, g, b, a) = (p.data[4 * n], p.data[4 * n + 1], p.data[4 * n + 2], p.data[4 * n + 3]);
    if i % 4 == 3 || a == 0 || !pale(r, g, b) {
        p.data[i]
    } else {
        filling(f, n % p.width, n / p.width, i % 4, p.data[i], largest(r, g, b))
    }
}

/// The icon with its background filled.
pub open spec fn recolored(p: PictureView, f: FillView) -> PictureView {
    PictureView { data: Seq::new(p.data.len(), |i: int| recolored_byte(p, f, i)), ..p }
}

/// Recoloring keeps the shape: size and transparency of every pixel stay, and so
/// does every pixel of the logo.
pub proof fn law_recoloring_keeps_shape(p: PictureView, f: FillView, n: int)
    requires
        p.wf(),
        0 <= n < p.width * p.height,
    ensures
        recolored(p, f).wf(),
        recolored(p, f).data[4 * n + 3] == p.data[4 * n + 3],
        p.data[4 * n + 3] == 0 || !pale(p.data[4 * n], p.data[4 * n + 1], p.data[4 * n + 2])
            ==> forall|k: int|
            0 <= k < 4 ==> #[trigger] recolored(p, f).data[4 * n + k] == p.data[4 * n + k],
{
}

/// An icon whose background is filled with nothing is unchanged.
pub proof fn law_no_filling_keeps_icon(p: PictureView)
    ensures
        recolored(p, FillView::Nothing) == p,
{
    assert(recolored(p, FillView::Nothing).data =~= p.data);
}

fn part(c: u32, k: usize) -> (r: u8)
    requires
        k < 3,
    ensures
        r == color_part(c, k as int),
{
    if k == 0 {
        (c / 65536 % 256) as u8
    } else if k == 1 {
        (c / 256 % 256) as u8
    } else {
        (c % 256) as u8
    }
}

proof fn lemma_pixel_inside(w: int, h: int, x: int, y: int)
    requires
        0 <= x < w,
        0 <= y < h,
    ensures
        0 <= y * w + x < w * h,
{
    assert(y * w + x < w * h) by (nonlinear_arith)
        requires
            0 <= x < w,
            0 <= y < h,
    ;
    assert(0 <= y * w) by (nonlinear_arith)
        requires
            0 <= y,
            0 <= w,
    ;
}

fn fill_byte(f: &Fill, x: usize, y: usize, k: usize, own: u8, bright: u8) -> (r: u8)
    requires
        f@.wf(),
        k < 3,
    ensures
        r == filling(f@, x as int, y as int, k as int, own, bright),
{
    match f {
        Fill::Nothing => own,
        Fill::Color(c) => dim(part(*c, k), bright),
        Fill::Image(p) => {
            let (w, h): (usize, usize) = (p.width as usize, p.height as usize);
            let px: usize = if x <= w - 1 {
                x
            } else {
                w - 1
            };
            let py: usize = if y <= h - 1 {
                y
            } else {
                h - 1
            };
            let len: usize = p.data.len();
            proof {
                lemma_pixel_inside(w as int, h as int, px as int, py as int);
                assert(len == w * h * 4);
                assert(py * w >= 0) by (nonlinear_arith)
                    requires
                        py >= 0,
                        w >= 0,
                ;
            }
            p.data[(py * w + px) * 4 + k]
        },
    }
}

/// Fills the background of the icon.
pub fn recolor(p: &Picture, f: &Fill) -> (r: Picture)
    requires
        p.wf(),
        f@.wf(),
    ensures
        r@ == recolored(p@, f@),
        r.wf(),
{
    let mut out: Vec<u8> = Vec::new();
    let n: usize = p.data.len();
    proof {
        let (w, h) = (p.width as int, p.height as int);
        assert((w * h * 4) % 4 == 0);
        if w == 0 {
            assert(w * h == 0) by (nonlinear_arith)
                requires
                    w == 0,
            ;
        }
    }
    let mut i: usize = 0;
    while i < n
        invariant
            p.wf(),
            f@.wf(),
            n == p.data@.len(),
            n % 4 == 0,
            n > 0 ==> p.width > 0,
            i <= n,
            i % 4 == 0,
            out@.len() == i,
            forall|k: int| 0 <= k < i ==> #[trigger] out@[k] == recolored_byte(p@, f@, k),
        decreases n - i,
    {
        let (r, g, b, a): (u8, u8, u8, u8) = (p.data[i], p.data[i + 1], p.data[i + 2], p.data[i + 3]);
        let at: usize = i / 4;
        if a == 0 || !is_icon_background(r, g, b) {
            out.push(r);
            out.push(g);
            out.push(b);
        } else {
            let bright: u8 = largest_of(r, g, b);
            let (x, y): (usize, usize) = (at % (p.width as usize), at / (p.width as usize));
            out.push(fill_byte(f, x, y, 0, r, bright));
            out.push(fill_byte(f, x, y, 1, g, bright));
            out.push(fill_byte(f, x, y, 2, b, bright));
        }
        out.push(a);
        proof {
            assert(i as int / 4 == at && (i + 1) as int / 4 == at && (i + 2) as int / 4 == at && (i
                + 3) as int / 4 == at);
            assert(4 * at == i);
        }
        i += 4;
    }
    proof {
        assert(out@ =~= recolored(p@, f@).data);
    }
    Picture { width: p.width, height: p.height, data: out }
}

/// Whether the fraction `a` is at least the fraction `b`.
pub open spec fn at_least(a: (nat, nat), b: (nat, nat)) -> bool {
    a.0 * b.1 >= b.0 * a.1
}

/// The larger of two fractions.
pub open spec fn larger(a: (nat, nat), b: (nat, nat)) -> (nat, nat) {
    if at_least(a, b) {
        a
    } else {
        b
    }
}

/// A quotient of two whole numbers in single precision.
pub open spec fn single_quotient(a: nat, b: nat) -> (nat, nat) {
    rounded(rounded_whole(a, SINGLE as nat), rounded_whole(b, SINGLE as nat), SINGLE as nat)
}

/// One side of a picture that is scaled, in single precision, with the fraction
/// dropped; at least one pixel.
pub open spec fn scaled_side(side: nat, by: (nat, nat)) -> nat {
    let v = rounded(rounded_whole(side, SINGLE as nat) * by.0, by.1, SINGLE as nat);
    let n = v.0 as int / v.1 as int;
    if n < 1 {
        1
    } else if n > u32::MAX {
        u32::MAX as nat
    } else {
        n as nat
    }
}

/// The size in which a picture of `iw` by `ih` covers `w` by `h`. A picture
/// without pixels is scaled without bound.
pub open spec fn cover(iw: nat, ih: nat, w: nat, h: nat) -> (nat, nat) {
    if iw == 0 || ih == 0 {
        (
            if iw == 0 {
                1
            } else {
                u32::MAX as nat
            },
            if ih == 0 {
                1
            } else {
                u32::MAX as nat
            },
        )
    } else {
        let s = larger(single_quotient(w, iw), single_quotient(h, ih));
        (scaled_side(iw, s), scaled_side(ih, s))
    }
}

fn quotient(a: u32, b: u32) -> (r: Fraction)
    requires
        b > 0,
    ensures
        r@ == single_quotient(a as nat, b as nat),
        1 <= r.den < 0x400_0000_0000_0000,
        r.num <= 0x8_0000_0000 * r.den,
        r.den > 0x100_0000 ==> r.num <= 2 * r.den,
{
    let x: u128 = round_whole(a as u128, SINGLE);
    let y: u128 = round_whole(b as u128, SINGLE);
    proof {
        let z = y as int;
        assert(SINGLE * z < 0x200_0000_0000_0000) by (nonlinear_arith)
            requires
                0 <= z <= 0x2_0000_0000,
        ;
    }
    let r = round_quotient(x, y, SINGLE);
    proof {
        let (n, d, p, q) = (r.num as int, r.den as int, x as int, y as int);
        assert(n <= 2 * p * d) by (nonlinear_arith)
            requires
                n * q <= 2 * p * d,
                q >= 1,
                n >= 0,
        ;
        assert(2 * p * d <= 0x8_0000_0000 * d) by (nonlinear_arith)
            requires
                0 <= p <= 0x2_0000_0000,
                d >= 1,
        ;
        if p < q {
            assert(n <= 2 * d) by (nonlinear_arith)
                requires
                    n * q <= 2 * p * d,
                    0 <= p < q,
                    d >= 1,
            ;
        }
    }
    r
}

fn scale_side(side: u32, by: &Fraction) -> (r: u32)
    requires
        1 <= by.den < 0x400_0000_0000_0000,
        by.num <= 0x8_0000_0000 * by.den,
        by.den > 0x100_0000 ==> by.num <= 2 * by.den,
    ensures
        r == scaled_side(side as nat, by@),
        r >= 1,
{
    let x: u128 = round_whole(side as u128, SINGLE);
    proof {
        let (n, d, k) = (by.num as int, by.den as int, x as int);
        assert(n <= 0x800_0000_0000_0000);
        assert(k * n < ROUNDING_LIMIT) by (nonlinear_arith)
            requires
                0 <= k <= 0x2_0000_0000,
                0 <= n <= 0x800_0000_0000_0000,
        ;
        assert(k * n >= 0) by (nonlinear_arith)
            requires
                k >= 0,
                n >= 0,
        ;
    }
    let v = round_quotient(x * by.num, by.den, SINGLE);
    let n: u128 = v.num / v.den;
    if n < 1 {
        1
    } else if n > u32::MAX as u128 {
        u32::MAX
    } else {
        n as u32
    }
}

/// The size in which a picture covers the icon.
pub fn cover_size(iw: u32, ih: u32, w: u32, h: u32) -> (r: (u32, u32))
    ensures
        (r.0 as nat, r.1 as nat) == cover(iw as nat, ih as nat, w as nat, h as nat),
        r.0 >= 1,
        r.1 >= 1,
{
    if iw == 0 || ih == 0 {
        let a: u32 = if iw == 0 {
            1
        } else {
            u32::MAX
        };
        let b: u32 = if ih == 0 {
            1
        } else {
            u32::MAX
        };
        return (a, b);
    }
    let p = quotient(w, iw);
    let q = quotient(h, ih);
    proof {
        let (a, b, c, d) = (p.num as int, p.den as int, q.num as int, q.den as int);
        assert(a * d < 0x20_0000_0000_0000_0000_0000_0000_0000) by (nonlinear_arith)
            requires
                0 <= a <= 0x800_0000_0000_0000,
                0 <= d < 0x400_0000_0000_0000,
        ;
        assert(c * b < 0x20_0000_0000_0000_0000_0000_0000_0000) by (nonlinear_arith)
            requires
                0 <= c <= 0x800_0000_0000_0000,
                0 <= b < 0x400_0000_0000_0000,
        ;
        assert(a * d >= 0 && c * b >= 0) by (nonlinear_arith)
            requires
                a >= 0,
                b >= 0,
                c >= 0,
                d >= 0,
        ;
    }
    if p.num * q.den >= q.num * p.den {
        (scale_side(iw, &p), scale_side(ih, &p))
    } else {
        (scale_side(iw, &q), scale_side(ih, &q))
    }
}

/// Whether a picture of the first size can be scaled to the second.
pub open spec fn scalable(iw: int, w: int, h: int) -> bool {
    w * h * 16 <= isize::MAX && iw * h * 16 <= isize::MAX
}

/// The icon whose background is not a picture, as PNG.
pub open spec fn plain_icon(base: Seq<u8>, bg: IconBgView) -> Option<Seq<u8>> {
    match as_picture(decoded(base)) {
        Some(p) => {
            let q = recolored(
                p,
                match bg {
                    IconBgView::Color(c) => FillView::Color(c),
                    _ => FillView::Nothing,
                },
            );
            png_of(q.width, q.height, q.data)
        },
        None => None,
    }
}

/// Whether `out` is the icon `p` on the picture `img`, scaled so as to cover it.
pub open spec fn covered_icon(p: PictureView, img: PictureView, out: Option<Seq<u8>>) -> bool {
    let size = cover(img.width as nat, img.height as nat, p.width as nat, p.height as nat);
    if scalable(img.width, size.0 as int, size.1 as int) {
        exists|f: PictureView|
            {
                &&& f.wf()
                &&& f.width == size.0
                &&& f.height == size.1
                &&& img.width == f.width && img.height == f.height ==> f == img
                &&& out == png_of(
                    p.width,
                    p.height,
                    (#[trigger] recolored(p, FillView::Image(f))).data,
                )
            }
    } else {
        out is None
    }
}

fn png_with(p: &Picture, f: &Fill) -> (r: Option<Vec<u8>>)
    requires
        p.wf(),
        f@.wf(),
    ensures
        opt_bytes(r) == png_of(p.width as int, p.height as int, recolored(p@, f@).data),
{
    encode_png(&recolor(p, f))
}

/// Builds the icon of the application. `base` is the built-in icon; `file` are the
/// bytes of the picture that a background in a file names.
pub fn compose_icon_png(base: &Vec<u8>, bg: &IconBg, file: &Vec<u8>) -> (r: Option<Vec<u8>>)
    ensures
        match bg@ {
            IconBgView::Image(path) => match (as_picture(decoded(base@)), as_picture(
                decoded_file(path, file@),
            )) {
                (Some(p), Some(img)) => covered_icon(p, img, opt_bytes(r)),
                _ => r is None,
            },
            _ => opt_bytes(r) == plain_icon(base@, bg@),
        },
{
    let p = match decode(base) {
        Some(p) => p,
        None => {
            return None;
        },
    };
    match bg {
        IconBg::Default => png_with(&p, &Fill::Nothing),
        IconBg::Color(c) => png_with(&p, &Fill::Color(*c)),
        IconBg::Image(path) => {
            let img = match decode_file(path.as_str(), file) {
                Some(i) => i,
                None => {
                    return None;
                },
            };
            let (w, h): (u32, u32) = cover_size(img.width, img.height, p.width, p.height);
            proof {
                let (a, b, c) = (w as int, h as int, img.width as int);
                assert(0 <= a * b * 16 < 0x10_0000_0000_0000_0000_0000) by (nonlinear_arith)
                    requires
                        0 <= a <= 0xffff_ffff,
                        0 <= b <= 0xffff_ffff,
                ;
                assert(0 <= c * b * 16 < 0x10_0000_0000_0000_0000_0000) by (nonlinear_arith)
                    requires
                        0 <= c <= 0xffff_ffff,
                        0 <= b <= 0xffff_ffff,
                ;
                assert(0 <= a * b && 0 <= c * b) by (nonlinear_arith)
                    requires
                        0 <= a,
                        0 <= b,
                        0 <= c,
                ;
            }
            let limit: u128 = isize::MAX as u128;
            if w as u128 * h as u128 * 16 > limit || img.width as u128 * h as u128 * 16 > limit {
                return None;
            }
            let f = resize(&img, w, h);
            let ghost fv = f@;
            let fill = Fill::Image(f);
            let out = png_with(&p, &fill);
            proof {
                assert(fill@ == FillView::Image(fv));
                assert(opt_bytes(out) == png_of(
                    p@.width,
                    p@.height,
                    recolored(p@, FillView::Image(fv)).data,
                ));
            }
            out
        },
    }
}

} // verus!
