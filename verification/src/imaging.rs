//! Pixel-level facts about loaded images, and the image being viewed.

use vstd::prelude::*;

use crate::animation::ImageAnimation;
use crate::paths::{opt_view, path_extension};
use crate::text::{ascii_lower_seq, ascii_lowercase_chars, chars_of, extend_chars, string_from_chars};

verus! {

#[verifier::external_type_specification]
#[verifier::external_body]
pub struct ExDynamicImage(image::DynamicImage);

/// Side of one checkerboard tile, in pixels.
pub const CHECKER_TILE: usize = 16;

/// The gray of checkerboard pixel (`x`, `y`): light on tiles whose tile
/// coordinates add up to an even number, dark otherwise.
pub open spec fn checker_gray(x: int, y: int) -> u8 {
    if (x / 16 + y / 16) % 2 == 0 {
        42
    } else {
        28
    }
}

/// Channel `c` of checkerboard pixel (`x`, `y`): gray, fully opaque.
pub open spec fn checker_channel(x: int, y: int, c: int) -> u8 {
    if c == 3 {
        255
    } else {
        checker_gray(x, y)
    }
}

/// The RGBA bytes of the 32 x 32 checkerboard drawn behind transparent images,
/// row after row.
pub fn checkerboard_pixels() -> (r: Vec<u8>)
    ensures
        r@.len() == 32 * 32 * 4,
        forall|x: int, y: int, c: int|
            0 <= x < 32 && 0 <= y < 32 && 0 <= c < 4 ==> #[trigger] r@[(y * 32 + x) * 4 + c]
                == checker_channel(x, y, c),
{
    let size: usize = 2 * CHECKER_TILE;
    let mut pixels: Vec<u8> = Vec::new();
    let mut y: usize = 0;
    while y < size
        invariant
            size == 32,
            y <= 32,
            pixels@.len() == y * 32 * 4,
            forall|px: int, py: int, c: int|
                0 <= px < 32 && 0 <= py < y && 0 <= c < 4 ==> #[trigger] pixels@[(py * 32 + px) * 4
                    + c] == checker_channel(px, py, c),
        decreases 32 - y,
    {
        let mut x: usize = 0;
        while x < size
            invariant
                size == 32,
                y < 32,
                x <= 32,
                pixels@.len() == (y * 32 + x) * 4,
                forall|px: int, py: int, c: int|
                    0 <= px < 32 && 0 <= py < y && 0 <= c < 4 ==> #[trigger] pixels@[(py * 32 + px)
                        * 4 + c] == checker_channel(px, py, c),
                forall|px: int, c: int|
                    0 <= px < x && 0 <= c < 4 ==> #[trigger] pixels@[(y * 32 + px) * 4 + c]
                        == checker_channel(px, y as int, c),
            decreases 32 - x,
        {
            let gray: u8 = if (x / CHECKER_TILE + y / CHECKER_TILE) % 2 == 0 {
                42
            } else {
                28
            };
            assert(gray == checker_gray(x as int, y as int));
            let ghost base = pixels@.len();
            pixels.push(gray);
            pixels.push(gray);
            pixels.push(gray);
            pixels.push(255);
            assert(base == (y * 32 + x) * 4);
            x = x + 1;
        }
        y = y + 1;
    }
    pixels
}

/// Some pixel of the RGBA bytes `raw` is not fully opaque.
pub open spec fn has_transparent_pixel_spec(raw: Seq<u8>) -> bool {
    exists|p: int| 0 <= p < raw.len() / 4 && #[trigger] raw[4 * p + 3] != 255
}

/// Whether some pixel of the RGBA bytes `raw` has an alpha below 255.
pub fn has_transparent_pixel(raw: &Vec<u8>) -> (r: bool)
    ensures
        r == has_transparent_pixel_spec(raw@),
{
    let total = raw.len();
    let n = total / 4;
    let mut p: usize = 0;
    while p < n
        invariant
            n == raw@.len() / 4,
            total == raw@.len(),
            p <= n,
            forall|q: int| 0 <= q < p ==> #[trigger] raw@[4 * q + 3] == 255,
        decreases n - p,
    {
        assert(4 * p + 3 < raw@.len()) by (nonlinear_arith)
            requires
                p < n,
                n == raw@.len() / 4,
        ;
        if raw[4 * p + 3] != 255 {
            return true;
        }
        p = p + 1;
    }
    false
}

/// The lowercased extension of a path (empty without one).
pub open spec fn lower_extension(path: Seq<char>) -> Seq<char> {
    match path_extension(path) {
        Some(e) => ascii_lower_seq(e),
        None => Seq::empty(),
    }
}

/// Formats that never carry transparency.
pub open spec fn is_opaque_format(ext: Seq<char>) -> bool {
    ext == "jpg"@ || ext == "jpeg"@ || ext == "jfif"@ || ext == "jpe"@ || ext == "bmp"@
}

/// What a file's extension says about its contents.
pub struct FormatTraits {
    /// The format can hold transparent pixels.
    pub may_have_transparency: bool,
    /// The file is a GIF, which may be animated.
    pub is_gif: bool,
}

/// What the extension of `path` says: formats other than JPEG and BMP may hold
/// transparency, and `gif` files may be animated.
pub fn format_traits(path: &str) -> (r: FormatTraits)
    ensures
        r.may_have_transparency == !is_opaque_format(lower_extension(path@)),
        r.is_gif == (lower_extension(path@) == "gif"@),
{
    let ext = match crate::paths::extension(path) {
        Some(e) => ascii_lowercase_chars(&chars_of(e.as_str())),
        None => Vec::new(),
    };
    let opaque = crate::text::chars_equal(&ext, &chars_of("jpg")) || crate::text::chars_equal(
        &ext,
        &chars_of("jpeg"),
    ) || crate::text::chars_equal(&ext, &chars_of("jfif")) || crate::text::chars_equal(
        &ext,
        &chars_of("jpe"),
    ) || crate::text::chars_equal(&ext, &chars_of("bmp"));
    FormatTraits {
        may_have_transparency: !opaque,
        is_gif: crate::text::chars_equal(&ext, &chars_of("gif")),
    }
}

/// The pixels of an image as 8-bit RGBA, row after row.
pub struct RgbaPixels {
    pub width: u32,
    pub height: u32,
    pub raw: Vec<u8>,
}

impl RgbaPixels {
    /// Four bytes per pixel.
    pub open spec fn wf(&self) -> bool {
        self.raw@.len() == 4 * (self.width as int) * (self.height as int)
    }
}

/// Width, height and RGBA bytes of some pixels, as plain values.
pub open spec fn rgba_view(p: RgbaPixels) -> (u32, u32, Seq<u8>) {
    (p.width, p.height, p.raw@)
}

/// What `DynamicImage::to_rgba8` gives for `img`: its width, height and RGBA bytes.
pub uninterp spec fn rgba8_of(img: image::DynamicImage) -> (u32, u32, Seq<u8>);

/// What `DynamicImage::write_to` with the PNG format writes for `img`, or the
/// message of its error.
pub uninterp spec fn png_encoding(img: image::DynamicImage) -> Result<Seq<u8>, Seq<char>>;

/// Channel `c` of pixel (`x`, `y`) of RGBA pixels stored row after row.
pub open spec fn pixel_at(p: (u32, u32, Seq<u8>), x: int, y: int, c: int) -> u8 {
    p.2[(y * p.0 + x) * 4 + c]
}

/// `n` holds four bytes for each of its pixels.
pub open spec fn full_buffer(n: (u32, u32, Seq<u8>)) -> bool {
    n.2.len() == 4 * (n.0 as int) * (n.1 as int)
}

/// `n` is `o` turned a quarter clockwise: pixel (x, y) of `n` is pixel
/// (y, height - 1 - x) of `o`.
pub open spec fn is_rotated_cw(o: (u32, u32, Seq<u8>), n: (u32, u32, Seq<u8>)) -> bool {
    &&& n.0 == o.1
    &&& n.1 == o.0
    &&& full_buffer(n)
    &&& forall|x: int, y: int, c: int|
        0 <= x < n.0 && 0 <= y < n.1 && 0 <= c < 4 ==> #[trigger] pixel_at(n, x, y, c) == pixel_at(
            o,
            y,
            o.1 - 1 - x,
            c,
        )
}

/// `n` is `o` turned a quarter counter-clockwise: pixel (x, y) of `n` is pixel
/// (width - 1 - y, x) of `o`.
pub open spec fn is_rotated_ccw(o: (u32, u32, Seq<u8>), n: (u32, u32, Seq<u8>)) -> bool {
    &&& n.0 == o.1
    &&& n.1 == o.0
    &&& full_buffer(n)
    &&& forall|x: int, y: int, c: int|
        0 <= x < n.0 && 0 <= y < n.1 && 0 <= c < 4 ==> #[trigger] pixel_at(n, x, y, c) == pixel_at(
            o,
            o.0 - 1 - y,
            x,
            c,
        )
}

/// Where a crop starts along one side of `size` pixels: at `pos`, but not past the end.
pub open spec fn crop_start(pos: u32, size: u32) -> int {
    if pos <= size {
        pos as int
    } else {
        size as int
    }
}

/// How many pixels a crop keeps along one side: `len`, but no more than remain
/// after its start.
pub open spec fn crop_extent(pos: u32, len: u32, size: u32) -> int {
    if len <= size - crop_start(pos, size) {
        len as int
    } else {
        size - crop_start(pos, size)
    }
}

/// `n` is the rectangle of `o` at (`x`, `y`) of `w` x `h` pixels, clipped to `o`.
pub open spec fn is_cropped(
    o: (u32, u32, Seq<u8>),
    n: (u32, u32, Seq<u8>),
    x: u32,
    y: u32,
    w: u32,
    h: u32,
) -> bool {
    &&& n.0 == crop_extent(x, w, o.0)
    &&& n.1 == crop_extent(y, h, o.1)
    &&& full_buffer(n)
    &&& forall|i: int, j: int, c: int|
        0 <= i < n.0 && 0 <= j < n.1 && 0 <= c < 4 ==> #[trigger] pixel_at(n, i, j, c) == pixel_at(
            o,
            crop_start(x, o.0) + i,
            crop_start(y, o.1) + j,
            c,
        )
}

/// Converts an image to 8-bit RGBA with `DynamicImage::to_rgba8`; the result is
/// named `rgba8_of`, and holds four bytes for each of `width` x `height` pixels.
#[verifier::external_body]
fn rgba_pixels(img: &image::DynamicImage) -> (r: RgbaPixels)
    ensures
        rgba_view(r) == rgba8_of(*img),
        r.wf(),
{
    let buf = img.to_rgba8();
    let (width, height) = buf.dimensions();
    RgbaPixels { width, height, raw: buf.into_raw() }
}

/// `DynamicImage::rotate90`: `imageops::rotate90` writes pixel (x, y) to
/// (height - 1 - y, x) of an image with width and height exchanged, and the RGBA
/// conversion works pixel by pixel, so the RGBA pixels of the result are those of
/// the image turned a quarter clockwise.
#[verifier::external_body]
fn rotate90(img: &image::DynamicImage) -> (r: image::DynamicImage)
    ensures
        is_rotated_cw(rgba8_of(*img), rgba8_of(r)),
{
    img.rotate90()
}

/// `DynamicImage::rotate270`: `imageops::rotate270` writes pixel (x, y) to
/// (y, width - 1 - x) of an image with width and height exchanged, so the RGBA
/// pixels of the result are those of the image turned a quarter counter-clockwise.
#[verifier::external_body]
fn rotate270(img: &image::DynamicImage) -> (r: image::DynamicImage)
    ensures
        is_rotated_ccw(rgba8_of(*img), rgba8_of(r)),
{
    img.rotate270()
}

/// `DynamicImage::crop_imm`: the part of the image within the rectangle, which
/// `imageops::crop_imm` first clips to the image (the start to the image's size,
/// the extent to what remains after it); the RGBA pixels of the result are that
/// rectangle of the image's.
#[verifier::external_body]
fn crop_image(img: &image::DynamicImage, x: u32, y: u32, width: u32, height: u32) -> (r:
    image::DynamicImage)
    ensures
        is_cropped(rgba8_of(*img), rgba8_of(r), x, y, width, height),
{
    img.crop_imm(x, y, width, height)
}

/// What decoding the bytes of the file `path` gives, in the format its extension
/// names: the image's RGBA pixels, or the message of the error.
pub uninterp spec fn decoded_rgba(bytes: Seq<u8>, path: Seq<char>) -> Result<
    (u32, u32, Seq<u8>),
    Seq<char>,
>;

/// Decodes the bytes of the file `path` as `image::open` does once it has read
/// them: `ImageFormat::from_path` picks the format from the extension, then
/// `load_from_memory_with_format` decodes; each error becomes its message. The
/// outcome, by the RGBA pixels of the image, is named `decoded_rgba`.
#[verifier::external_body]
fn decode_image(bytes: &[u8], path: &str) -> (r: Result<image::DynamicImage, String>)
    ensures
        match r {
            Ok(img) => decoded_rgba(bytes@, path@) == Ok::<(u32, u32, Seq<u8>), Seq<char>>(
                rgba8_of(img),
            ),
            Err(e) => decoded_rgba(bytes@, path@) == Err::<(u32, u32, Seq<u8>), Seq<char>>(e@),
        },
{
    match image::ImageFormat::from_path(path) {
        Ok(format) => match image::load_from_memory_with_format(bytes, format) {
            Ok(img) => Ok(img),
            Err(e) => Err(e.to_string()),
        },
        Err(e) => Err(e.to_string()),
    }
}

/// One frame of a GIF: its pixels and its delay as `numer / denom` milliseconds.
pub struct GifFrame {
    pub pixels: RgbaPixels,
    pub delay_numer: u32,
    pub delay_denom: u32,
}

/// A frame as plain values.
pub open spec fn gif_frame_view(f: GifFrame) -> ((u32, u32, Seq<u8>), u32, u32) {
    (rgba_view(f.pixels), f.delay_numer, f.delay_denom)
}

/// What decoding the bytes of a GIF into its frames gives, or `None` when they do
/// not decode.
pub uninterp spec fn decoded_gif_frames(bytes: Seq<u8>) -> Option<Seq<((u32, u32, Seq<u8>), u32, u32)>>;

/// Decodes every frame of a GIF with `GifDecoder` and `collect_frames`; each frame
/// comes as its RGBA buffer (four bytes a pixel) with `Delay::numer_denom_ms`. The
/// outcome is named `decoded_gif_frames`; a decoding error gives `None`.
#[verifier::external_body]
fn decode_gif(bytes: &[u8]) -> (r: Option<Vec<GifFrame>>)
    ensures
        match r {
            Some(v) => decoded_gif_frames(bytes@) == Some(v@.map_values(|f: GifFrame| gif_frame_view(f))),
            None => decoded_gif_frames(bytes@) is None,
        },
        r matches Some(v) ==> forall|i: int| 0 <= i < v@.len() ==> (#[trigger] v@[i]).pixels.wf(),
{
    let decoder = image::codecs::gif::GifDecoder::new(std::io::Cursor::new(bytes)).ok()?;
    let frames = image::AnimationDecoder::into_frames(decoder).collect_frames().ok()?;
    Some(frames.into_iter().map(|f| {
        let (delay_numer, delay_denom) = f.delay().numer_denom_ms();
        let b = f.into_buffer();
        GifFrame { pixels: RgbaPixels { width: b.width(), height: b.height(), raw: b.into_raw() }, delay_numer, delay_denom }
    }).collect())
}

/// The message when a file cannot be opened.
pub open spec fn open_failure_spec(path: Seq<char>, message: Seq<char>) -> Seq<char> {
    "Failed to open "@ + path + ": "@ + message
}

/// The message when the file `path` cannot be opened for the reason `message`.
pub fn open_failure(path: &str, message: &str) -> (r: String)
    ensures
        r@ == open_failure_spec(path@, message@),
{
    let mut v = chars_of("Failed to open ");
    extend_chars(&mut v, &chars_of(path));
    extend_chars(&mut v, &chars_of(": "));
    extend_chars(&mut v, &chars_of(message));
    string_from_chars(&v)
}

/// The frames of an animated image, decoded from the bytes of the file `path`:
/// `None` unless the extension says GIF and the bytes decode.
pub fn gif_frames(bytes: &[u8], path: &str) -> (r: Option<Vec<GifFrame>>)
    ensures
        lower_extension(path@) != "gif"@ ==> r is None,
        lower_extension(path@) == "gif"@ ==> match decoded_gif_frames(bytes@) {
            Some(s) => r matches Some(v) && v@.map_values(|f: GifFrame| gif_frame_view(f)) == s,
            None => r is None,
        },
        r matches Some(v) ==> forall|i: int| 0 <= i < v@.len() ==> (#[trigger] v@[i]).pixels.wf(),
{
    if format_traits(path).is_gif {
        decode_gif(bytes)
    } else {
        None
    }
}

/// The eight bytes every PNG file begins with.
pub open spec fn png_signature() -> Seq<u8> {
    seq![137u8, 80u8, 78u8, 71u8, 13u8, 10u8, 26u8, 10u8]
}

/// Encodes an image as PNG with `DynamicImage::write_to`; the error becomes its
/// message. The outcome is named `png_encoding`. On success the bytes begin with
/// the PNG signature (the `png` crate writes it first, in `Writer::init`).
#[verifier::external_body]
fn encode_png(img: &image::DynamicImage) -> (r: Result<Vec<u8>, String>)
    ensures
        match r {
            Ok(b) => png_encoding(*img) == Ok::<Seq<u8>, Seq<char>>(b@),
            Err(e) => png_encoding(*img) == Err::<Seq<u8>, Seq<char>>(e@),
        },
        r matches Ok(b) ==> b@.len() >= 8 && b@.subrange(0, 8) == png_signature(),
{
    let mut bytes = Vec::new();
    match img.write_to(&mut std::io::Cursor::new(&mut bytes), image::ImageOutputFormat::Png) {
        Ok(()) => Ok(bytes),
        Err(e) => Err(e.to_string()),
    }
}

/// Rotation applied by the rotate command.
#[derive(Clone, Copy, Debug, PartialEq, Eq, Structural)]
pub enum Rot {
    /// No rotation.
    Keep,
    /// A quarter turn clockwise.
    Cw,
    /// A quarter turn counter-clockwise.
    Ccw,
}

/// An opened image: the decoded image, its RGBA pixels, where it came from,
/// whether it shows transparency, and its animation if it has one.
pub struct LoadedImage<T> {
    inner: image::DynamicImage,
    rgba: RgbaPixels,
    path: String,
    has_transparency: bool,
    animation: Option<ImageAnimation<T>>,
}

impl<T> LoadedImage<T> {
    /// The decoded image.
    pub closed spec fn spec_inner(&self) -> image::DynamicImage {
        self.inner
    }

    /// The RGBA pixels.
    pub closed spec fn spec_rgba(&self) -> RgbaPixels {
        self.rgba
    }

    /// The file the image came from.
    pub closed spec fn spec_path(&self) -> Seq<char> {
        self.path@
    }

    /// Whether the image is treated as transparent.
    pub closed spec fn spec_has_transparency(&self) -> bool {
        self.has_transparency
    }

    /// The animation, if any.
    pub closed spec fn spec_animation(&self) -> Option<ImageAnimation<T>> {
        self.animation
    }

    /// The RGBA pixels are those of the decoded image.
    pub open spec fn pixels_match(&self) -> bool {
        rgba_view(self.spec_rgba()) == rgba8_of(self.spec_inner())
    }

    /// The image decoded from `path`, with its animation and its pixels as RGBA. It
    /// is transparent when its format may be and some pixel is not fully opaque.
    pub fn load(inner: image::DynamicImage, path: String, animation: Option<ImageAnimation<T>>) -> (r:
        LoadedImage<T>)
        ensures
            r.spec_inner() == inner,
            rgba_view(r.spec_rgba()) == rgba8_of(inner),
            r.spec_path() == path@,
            r.spec_animation() == animation,
            r.spec_rgba().wf(),
            r.spec_has_transparency() == (!is_opaque_format(lower_extension(path@))
                && has_transparent_pixel_spec(r.spec_rgba().raw@)),
    {
        let traits = format_traits(path.as_str());
        let rgba = rgba_pixels(&inner);
        let has_transparency = traits.may_have_transparency && has_transparent_pixel(&rgba.raw);
        LoadedImage { inner, rgba, path, has_transparency, animation }
    }

    /// Opens an image from the bytes of the file `path`, with its animation: the
    /// decoded image as `load` keeps it, or, when the bytes do not decode,
    /// `Failed to open <path>: <reason>`.
    pub fn open_bytes(bytes: &[u8], path: String, animation: Option<ImageAnimation<T>>) -> (r: Result<
        LoadedImage<T>,
        String,
    >)
        ensures
            match decoded_rgba(bytes@, path@) {
                Ok(p) => r matches Ok(li) && {
                    &&& rgba_view(li.spec_rgba()) == p
                    &&& li.pixels_match()
                    &&& li.spec_path() == path@
                    &&& li.spec_animation() == animation
                    &&& li.spec_has_transparency() == (!is_opaque_format(lower_extension(path@))
                        && has_transparent_pixel_spec(p.2))
                },
                Err(e) => r matches Err(m) && m@ == open_failure_spec(path@, e),
            },
    {
        match decode_image(bytes, path.as_str()) {
            Ok(img) => Ok(Self::load(img, path, animation)),
            Err(e) => Err(open_failure(path.as_str(), e.as_str())),
        }
    }

    /// The RGBA pixels.
    pub fn rgba(&self) -> (r: &RgbaPixels)
        ensures
            *r == self.spec_rgba(),
    {
        &self.rgba
    }

    /// The animation, for advancing it.
    pub fn animation_mut(&mut self) -> (r: Option<&mut ImageAnimation<T>>)
        ensures
            old(self).spec_animation() is None ==> r is None && *final(self) == *old(self),
            old(self).spec_animation() is Some ==> (r matches Some(a) && *a == old(
                self,
            ).spec_animation().unwrap() && final(self).spec_animation() == Some(*final(a))
                && final(self).spec_inner() == old(self).spec_inner() && final(self).spec_rgba()
                == old(self).spec_rgba() && final(self).spec_path() == old(self).spec_path()
                && final(self).spec_has_transparency() == old(self).spec_has_transparency()),
    {
        match &mut self.animation {
            Some(a) => Some(a),
            None => None,
        }
    }

    /// Whether the image is treated as transparent.
    pub fn has_transparency(&self) -> (r: bool)
        ensures
            r == self.spec_has_transparency(),
    {
        self.has_transparency
    }

    /// The image encoded as PNG, a file that begins with the PNG signature; on
    /// failure, `Failed to encode PNG: ` followed by the encoder's message.
    pub fn png_bytes(&self) -> (r: Result<Vec<u8>, String>)
        ensures
            match png_encoding(self.spec_inner()) {
                Ok(b) => r matches Ok(x) && x@ == b,
                Err(e) => r matches Err(m) && m@ == "Failed to encode PNG: "@ + e,
            },
            r matches Ok(b) ==> b@.len() >= 8 && b@.subrange(0, 8) == png_signature(),
    {
        match encode_png(&self.inner) {
            Ok(b) => Ok(b),
            Err(e) => {
                let mut v = chars_of("Failed to encode PNG: ");
                extend_chars(&mut v, &chars_of(e.as_str()));
                Err(string_from_chars(&v))
            },
        }
    }

    /// The decoded image, for saving it.
    pub fn image(&self) -> (r: &image::DynamicImage)
        ensures
            *r == self.spec_inner(),
    {
        &self.inner
    }

    /// The file the image came from.
    pub fn path(&self) -> (r: &str)
        ensures
            r@ == self.spec_path(),
    {
        self.path.as_str()
    }

    /// Keeps the part of the image within the rectangle at (`x`, `y`) of `width` x
    /// `height` pixels (clipped to the image), then takes its pixels again and
    /// whether any is transparent. The new pixels are that rectangle of the old
    /// image's (of `old(self).spec_rgba()`, which are those pixels).
    pub fn crop(&mut self, x: u32, y: u32, width: u32, height: u32)
        ensures
            final(self).pixels_match(),
            is_cropped(
                rgba8_of(old(self).spec_inner()),
                rgba_view(final(self).spec_rgba()),
                x,
                y,
                width,
                height,
            ),
            final(self).spec_path() == old(self).spec_path(),
            final(self).spec_animation() == old(self).spec_animation(),
            final(self).spec_rgba().wf(),
            final(self).spec_has_transparency() == has_transparent_pixel_spec(
                final(self).spec_rgba().raw@,
            ),
    {
        self.inner = crop_image(&self.inner, x, y, width, height);
        self.rgba = rgba_pixels(&self.inner);
        self.has_transparency = has_transparent_pixel(&self.rgba.raw);
    }

    /// Rotates the image a quarter turn (`Keep` leaves it as it is), then takes its
    /// pixels again and whether any is transparent. The new pixels are the old
    /// image's (those of `old(self).spec_rgba()`) turned.
    pub fn rotate(&mut self, rot: Rot)
        ensures
            final(self).pixels_match(),
            rot == Rot::Cw ==> is_rotated_cw(
                rgba8_of(old(self).spec_inner()),
                rgba_view(final(self).spec_rgba()),
            ),
            rot == Rot::Ccw ==> is_rotated_ccw(
                rgba8_of(old(self).spec_inner()),
                rgba_view(final(self).spec_rgba()),
            ),
            rot == Rot::Keep ==> rgba_view(final(self).spec_rgba()) == rgba8_of(
                old(self).spec_inner(),
            ),
            final(self).spec_path() == old(self).spec_path(),
            final(self).spec_animation() == old(self).spec_animation(),
            rot == Rot::Keep ==> final(self).spec_inner() == old(self).spec_inner(),
            final(self).spec_rgba().wf(),
            final(self).spec_has_transparency() == has_transparent_pixel_spec(
                final(self).spec_rgba().raw@,
            ),
    {
        match rot {
            Rot::Cw => {
                self.inner = rotate90(&self.inner);
            },
            Rot::Ccw => {
                self.inner = rotate270(&self.inner);
            },
            Rot::Keep => {},
        }
        self.rgba = rgba_pixels(&self.inner);
        self.has_transparency = has_transparent_pixel(&self.rgba.raw);
    }
}

} // verus!
