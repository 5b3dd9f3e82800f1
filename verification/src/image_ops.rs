//! Editing an image in memory (rotating, flipping) and the decisions made
//! when an edit is saved back to disk.
use vstd::prelude::*;
use crate::paths::{extension, extension_of, file_name, file_name_of, join_of, join_path, path_with_extension, with_extension_of};
use crate::queue::{source_folder, source_folder_spec};
use crate::text::{append_chars, ascii_lower_chars, ascii_lower_seq, chars_of, decimal, eq_lit, lit, push_str, str_eq, string_of, u64_text};

verus! {

// ---------------------------------------------------------------------------
// Pixel buffers of the image crate
// ---------------------------------------------------------------------------

/// An RGBA pixel buffer of the image crate (`image::RgbaImage`), hidden from
/// the verifier; what it holds is read through `image_contents` and
/// `image_dimensions`.
#[verifier::external_body]
pub struct RgbaBuffer {
    buf: image::RgbaImage,
}

/// The bytes an RGBA buffer holds, four per pixel, row by row.
pub uninterp spec fn image_contents(img: RgbaBuffer) -> Seq<u8>;

/// The width and height an RGBA buffer was made with.
pub uninterp spec fn image_dimensions(img: RgbaBuffer) -> (u32, u32);

/// Whether a buffer holds at least the bytes its dimensions call for, as
/// every buffer of the image crate does.
pub open spec fn holds_pixels(img: RgbaBuffer) -> bool {
    4 * (image_dimensions(img).0 as int) * (image_dimensions(img).1 as int) <= image_contents(img).len()
}

/// Channel `c` of pixel (`x`, `y`) in bytes of an image `w` pixels wide.
pub open spec fn px(src: Seq<u8>, w: int, x: int, y: int, c: int) -> u8 {
    src[4 * (y * w + x) + c]
}

/// The bytes of a `w`×`h` image turned a quarter clockwise: the result is
/// `h` wide, and its pixel (`h-1-y`, `x`) is the source pixel (`x`, `y`).
pub open spec fn rotate_cw_spec(src: Seq<u8>, w: int, h: int) -> Seq<u8> {
    Seq::new((4 * w * h) as nat, |i: int| px(src, w, (i / 4) / h, h - 1 - (i / 4) % h, i % 4))
}

/// The bytes of a `w`×`h` image turned a quarter counter-clockwise: the
/// result is `h` wide, and its pixel (`y`, `w-1-x`) is the source pixel
/// (`x`, `y`).
pub open spec fn rotate_ccw_spec(src: Seq<u8>, w: int, h: int) -> Seq<u8> {
    Seq::new((4 * w * h) as nat, |i: int| px(src, w, w - 1 - (i / 4) / h, (i / 4) % h, i % 4))
}

/// The bytes of a `w`×`h` image mirrored left to right.
pub open spec fn flip_h_spec(src: Seq<u8>, w: int, h: int) -> Seq<u8> {
    Seq::new((4 * w * h) as nat, |i: int| px(src, w, w - 1 - (i / 4) % w, (i / 4) / w, i % 4))
}

/// The bytes of a `w`×`h` image mirrored top to bottom.
pub open spec fn flip_v_spec(src: Seq<u8>, w: int, h: int) -> Seq<u8> {
    Seq::new((4 * w * h) as nat, |i: int| px(src, w, (i / 4) % w, h - 1 - (i / 4) / w, i % 4))
}

/// `ImageBuffer::from_raw`: a buffer over `buf` when it holds at least four
/// bytes per pixel, keeping `buf` whole; none otherwise.
#[verifier::external_body]
fn rgba_from_raw(width: u32, height: u32, buf: Vec<u8>) -> (r: Option<RgbaBuffer>)
    ensures
        r is Some <==> 4 * (width as int) * (height as int) <= buf@.len(),
        r matches Some(img) ==> image_dimensions(img) == (width, height) && image_contents(img) == buf@,
{
    image::RgbaImage::from_raw(width, height, buf).map(|b| RgbaBuffer { buf: b })
}

/// `ImageBuffer::into_raw`: the bytes the buffer holds.
#[verifier::external_body]
fn rgba_into_raw(img: RgbaBuffer) -> (r: Vec<u8>)
    ensures
        r@ == image_contents(img),
{
    img.buf.into_raw()
}

/// `imageops::rotate90`: a new buffer with width and height swapped, each
/// source pixel (`x`, `y`) moved to (`h-1-y`, `x`).
#[verifier::external_body]
fn rotate90(img: &RgbaBuffer) -> (r: RgbaBuffer)
    requires
        holds_pixels(*img),
    ensures
        image_dimensions(r) == (image_dimensions(*img).1, image_dimensions(*img).0),
        image_contents(r) == rotate_cw_spec(
            image_contents(*img),
            image_dimensions(*img).0 as int,
            image_dimensions(*img).1 as int,
        ),
{
    RgbaBuffer { buf: image::imageops::rotate90(&img.buf) }
}

/// `imageops::rotate270`: a new buffer with width and height swapped, each
/// source pixel (`x`, `y`) moved to (`y`, `w-1-x`).
#[verifier::external_body]
fn rotate270(img: &RgbaBuffer) -> (r: RgbaBuffer)
    requires
        holds_pixels(*img),
    ensures
        image_dimensions(r) == (image_dimensions(*img).1, image_dimensions(*img).0),
        image_contents(r) == rotate_ccw_spec(
            image_contents(*img),
            image_dimensions(*img).0 as int,
            image_dimensions(*img).1 as int,
        ),
{
    RgbaBuffer { buf: image::imageops::rotate270(&img.buf) }
}

/// `imageops::flip_horizontal`: a new buffer of the same size, each source
/// pixel (`x`, `y`) moved to (`w-1-x`, `y`).
#[verifier::external_body]
fn flip_horizontal(img: &RgbaBuffer) -> (r: RgbaBuffer)
    requires
        holds_pixels(*img),
    ensures
        image_dimensions(r) == image_dimensions(*img),
        image_contents(r) == flip_h_spec(
            image_contents(*img),
            image_dimensions(*img).0 as int,
            image_dimensions(*img).1 as int,
        ),
{
    RgbaBuffer { buf: image::imageops::flip_horizontal(&img.buf) }
}

/// `imageops::flip_vertical`: a new buffer of the same size, each source
/// pixel (`x`, `y`) moved to (`x`, `h-1-y`).
#[verifier::external_body]
fn flip_vertical(img: &RgbaBuffer) -> (r: RgbaBuffer)
    requires
        holds_pixels(*img),
    ensures
        image_dimensions(r) == image_dimensions(*img),
        image_contents(r) == flip_v_spec(
            image_contents(*img),
            image_dimensions(*img).0 as int,
            image_dimensions(*img).1 as int,
        ),
{
    RgbaBuffer { buf: image::imageops::flip_vertical(&img.buf) }
}

// ---------------------------------------------------------------------------
// In-memory edits
// ---------------------------------------------------------------------------

/// An edit of the image on screen.
#[derive(Clone, Copy, Debug, PartialEq, Eq, Structural)]
pub enum EditTransform {
    RotateCw,
    RotateCcw,
    FlipHorizontal,
    FlipVertical,
}

/// The edit an action names: `rotate-cw`, `rotate-ccw`, `flip-h`, `flip-v`.
pub open spec fn edit_transform_spec(op: Seq<char>) -> Option<EditTransform> {
    if op == "rotate-cw"@ {
        Some(EditTransform::RotateCw)
    } else if op == "rotate-ccw"@ {
        Some(EditTransform::RotateCcw)
    } else if op == "flip-h"@ {
        Some(EditTransform::FlipHorizontal)
    } else if op == "flip-v"@ {
        Some(EditTransform::FlipVertical)
    } else {
        None
    }
}

/// The edit an action names.
pub fn edit_transform_of(op: &str) -> (r: Option<EditTransform>)
    ensures
        r == edit_transform_spec(op@),
{
    if str_eq(op, "rotate-cw") {
        Some(EditTransform::RotateCw)
    } else if str_eq(op, "rotate-ccw") {
        Some(EditTransform::RotateCcw)
    } else if str_eq(op, "flip-h") {
        Some(EditTransform::FlipHorizontal)
    } else if str_eq(op, "flip-v") {
        Some(EditTransform::FlipVertical)
    } else {
        None
    }
}

/// What an edit leaves of the image on screen.
#[derive(Debug)]
pub enum EditOutcome {
    /// The pixels stay as they were (an empty image, or an unknown action).
    Unchanged { rgba: Vec<u8>, width: u32, height: u32 },
    /// The edited pixels and their size.
    Transformed { rgba: Vec<u8>, width: u32, height: u32 },
    /// The bytes were too few for the size, and are dropped.
    Dropped,
}

/// The size after an edit.
pub open spec fn edited_size(t: EditTransform, w: u32, h: u32) -> (u32, u32) {
    match t {
        EditTransform::RotateCw | EditTransform::RotateCcw => (h, w),
        _ => (w, h),
    }
}

/// The pixels after an edit.
pub open spec fn edited_pixels(t: EditTransform, src: Seq<u8>, w: int, h: int) -> Seq<u8> {
    match t {
        EditTransform::RotateCw => rotate_cw_spec(src, w, h),
        EditTransform::RotateCcw => rotate_ccw_spec(src, w, h),
        EditTransform::FlipHorizontal => flip_h_spec(src, w, h),
        EditTransform::FlipVertical => flip_v_spec(src, w, h),
    }
}

/// Applies the edit an action names to RGBA pixels of the given size. An
/// empty image stays as it is; too few bytes for the size are dropped; an
/// unknown action leaves the pixels; otherwise they are rotated or flipped.
pub fn apply_transform(op: &str, rgba: Vec<u8>, width: u32, height: u32) -> (r: EditOutcome)
    ensures
        (width == 0 || height == 0) ==> r == (EditOutcome::Unchanged { rgba, width, height }),
        (width > 0 && height > 0 && rgba@.len() < 4 * (width as int) * (height as int)) ==> r == EditOutcome::Dropped,
        (width > 0 && height > 0 && rgba@.len() >= 4 * (width as int) * (height as int) && edit_transform_spec(op@) is None)
            ==> (r matches EditOutcome::Unchanged { rgba: out, width: w, height: h } && out@ == rgba@ && w == width && h == height),
        (width > 0 && height > 0 && rgba@.len() >= 4 * (width as int) * (height as int) && edit_transform_spec(op@) is Some)
            ==> (r matches EditOutcome::Transformed { rgba: out, width: w, height: h }
                && (w, h) == edited_size(edit_transform_spec(op@)->0, width, height)
                && out@ == edited_pixels(edit_transform_spec(op@)->0, rgba@, width as int, height as int)),
{
    if width == 0 || height == 0 {
        return EditOutcome::Unchanged { rgba, width, height };
    }
    let ghost src = rgba@;
    let buf = match rgba_from_raw(width, height, rgba) {
        Some(b) => b,
        None => {
            return EditOutcome::Dropped;
        },
    };
    match edit_transform_of(op) {
        None => {
            let bytes = rgba_into_raw(buf);
            EditOutcome::Unchanged { rgba: bytes, width, height }
        },
        Some(t) => {
            let out = match t {
                EditTransform::RotateCw => rotate90(&buf),
                EditTransform::RotateCcw => rotate270(&buf),
                EditTransform::FlipHorizontal => flip_horizontal(&buf),
                EditTransform::FlipVertical => flip_vertical(&buf),
            };
            let (nw, nh) = match t {
                EditTransform::RotateCw | EditTransform::RotateCcw => (height, width),
                _ => (width, height),
            };
            let bytes = rgba_into_raw(out);
            EditOutcome::Transformed { rgba: bytes, width: nw, height: nh }
        },
    }
}

/// A byte position of an image, split into its pixel position (row `y`,
/// column `x` of a `w`-wide image) and channel.
proof fn lemma_split_index(i: int, w: int, h: int) -> (xyc: (int, int, int))
    requires
        w > 0,
        h > 0,
        0 <= i < 4 * w * h,
    ensures
        0 <= xyc.0 < w,
        0 <= xyc.1 < h,
        0 <= xyc.2 < 4,
        xyc.0 == (i / 4) % w,
        xyc.1 == (i / 4) / w,
        xyc.2 == i % 4,
        i == 4 * (xyc.1 * w + xyc.0) + xyc.2,
{
    let p = i / 4;
    let c = i % 4;
    assert(i == 4 * p + c);
    assert(p < w * h) by (nonlinear_arith)
        requires
            i == 4 * p + c,
            0 <= c < 4,
            i < 4 * w * h,
    ;
    let x = p % w;
    let y = p / w;
    assert(p == y * w + x) by (nonlinear_arith)
        requires
            w > 0,
            x == p % w,
            y == p / w,
    ;
    assert(0 <= y < h) by (nonlinear_arith)
        requires
            w > 0,
            0 <= p < w * h,
            y == p / w,
    ;
    (x, y, c)
}

/// Recovers the parts of a byte position of a `w`-wide image.
proof fn lemma_join_index(x: int, y: int, c: int, w: int)
    requires
        w > 0,
        0 <= x < w,
        0 <= y,
        0 <= c < 4,
    ensures
        (4 * (y * w + x) + c) / 4 == y * w + x,
        (4 * (y * w + x) + c) % 4 == c,
        (y * w + x) / w == y,
        (y * w + x) % w == x,
{
    vstd::arithmetic::div_mod::lemma_fundamental_div_mod_converse(4 * (y * w + x) + c, 4, y * w + x, c);
    vstd::arithmetic::div_mod::lemma_fundamental_div_mod_converse(y * w + x, w, y, x);
}

/// Turning an image a quarter clockwise and then a quarter
/// counter-clockwise gives it back.
pub proof fn lemma_rotate_back(src: Seq<u8>, w: int, h: int)
    requires
        w > 0,
        h > 0,
        src.len() == 4 * w * h,
    ensures
        rotate_ccw_spec(rotate_cw_spec(src, w, h), h, w) == src,
{
    let r = rotate_cw_spec(src, w, h);
    let back = rotate_ccw_spec(r, h, w);
    assert(4 * h * w == 4 * w * h) by (nonlinear_arith);
    assert forall|i: int| 0 <= i < src.len() implies #[trigger] back[i] == src[i] by {
        // In the turned image (h wide, w high), the byte read back sits at
        // column h-1-y, row x of the source pixel (x, y).
        let (x, y, c) = lemma_split_index(i, w, h);
        assert(i / 4 == y * w + x);
        let rx = h - 1 - y;
        let ry = x;
        let j = 4 * (ry * h + rx) + c;
        assert(back[i] == px(r, h, h - 1 - (i / 4) / w, (i / 4) % w, i % 4));
        lemma_join_index(x, y, c, w);
        assert(j == 4 * (((i / 4) % w) * h + (h - 1 - (i / 4) / w)) + i % 4);
        assert(0 <= j < 4 * w * h) by (nonlinear_arith)
            requires
                0 <= rx < h,
                0 <= ry < w,
                0 <= c < 4,
                j == 4 * (ry * h + rx) + c,
        ;
        lemma_join_index(rx, ry, c, h);
        assert(r[j] == px(src, w, (j / 4) / h, h - 1 - (j / 4) % h, j % 4));
    }
    assert(back =~= src);
}

/// Pixel (`x`, `y`) of an image turned a quarter clockwise (it is `h` wide)
/// is source pixel (`y`, `h-1-x`).
proof fn lemma_rotate_cw_pixel(src: Seq<u8>, w: int, h: int, x: int, y: int, c: int)
    requires
        w > 0,
        h > 0,
        0 <= x < h,
        0 <= y < w,
        0 <= c < 4,
    ensures
        0 <= 4 * (y * h + x) + c < 4 * w * h,
        px(rotate_cw_spec(src, w, h), h, x, y, c) == px(src, w, y, h - 1 - x, c),
{
    let j = 4 * (y * h + x) + c;
    assert(0 <= j < 4 * w * h) by (nonlinear_arith)
        requires
            0 <= x < h,
            0 <= y < w,
            0 <= c < 4,
            j == 4 * (y * h + x) + c,
    ;
    lemma_join_index(x, y, c, h);
}

/// Four quarter turns clockwise give the image back.
pub proof fn lemma_rotate_four_times(src: Seq<u8>, w: int, h: int)
    requires
        w > 0,
        h > 0,
        src.len() == 4 * w * h,
    ensures
        rotate_cw_spec(rotate_cw_spec(rotate_cw_spec(rotate_cw_spec(src, w, h), h, w), w, h), h, w) == src,
{
    let r1 = rotate_cw_spec(src, w, h);
    let r2 = rotate_cw_spec(r1, h, w);
    let r3 = rotate_cw_spec(r2, w, h);
    let r4 = rotate_cw_spec(r3, h, w);
    assert(4 * h * w == 4 * w * h) by (nonlinear_arith);
    assert forall|i: int| 0 <= i < src.len() implies #[trigger] r4[i] == src[i] by {
        let (x, y, c) = lemma_split_index(i, w, h);
        lemma_rotate_cw_pixel(r3, h, w, x, y, c);
        lemma_rotate_cw_pixel(r2, w, h, y, w - 1 - x, c);
        lemma_rotate_cw_pixel(r1, h, w, w - 1 - x, h - 1 - y, c);
        lemma_rotate_cw_pixel(src, w, h, h - 1 - y, x, c);
    }
    assert(r4 =~= src);
}

/// Mirroring an image left to right twice gives it back.
pub proof fn lemma_flip_h_twice(src: Seq<u8>, w: int, h: int)
    requires
        w > 0,
        h > 0,
        src.len() == 4 * w * h,
    ensures
        flip_h_spec(flip_h_spec(src, w, h), w, h) == src,
{
    let f = flip_h_spec(src, w, h);
    let back = flip_h_spec(f, w, h);
    assert forall|i: int| 0 <= i < src.len() implies #[trigger] back[i] == src[i] by {
        let (x, y, c) = lemma_split_index(i, w, h);
        let j = 4 * (y * w + (w - 1 - x)) + c;
        lemma_join_index(x, y, c, w);
        assert(back[i] == px(f, w, w - 1 - (i / 4) % w, (i / 4) / w, i % 4));
        assert(0 <= j < 4 * w * h) by (nonlinear_arith)
            requires
                0 <= x < w,
                0 <= y < h,
                0 <= c < 4,
                j == 4 * (y * w + (w - 1 - x)) + c,
        ;
        lemma_join_index(w - 1 - x, y, c, w);
    }
    assert(back =~= src);
}

/// Mirroring an image top to bottom twice gives it back.
pub proof fn lemma_flip_v_twice(src: Seq<u8>, w: int, h: int)
    requires
        w > 0,
        h > 0,
        src.len() == 4 * w * h,
    ensures
        flip_v_spec(flip_v_spec(src, w, h), w, h) == src,
{
    let f = flip_v_spec(src, w, h);
    let back = flip_v_spec(f, w, h);
    assert forall|i: int| 0 <= i < src.len() implies #[trigger] back[i] == src[i] by {
        let (x, y, c) = lemma_split_index(i, w, h);
        let j = 4 * ((h - 1 - y) * w + x) + c;
        lemma_join_index(x, y, c, w);
        assert(back[i] == px(f, w, (i / 4) % w, h - 1 - (i / 4) / w, i % 4));
        assert(0 <= j < 4 * w * h) by (nonlinear_arith)
            requires
                0 <= x < w,
                0 <= y < h,
                0 <= c < 4,
                j == 4 * ((h - 1 - y) * w + x) + c,
        ;
        lemma_join_index(x, h - 1 - y, c, w);
    }
    assert(back =~= src);
}

// ---------------------------------------------------------------------------
// Saving an edit
// ---------------------------------------------------------------------------

/// Whether a path has a JPEG extension (in any case): saving an edit there
/// re-encodes it, which loses quality, so the user is asked first.
pub open spec fn jpeg_extension_spec(path: Seq<char>) -> bool {
    match extension_of(path) {
        Some(e) => ascii_lower_seq(e) == "jpg"@ || ascii_lower_seq(e) == "jpeg"@,
        None => false,
    }
}

/// Whether saving an edit to `path` re-encodes a JPEG.
pub fn requires_jpeg_reencode_warning(path: &str) -> (r: bool)
    ensures
        r == jpeg_extension_spec(path@),
{
    let p = chars_of(path);
    match extension(&p) {
        Some(e) => {
            let l = ascii_lower_chars(&e);
            eq_lit(&l, "jpg") || eq_lit(&l, "jpeg")
        },
        None => false,
    }
}

/// The lowercased extension of an edited file, empty without one.
pub fn edit_extension(path: &str) -> (r: String)
    ensures
        r@ == match extension_of(path@) {
            Some(e) => crate::text::lowercase_of(e),
            None => Seq::<char>::empty(),
        },
{
    let p = chars_of(path);
    match crate::paths::extension(&p) {
        Some(e) => string_of(&crate::text::lower_chars(&e)),
        None => string_of(&Vec::new()),
    }
}

/// How an edit is encoded when written back over its file, by the file's
/// format.
#[derive(Clone, Copy, Debug, PartialEq, Eq, Structural)]
pub enum EditEncoding {
    /// JPEG, from the pixels without their alpha.
    Jpeg,
    /// PNG, with alpha.
    Png,
    /// GIF, with alpha.
    Gif,
    /// WebP, with alpha.
    WebP,
    /// TIFF, with alpha.
    Tiff,
    /// BMP, with alpha.
    Bmp,
}

/// The encoding of an edit written back over `path`, from its lowercased
/// extension; none for a format that cannot be written.
pub open spec fn edit_encoding_spec(path: Seq<char>) -> Option<EditEncoding> {
    let e = match extension_of(path) {
        Some(x) => ascii_lower_seq(x),
        None => Seq::empty(),
    };
    if e == "jpg"@ || e == "jpeg"@ {
        Some(EditEncoding::Jpeg)
    } else if e == "png"@ {
        Some(EditEncoding::Png)
    } else if e == "gif"@ {
        Some(EditEncoding::Gif)
    } else if e == "webp"@ {
        Some(EditEncoding::WebP)
    } else if e == "tif"@ || e == "tiff"@ {
        Some(EditEncoding::Tiff)
    } else if e == "bmp"@ {
        Some(EditEncoding::Bmp)
    } else {
        None
    }
}

/// The encoding of an edit written back over `path`, if its format can be
/// written.
pub fn edit_encoding(path: &str) -> (r: Option<EditEncoding>)
    ensures
        r == edit_encoding_spec(path@),
{
    let p = chars_of(path);
    let e = match extension(&p) {
        Some(x) => ascii_lower_chars(&x),
        None => Vec::new(),
    };
    proof {
        assert(extension_of(path@) is None ==> e@ =~= Seq::<char>::empty());
    }
    if eq_lit(&e, "jpg") || eq_lit(&e, "jpeg") {
        Some(EditEncoding::Jpeg)
    } else if eq_lit(&e, "png") {
        Some(EditEncoding::Png)
    } else if eq_lit(&e, "gif") {
        Some(EditEncoding::Gif)
    } else if eq_lit(&e, "webp") {
        Some(EditEncoding::WebP)
    } else if eq_lit(&e, "tif") || eq_lit(&e, "tiff") {
        Some(EditEncoding::Tiff)
    } else if eq_lit(&e, "bmp") {
        Some(EditEncoding::Bmp)
    } else {
        None
    }
}

/// Where and how an edit of `path` is saved: back over the file in its own
/// format when it can be written, else as PNG at the path with a `png`
/// extension.
pub open spec fn edit_target_spec(path: Seq<char>) -> (EditEncoding, Seq<char>) {
    match edit_encoding_spec(path) {
        Some(e) => (e, path),
        None => (EditEncoding::Png, with_extension_of(path, "png"@)),
    }
}

/// Where and how an edit of `path` is saved.
pub fn edit_target(path: &str) -> (r: (EditEncoding, String))
    ensures
        (r.0, r.1@) == edit_target_spec(path@),
{
    match edit_encoding(path) {
        Some(e) => (e, string_of(&chars_of(path))),
        None => {
            proof {
                reveal_strlit("png");
            }
            (EditEncoding::Png, path_with_extension(path, "png"))
        },
    }
}

/// RGBA bytes without their alpha: the first three of each group of four,
/// a trailing partial group dropped.
pub open spec fn rgb_of_rgba_spec(rgba: Seq<u8>) -> Seq<u8> {
    Seq::new((3 * (rgba.len() / 4)) as nat, |i: int| rgba[4 * (i / 3) + i % 3])
}

/// RGBA bytes without their alpha.
pub fn rgba_to_rgb(rgba: &[u8]) -> (r: Vec<u8>)
    ensures
        r@ == rgb_of_rgba_spec(rgba@),
{
    let len = rgba.len();
    let n = len / 4;
    let mut out: Vec<u8> = Vec::new();
    let mut k: usize = 0;
    while k < n
        invariant
            len == rgba@.len(),
            n == len / 4,
            4 * n <= len,
            k <= n,
            out@.len() == 3 * k,
            forall|i: int| 0 <= i < 3 * k ==> #[trigger] out@[i] == rgba@[4 * (i / 3) + i % 3],
        decreases n - k,
    {
        out.push(rgba[4 * k]);
        out.push(rgba[4 * k + 1]);
        out.push(rgba[4 * k + 2]);
        proof {
            assert forall|i: int| 0 <= i < 3 * (k + 1) implies #[trigger] out@[i] == rgba@[4 * (i / 3) + i % 3] by {
                if i >= 3 * k {
                    assert(i / 3 == k);
                }
            }
        }
        k = k + 1;
    }
    assert(out@ =~= rgb_of_rgba_spec(rgba@));
    out
}

/// The name of the temporary file an edit is first written to.
pub open spec fn temp_name_spec(file: Option<Seq<char>>, pid: u32, attempt: u32) -> Seq<char> {
    "."@ + (match file {
        Some(f) => f,
        None => "image"@,
    }) + ".sharpr-save-"@ + decimal(pid as nat) + "-"@ + decimal(attempt as nat) + ".tmp"@
}

/// The temporary file for saving to `output`: a hidden file next to it,
/// named after it, the process and the attempt.
pub open spec fn temp_save_path_spec(output: Seq<char>, pid: u32, attempt: u32) -> Seq<char> {
    join_of(source_folder_spec(output), temp_name_spec(file_name_of(output), pid, attempt))
}

/// The temporary file for saving to `output` at one attempt.
pub fn temp_save_path(output: &str, pid: u32, attempt: u32) -> (r: String)
    ensures
        r@ == temp_save_path_spec(output@, pid, attempt),
{
    let dir = chars_of(source_folder(output).as_str());
    let p = chars_of(output);
    let mut name = lit(".");
    match file_name(&p) {
        Some(f) => append_chars(&mut name, &f),
        None => push_str(&mut name, "image"),
    }
    push_str(&mut name, ".sharpr-save-");
    let a = u64_text(pid as u64);
    append_chars(&mut name, &a);
    push_str(&mut name, "-");
    let b = u64_text(attempt as u64);
    append_chars(&mut name, &b);
    push_str(&mut name, ".tmp");
    let joined = join_path(&dir, &name);
    string_of(&joined)
}

/// The number of temporary names tried before saving gives up.
pub fn temp_save_attempts() -> (r: u32)
    ensures
        r == 1000,
{
    1000
}

/// The metadata tags rewritten on a saved JPEG, with their values: the
/// pixel size in both places it is recorded.
pub open spec fn baked_tags_spec(width: u32, height: u32) -> Seq<(Seq<char>, Seq<char>)> {
    seq![
        ("Exif.Photo.PixelXDimension"@, decimal(width as nat)),
        ("Exif.Photo.PixelYDimension"@, decimal(height as nat)),
        ("Exif.Image.ImageWidth"@, decimal(width as nat)),
        ("Exif.Image.ImageLength"@, decimal(height as nat)),
    ]
}

/// The metadata tags rewritten on a saved JPEG, with their values.
pub fn baked_pixel_tags(width: u32, height: u32) -> (r: Vec<(&'static str, String)>)
    ensures
        r@.map_values(|t: (&'static str, String)| (t.0@, t.1@)) == baked_tags_spec(width, height),
{
    let w = string_of(&u64_text(width as u64));
    let h = string_of(&u64_text(height as u64));
    let r = vec![
        ("Exif.Photo.PixelXDimension", w.clone()),
        ("Exif.Photo.PixelYDimension", h.clone()),
        ("Exif.Image.ImageWidth", w),
        ("Exif.Image.ImageLength", h),
    ];
    assert(r@.map_values(|t: (&'static str, String)| (t.0@, t.1@)) =~= baked_tags_spec(width, height));
    r
}

} // verus!
