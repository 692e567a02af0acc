use vstd::prelude::*;
use vstd::arithmetic::div_mod::lemma_div_is_ordered;
use vstd::arithmetic::div_mod::lemma_div_multiples_vanish_fancy;
use vstd::arithmetic::div_mod::lemma_fundamental_div_mod;
use vstd::arithmetic::div_mod::lemma_mod_bound;
use crate::orient::orientation_source;
use crate::orient::orientation_supported;
use crate::orient::swaps_axes;

verus! {

/// Why the thumbnail transform refused an input.
#[derive(Debug)]
pub enum TransformError {
    /// The source bytes are not a decodable image.  Nothing is written,
    /// so the cache is not poisoned and a retry stays possible.
    Decode,
    /// Encoding the transformed image failed.
    Encode,
    /// The embedded orientation value is outside the eight-value table.
    /// Surfaced apart from decode failures: it is a gap in the table,
    /// not corrupt data.
    UnsupportedOrientation { orientation: u32 },
}

#[verifier::external_type_specification]
#[verifier::external_body]
pub struct ExDynamicImage(image::DynamicImage);

/// The height of a pixel grid: its number of rows.
pub open spec fn grid_height(g: Seq<Seq<u128>>) -> int {
    g.len() as int
}

/// The width of a pixel grid: the length of its first row.
pub open spec fn grid_width(g: Seq<Seq<u128>>) -> int {
    if g.len() == 0 {
        0int
    } else {
        g[0].len() as int
    }
}

/// A rectangular grid: every row as long as the first.
pub open spec fn grid_wf(g: Seq<Seq<u128>>) -> bool {
    forall|y: int| #![trigger g[y]] 0 <= y < g.len() ==> g[y].len() == grid_width(g)
}

/// The grid mirrored across the vertical axis.
pub open spec fn grid_fliph(g: Seq<Seq<u128>>) -> Seq<Seq<u128>> {
    Seq::new(
        g.len(),
        |y: int| Seq::new(grid_width(g) as nat, |x: int| g[y][grid_width(g) - 1 - x]),
    )
}

/// The grid mirrored across the horizontal axis.
pub open spec fn grid_flipv(g: Seq<Seq<u128>>) -> Seq<Seq<u128>> {
    Seq::new(g.len(), |y: int| g[g.len() - 1 - y])
}

/// The grid rotated a quarter turn clockwise.
pub open spec fn grid_rotate90(g: Seq<Seq<u128>>) -> Seq<Seq<u128>> {
    Seq::new(
        grid_width(g) as nat,
        |y: int| Seq::new(g.len(), |x: int| g[g.len() - 1 - x][y]),
    )
}

/// The grid rotated a half turn.
pub open spec fn grid_rotate180(g: Seq<Seq<u128>>) -> Seq<Seq<u128>> {
    Seq::new(
        g.len(),
        |y: int|
            Seq::new(grid_width(g) as nat, |x: int| g[g.len() - 1 - y][grid_width(g) - 1 - x]),
    )
}

/// The grid rotated a quarter turn counter-clockwise.
pub open spec fn grid_rotate270(g: Seq<Seq<u128>>) -> Seq<Seq<u128>> {
    Seq::new(
        grid_width(g) as nat,
        |y: int| Seq::new(g.len(), |x: int| g[x][grid_width(g) - 1 - y]),
    )
}

/// The grid corrected by the standard eight-value orientation table,
/// written as the table reads: 0 and 1 leave it alone, 2 mirrors
/// horizontally, 3 rotates a half turn, 4 mirrors vertically, 5 rotates
/// a quarter turn then mirrors horizontally, 6 rotates a quarter turn,
/// 7 rotates a counter quarter turn then mirrors horizontally, 8
/// rotates a counter quarter turn.
pub open spec fn grid_oriented(g: Seq<Seq<u128>>, o: u32) -> Seq<Seq<u128>> {
    if o == 2 {
        grid_fliph(g)
    } else if o == 3 {
        grid_rotate180(g)
    } else if o == 4 {
        grid_flipv(g)
    } else if o == 5 {
        grid_fliph(grid_rotate90(g))
    } else if o == 6 {
        grid_rotate90(g)
    } else if o == 7 {
        grid_fliph(grid_rotate270(g))
    } else if o == 8 {
        grid_rotate270(g)
    } else {
        g
    }
}

/// The abstract content of a decoded image: a code for its pixel
/// representation, and one abstract value per pixel, rows top to
/// bottom, each row left to right.  Together the two determine the
/// image exactly, so everything the pipeline computes is a function of
/// them.
pub uninterp spec fn image_content(img: image::DynamicImage) -> (u32, Seq<Seq<u128>>);

/// What these bytes decode to, as abstract content: with a fixed
/// decoder, a function of the bytes alone.
pub uninterp spec fn decoded_content(bytes: Seq<u8>) -> (u32, Seq<Seq<u128>>);

/// What the fit-within-bounds resize makes of given content: a
/// function of the content and the bound alone.
pub uninterp spec fn resized_content(content: (u32, Seq<Seq<u128>>), max_edge: u32) -> (
    u32,
    Seq<Seq<u128>>,
);

/// The JPEG encoding of given content at a quality, or nothing when
/// the encoder refuses the content: a function of content and quality
/// alone.
pub uninterp spec fn jpeg_encoding_of(content: (u32, Seq<Seq<u128>>), quality: u8) -> Option<
    Seq<u8>,
>;

/// Content corrected by the orientation table: the representation code
/// is untouched and the grid is corrected; 0 and 1 change nothing.
pub open spec fn oriented_content(c: (u32, Seq<Seq<u128>>), o: u32) -> (u32, Seq<Seq<u128>>) {
    if 2 <= o && o <= 8 {
        (c.0, grid_oriented(c.1, o))
    } else {
        c
    }
}

/// Relies on DynamicImage::fliph of the image crate: the result is the
/// same image with its pixel grid mirrored across the vertical axis.
#[verifier::external_body]
fn image_fliph(img: &image::DynamicImage) -> (r: image::DynamicImage)
    ensures
        image_content(r) == (image_content(*img).0, grid_fliph(image_content(*img).1)),
{
    img.fliph()
}

/// Relies on DynamicImage::flipv of the image crate: the result is the
/// same image with its pixel grid mirrored across the horizontal axis.
#[verifier::external_body]
fn image_flipv(img: &image::DynamicImage) -> (r: image::DynamicImage)
    ensures
        image_content(r) == (image_content(*img).0, grid_flipv(image_content(*img).1)),
{
    img.flipv()
}

/// Relies on DynamicImage::rotate90 of the image crate: the result is
/// the same image with its pixel grid rotated a quarter turn clockwise.
#[verifier::external_body]
fn image_rotate90(img: &image::DynamicImage) -> (r: image::DynamicImage)
    ensures
        image_content(r) == (image_content(*img).0, grid_rotate90(image_content(*img).1)),
{
    img.rotate90()
}

/// Relies on DynamicImage::rotate180 of the image crate: the result is
/// the same image with its pixel grid rotated a half turn.
#[verifier::external_body]
fn image_rotate180(img: &image::DynamicImage) -> (r: image::DynamicImage)
    ensures
        image_content(r) == (image_content(*img).0, grid_rotate180(image_content(*img).1)),
{
    img.rotate180()
}

/// Relies on DynamicImage::rotate270 of the image crate: the result is
/// the same image with its pixel grid rotated a quarter turn
/// counter-clockwise.
#[verifier::external_body]
fn image_rotate270(img: &image::DynamicImage) -> (r: image::DynamicImage)
    ensures
        image_content(r) == (image_content(*img).0, grid_rotate270(image_content(*img).1)),
{
    img.rotate270()
}

/// Relies on DynamicImage::resize of the image crate with the Lanczos3
/// filter: scale to the largest size that fits within the bounds while
/// keeping the aspect ratio.  Its dimension rule (resize_dimensions)
/// keeps the pixel representation, pins the longer edge to the bound,
/// rounds the shorter edge to the nearest pixel of the exact ratio —
/// within one of the library's own rounding — and never returns a zero
/// or out-of-bound edge.
#[verifier::external_body]
fn image_resize_to_fit(img: &image::DynamicImage, max_size: u32) -> (r: image::DynamicImage)
    ensures
        image_content(r) == resized_content(image_content(*img), max_size),
        image_content(r).0 == image_content(*img).0,
        ({
            let g = image_content(*img).1;
            let rg = image_content(r).1;
            let w = grid_width(g);
            let h = grid_height(g);
            (grid_wf(g) && 1 <= w && 1 <= h && 1 <= max_size) ==> {
                &&& grid_wf(rg)
                &&& 1 <= grid_width(rg) <= max_size
                &&& 1 <= grid_height(rg) <= max_size
                &&& (h <= w ==> grid_width(rg) == max_size && spec_fit(w, h, max_size as int).1 - 1
                    <= grid_height(rg) && grid_height(rg) <= spec_fit(w, h, max_size as int).1 + 1)
                &&& (w < h ==> grid_height(rg) == max_size && spec_fit(w, h, max_size as int).0 - 1
                    <= grid_width(rg) && grid_width(rg) <= spec_fit(w, h, max_size as int).0 + 1)
            }
        }),
{
    img.resize(max_size, max_size, image::imageops::FilterType::Lanczos3)
}

/// Whether these bytes decode as an image: with a fixed decoder this
/// depends on the bytes alone.
pub uninterp spec fn decodes(bytes: Seq<u8>) -> bool;

/// Relies on image::load_from_memory: with a fixed decoder, whether the
/// bytes decode, and what content they decode to, depend on the bytes
/// alone, and a decoded pixel grid is rectangular.  Any decoder error
/// becomes the library's decode error.
#[verifier::external_body]
fn decode_image(buffer: &Vec<u8>) -> (r: Result<image::DynamicImage, TransformError>)
    ensures
        r is Ok <==> decodes(buffer@),
        r matches Ok(img) ==> image_content(img) == decoded_content(buffer@) && grid_wf(
            image_content(img).1,
        ),
        r matches Err(e) ==> e is Decode,
{
    match image::load_from_memory(buffer.as_slice()) {
        Ok(img) => Ok(img),
        Err(_) => Err(TransformError::Decode),
    }
}

/// Relies on image's JpegEncoder::new_with_quality and
/// DynamicImage::write_with_encoder: the encoder is deterministic, so
/// whether it succeeds and which bytes it produces are functions of the
/// image's content and the quality alone.  Any encoder error becomes
/// the library's encode error.
#[verifier::external_body]
fn encode_jpeg(img: &image::DynamicImage, quality: u8) -> (r: Result<Vec<u8>, TransformError>)
    ensures
        r is Ok <==> jpeg_encoding_of(image_content(*img), quality) is Some,
        r matches Ok(bytes) ==> Some(bytes@) == jpeg_encoding_of(image_content(*img), quality),
        r matches Err(e) ==> e is Encode,
{
    let mut out: Vec<u8> = Vec::new();
    let encoder = image::codecs::jpeg::JpegEncoder::new_with_quality(&mut out, quality);
    match img.write_with_encoder(encoder) {
        Ok(()) => Ok(out),
        Err(_) => Err(TransformError::Encode),
    }
}

/// The orientation value stored in the bytes' primary image file
/// directory, if any: a function of the bytes alone.
pub uninterp spec fn exif_orientation_of(bytes: Seq<u8>) -> Option<u32>;

/// Relies on exif's Reader::read_from_container, Exif::get_field with
/// Tag::Orientation and In::PRIMARY, and Value::get_uint: read the
/// orientation value embedded in the bytes, a function of the bytes
/// alone.
#[verifier::external_body]
fn read_exif_orientation(buffer: &Vec<u8>) -> (r: Option<u32>)
    ensures
        r == exif_orientation_of(buffer@),
{
    exif::Reader::new()
        .read_from_container(&mut std::io::Cursor::new(buffer.as_slice()))
        .ok()
        .and_then(
            |parsed|
                parsed.get_field(exif::Tag::Orientation, exif::In::PRIMARY).and_then(
                    |field| field.value.get_uint(0),
                ),
        )
}

/// The effective orientation of the bytes: the embedded value, or 1 —
/// no transform — when none is present or readable.
pub open spec fn spec_orientation(bytes: Seq<u8>) -> u32 {
    match exif_orientation_of(bytes) {
        Some(o) => o,
        None => 1,
    }
}

/// The orientation to correct these source bytes by: the embedded value,
/// defaulting to 1 when absent or unreadable.
pub fn extract_exif_orientation(buffer: &Vec<u8>) -> (o: u32)
    ensures
        o == spec_orientation(buffer@),
{
    match read_exif_orientation(buffer) {
        Some(o) => o,
        None => 1,
    }
}

/// The content of the finished thumbnail of these bytes: the decoded
/// image, resized to fit within the bound, then corrected by the
/// embedded orientation — in that order.
pub open spec fn spec_thumbnail_content(bytes: Seq<u8>, max_size: u32) -> (u32, Seq<Seq<u128>>) {
    oriented_content(resized_content(decoded_content(bytes), max_size), spec_orientation(bytes))
}

/// The thumbnail transform: decode the source bytes, resize to fit
/// within `max_size` in both dimensions, correct by the embedded
/// orientation — after the resize — and re-encode as JPEG at the given
/// quality.  The result is a function of the arguments: the decode
/// error comes exactly when the bytes do not decode, the
/// unsupported-orientation error exactly when they decode but carry an
/// orientation outside the table, and otherwise the call returns
/// exactly the JPEG encoding of the resized, orientation-corrected
/// content, failing exactly when that encoding does not exist.
pub fn load_and_resize(buffer: &Vec<u8>, max_size: u32, jpeg_image_quality: u8) -> (r: Result<
    Vec<u8>,
    TransformError,
>)
    ensures
        match r {
            Ok(out) => {
                &&& decodes(buffer@)
                &&& orientation_supported(spec_orientation(buffer@))
                &&& Some(out@) == jpeg_encoding_of(
                    spec_thumbnail_content(buffer@, max_size),
                    jpeg_image_quality,
                )
            },
            Err(TransformError::Decode) => !decodes(buffer@),
            Err(TransformError::UnsupportedOrientation { orientation }) => decodes(buffer@)
                && orientation == spec_orientation(buffer@) && !orientation_supported(orientation),
            Err(TransformError::Encode) => {
                &&& decodes(buffer@)
                &&& orientation_supported(spec_orientation(buffer@))
                &&& jpeg_encoding_of(
                    spec_thumbnail_content(buffer@, max_size),
                    jpeg_image_quality,
                ) is None
            },
        },
        !decodes(buffer@) ==> r == Err::<Vec<u8>, TransformError>(TransformError::Decode),
        decodes(buffer@) && !orientation_supported(spec_orientation(buffer@)) ==> r == Err::<
            Vec<u8>,
            TransformError,
        >(TransformError::UnsupportedOrientation { orientation: spec_orientation(buffer@) }),
        decodes(buffer@) ==> grid_wf(decoded_content(buffer@).1),
        ({
            let dc = decoded_content(buffer@);
            let rc = resized_content(dc, max_size);
            let w = grid_width(dc.1);
            let h = grid_height(dc.1);
            (r is Ok && 1 <= w && 1 <= h && 1 <= max_size) ==> {
                &&& grid_wf(rc.1)
                &&& 1 <= grid_width(rc.1) <= max_size
                &&& 1 <= grid_height(rc.1) <= max_size
                &&& (h <= w ==> grid_width(rc.1) == max_size && spec_fit(w, h, max_size as int).1
                    - 1 <= grid_height(rc.1) && grid_height(rc.1) <= spec_fit(
                    w,
                    h,
                    max_size as int,
                ).1 + 1)
                &&& (w < h ==> grid_height(rc.1) == max_size && spec_fit(w, h, max_size as int).0
                    - 1 <= grid_width(rc.1) && grid_width(rc.1) <= spec_fit(
                    w,
                    h,
                    max_size as int,
                ).0 + 1)
            }
        }),
{
    let orientation = extract_exif_orientation(buffer);
    let decoded = match decode_image(buffer) {
        Ok(img) => img,
        Err(e) => {
            return Err(e);
        },
    };
    let resized = image_resize_to_fit(&decoded, max_size);
    let ghost rc = resized_content(decoded_content(buffer@), max_size);
    assert(image_content(resized) == rc);
    let transformed = if orientation <= 1 {
        resized
    } else if orientation == 2 {
        image_fliph(&resized)
    } else if orientation == 3 {
        image_rotate180(&resized)
    } else if orientation == 4 {
        image_flipv(&resized)
    } else if orientation == 5 {
        image_fliph(&image_rotate90(&resized))
    } else if orientation == 6 {
        image_rotate90(&resized)
    } else if orientation == 7 {
        image_fliph(&image_rotate270(&resized))
    } else if orientation == 8 {
        image_rotate270(&resized)
    } else {
        return Err(TransformError::UnsupportedOrientation { orientation });
    };
    assert(image_content(transformed) == oriented_content(rc, orientation));
    assert(oriented_content(rc, orientation) == spec_thumbnail_content(buffer@, max_size));
    encode_jpeg(&transformed, jpeg_image_quality)
}

/// The grid table the pipeline's contract uses agrees, cell for cell,
/// with the table proved of the raster model: the output grid is
/// rectangular, its axes swap exactly for the transposing values, and
/// its cell at (x, y) is the input cell the standard table prescribes.
pub proof fn lemma_grid_oriented_matches_table(g: Seq<Seq<u128>>, o: u32)
    requires
        grid_wf(g),
        1 <= grid_width(g),
        1 <= grid_height(g),
        orientation_supported(o),
    ensures
        ({
            let out = grid_oriented(g, o);
            let w = grid_width(g);
            let h = grid_height(g);
            &&& grid_wf(out)
            &&& grid_width(out) == if swaps_axes(o) {
                h
            } else {
                w
            }
            &&& grid_height(out) == if swaps_axes(o) {
                w
            } else {
                h
            }
            &&& forall|x: int, y: int|
                #![trigger out[y][x]]
                0 <= x < (if swaps_axes(o) { h } else { w }) && 0 <= y < (if swaps_axes(o) {
                    w
                } else {
                    h
                }) ==> out[y][x] == g[orientation_source(o, w, h, x, y).1][orientation_source(
                    o,
                    w,
                    h,
                    x,
                    y,
                ).0]
        }),
{
    let out = grid_oriented(g, o);
    let w = grid_width(g);
    let h = grid_height(g);
    if o == 5 {
        let mid = grid_rotate90(g);
        assert(mid.len() == w);
        assert(grid_width(mid) == h);
        assert forall|x: int, y: int|
            #![trigger out[y][x]]
            0 <= x < h && 0 <= y < w implies out[y][x] == g[x][y] by {
            assert(out[y][x] == mid[y][h - 1 - x]);
            assert(mid[y][h - 1 - x] == g[h - 1 - (h - 1 - x)][y]);
        }
        assert(grid_width(out) == h);
    } else if o == 7 {
        let mid = grid_rotate270(g);
        assert(mid.len() == w);
        assert(grid_width(mid) == h);
        assert forall|x: int, y: int|
            #![trigger out[y][x]]
            0 <= x < h && 0 <= y < w implies out[y][x] == g[h - 1 - x][w - 1 - y] by {
            assert(out[y][x] == mid[y][h - 1 - x]);
            assert(mid[y][h - 1 - x] == g[h - 1 - x][w - 1 - y]);
        }
        assert(grid_width(out) == h);
    } else if o == 6 || o == 8 {
        assert(grid_width(out) == h);
    } else if o == 2 || o == 3 {
        assert(grid_width(out) == w);
    } else if o == 4 {
        assert(grid_width(out) == w) by {
            assert(out[0] == g[h - 1]);
        }
        assert(grid_wf(out)) by {
            assert forall|y: int| #![trigger out[y]] 0 <= y < out.len() implies out[y].len()
                == grid_width(out) by {
                assert(out[y] == g[h - 1 - y]);
            }
        }
    } else {
    }
}

/// Division rounded to the nearest integer, halves away from zero.
pub open spec fn spec_round_div(a: int, b: int) -> int {
    (2 * a + b) / (2 * b)
}

/// The dimensions the resize step aims for: the largest size that fits
/// within `m` by `m` while preserving the aspect ratio, the longer edge
/// pinned to `m`, the shorter scaled by the same ratio to the nearest
/// pixel, and neither dimension allowed to collapse to zero.
pub open spec fn spec_fit(w: int, h: int, m: int) -> (int, int) {
    if h <= w {
        let nh = spec_round_div(h * m, w);
        (m, if nh < 1 { 1 } else { nh })
    } else {
        let nw = spec_round_div(w * m, h);
        (if nw < 1 { 1 } else { nw }, m)
    }
}

/// The rounded scaled edge never exceeds the bound, and sits within half
/// a denominator of the exact ratio.
proof fn lemma_round_div_bounds(a: int, b: int, m: int)
    requires
        0 < b,
        0 <= a,
        a <= b * m,
        0 <= m,
    ensures
        spec_round_div(a, b) <= m,
        2 * b * spec_round_div(a, b) <= 2 * a + b,
        2 * a < 2 * b * spec_round_div(a, b) + 2 * b,
{
    let q = spec_round_div(a, b);
    lemma_fundamental_div_mod(2 * a + b, 2 * b);
    lemma_mod_bound(2 * a + b, 2 * b);
    assert(2 * a + b <= 2 * (b * m) + b) by (nonlinear_arith)
        requires
            a <= b * m,
    ;
    lemma_div_is_ordered(2 * a + b, 2 * (b * m) + b, 2 * b);
    assert(2 * (b * m) + b == (2 * b) * m + b) by (nonlinear_arith);
    lemma_div_multiples_vanish_fancy(m, b, 2 * b);
    assert(((2 * b) * m + b) / (2 * b) == m);
}

/// Resize bound: for any source dimensions and any positive bound, the
/// fitted dimensions stay within the bound on both edges, never collapse
/// to zero, and pin the longer edge to the bound; the shorter edge is
/// the aspect-true value to within rounding — its scaled product sits
/// within half a denominator of the exact one — except when clamped up
/// to a single pixel.
pub proof fn lemma_resize_bound(w: int, h: int, m: int)
    requires
        1 <= w,
        1 <= h,
        1 <= m,
    ensures
        ({
            let (nw, nh) = spec_fit(w, h, m);
            &&& 1 <= nw <= m
            &&& 1 <= nh <= m
            &&& (h <= w ==> nw == m)
            &&& (w < h ==> nh == m)
            &&& (h <= w ==> 2 * h * m < 2 * nh * w + 2 * w && (nh == 1 || 2 * nh * w <= 2 * h * m
                + w))
            &&& (w < h ==> 2 * w * m < 2 * nw * h + 2 * h && (nw == 1 || 2 * nw * h <= 2 * w * m
                + h))
        }),
{
    if h <= w {
        assert(0 <= h * m && h * m <= w * m) by (nonlinear_arith)
            requires
                1 <= h <= w && 1 <= m,
        ;
        lemma_round_div_bounds(h * m, w, m);
        let q = spec_round_div(h * m, w);
        let nh = if q < 1 {
            1int
        } else {
            q
        };
        assert(2 * h * m == 2 * (h * m)) by (nonlinear_arith);
        if q >= 1 {
            assert(2 * nh * w == 2 * w * q) by (nonlinear_arith)
                requires
                    nh == q,
            ;
        } else {
            assert(2 * w * q <= 0) by (nonlinear_arith)
                requires
                    q <= 0 && w >= 1,
            ;
            assert(2 * nh * w == 2 * w) by (nonlinear_arith)
                requires
                    nh == 1,
            ;
        }
        assert(2 * h * m < 2 * nh * w + 2 * w);
        assert(nh == 1 || 2 * nh * w <= 2 * h * m + w);
    } else {
        assert(0 <= w * m && w * m <= h * m) by (nonlinear_arith)
            requires
                1 <= w <= h && 1 <= m,
        ;
        lemma_round_div_bounds(w * m, h, m);
        let q = spec_round_div(w * m, h);
        let nw = if q < 1 {
            1int
        } else {
            q
        };
        assert(2 * w * m == 2 * (w * m)) by (nonlinear_arith);
        if q >= 1 {
            assert(2 * nw * h == 2 * h * q) by (nonlinear_arith)
                requires
                    nw == q,
            ;
        } else {
            assert(2 * h * q <= 0) by (nonlinear_arith)
                requires
                    q <= 0 && h >= 1,
            ;
            assert(2 * nw * h == 2 * h) by (nonlinear_arith)
                requires
                    nw == 1,
            ;
        }
        assert(2 * w * m < 2 * nw * h + 2 * h);
        assert(nw == 1 || 2 * nw * h <= 2 * w * m + h);
    }
}

/// Compute the fitted dimensions for a source of `width` by `height`
/// scaled to fit within `max_edge` by `max_edge`.
pub fn fit_dimensions(width: u32, height: u32, max_edge: u32) -> (r: (u32, u32))
    requires
        1 <= width,
        1 <= height,
        1 <= max_edge,
    ensures
        (r.0 as int, r.1 as int) == spec_fit(width as int, height as int, max_edge as int),
        1 <= r.0 <= max_edge,
        1 <= r.1 <= max_edge,
{
    proof {
        lemma_resize_bound(width as int, height as int, max_edge as int);
    }
    let w = width as u128;
    let h = height as u128;
    let m = max_edge as u128;
    if height <= width {
        proof {
            assert(0 <= h as int * (m as int) && h as int * (m as int) <= w as int * (m as int))
                by (nonlinear_arith)
                requires
                    1 <= h as int <= w as int && 1 <= m as int,
            ;
            lemma_round_div_bounds(h as int * (m as int), w as int, m as int);
            assert(2 * (h as int) * (m as int) == 2 * ((h as int) * (m as int)))
                by (nonlinear_arith);
            assert(2 * (h as int) * (m as int) <= 2 * 4294967295 * 4294967295)
                by (nonlinear_arith)
                requires
                    0 <= h as int <= 4294967295 && 0 <= m as int <= 4294967295,
            ;
        }
        let q = (2 * h * m + w) / (2 * w);
        assert(q as int == spec_round_div(h as int * (m as int), w as int));
        let nh: u32 = if q < 1 {
            1
        } else {
            assert(q as int <= m as int);
            q as u32
        };
        (max_edge, nh)
    } else {
        proof {
            assert(0 <= w as int * (m as int) && w as int * (m as int) <= h as int * (m as int))
                by (nonlinear_arith)
                requires
                    1 <= w as int <= h as int && 1 <= m as int,
            ;
            lemma_round_div_bounds(w as int * (m as int), h as int, m as int);
            assert(2 * (w as int) * (m as int) == 2 * ((w as int) * (m as int)))
                by (nonlinear_arith);
            assert(2 * (w as int) * (m as int) <= 2 * 4294967295 * 4294967295)
                by (nonlinear_arith)
                requires
                    0 <= w as int <= 4294967295 && 0 <= m as int <= 4294967295,
            ;
        }
        let q = (2 * w * m + h) / (2 * h);
        assert(q as int == spec_round_div(w as int * (m as int), h as int));
        let nw: u32 = if q < 1 {
            1
        } else {
            assert(q as int <= m as int);
            q as u32
        };
        (nw, max_edge)
    }
}

} // verus!
