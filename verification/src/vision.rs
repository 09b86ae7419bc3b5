//! Image features the lettering detectors read: decoded pixels, colour
//! palettes, edge counts and channel sums. Decoding is done by the image
//! crate; what is computed from the pixels is this library's.
use vstd::prelude::*;
use vstd::string::*;

verus! {

// ---------------------------------------------------------------------
// Decoded pixels
// ---------------------------------------------------------------------

/// Pixels of an image, row after row: three bytes per pixel for colour,
/// one for grey levels.
pub struct Pixels {
    pub width: u32,
    pub height: u32,
    pub data: Vec<u8>,
}

/// What the image crate decodes `bytes` to, as 8-bit RGB: width, height
/// and pixel bytes, or the decoder's error text.
pub uninterp spec fn rgb_decoding(bytes: Seq<u8>) -> Result<(u32, u32, Seq<u8>), Seq<char>>;

/// What the image crate decodes `bytes` to, as 8-bit grey levels.
pub uninterp spec fn luma_decoding(bytes: Seq<u8>) -> Result<(u32, u32, Seq<u8>), Seq<char>>;

/// Decodes `bytes` with `image::load_from_memory` and converts the image
/// with `to_rgb8`. Believed without proof: the outcome is the decoding of
/// exactly these bytes, and the pixel buffer holds three bytes per pixel,
/// row after row. The grey decoding of the same bytes starts from the same
/// `load_from_memory` call, so it fails with the same text, or succeeds
/// with the same width and height.
#[verifier::external_body]
pub(crate) fn decode_rgb(bytes: &[u8]) -> (r: Result<Pixels, String>)
    ensures
        match r {
            Ok(p) => rgb_decoding(bytes@) == Ok::<(u32, u32, Seq<u8>), Seq<char>>(
                (p.width, p.height, p.data@),
            ) && p.data@.len() == 3 * p.width * p.height,
            Err(m) => rgb_decoding(bytes@) == Err::<(u32, u32, Seq<u8>), Seq<char>>(m@),
        },
        match r {
            Ok(p) => luma_decoding(bytes@) is Ok && luma_decoding(bytes@)->Ok_0.0 == p.width
                && luma_decoding(bytes@)->Ok_0.1 == p.height,
            Err(m) => luma_decoding(bytes@) == Err::<(u32, u32, Seq<u8>), Seq<char>>(m@),
        },
{
    match image::load_from_memory(bytes) {
        Ok(img) => {
            let rgb = img.to_rgb8();
            let (width, height) = rgb.dimensions();
            Ok(Pixels { width, height, data: rgb.into_raw() })
        },
        Err(e) => Err(e.to_string()),
    }
}

/// Decodes `bytes` with `image::load_from_memory` and converts the image
/// with `to_luma8`. Believed without proof: the outcome is the decoding of
/// exactly these bytes, and the buffer holds one byte per pixel, row after
/// row. The RGB decoding of the same bytes starts from the same
/// `load_from_memory` call, so it fails with the same text, or succeeds
/// with the same width and height.
#[verifier::external_body]
pub(crate) fn decode_luma(bytes: &[u8]) -> (r: Result<Pixels, String>)
    ensures
        match r {
            Ok(p) => luma_decoding(bytes@) == Ok::<(u32, u32, Seq<u8>), Seq<char>>(
                (p.width, p.height, p.data@),
            ) && p.data@.len() == p.width * p.height,
            Err(m) => luma_decoding(bytes@) == Err::<(u32, u32, Seq<u8>), Seq<char>>(m@),
        },
        match r {
            Ok(p) => rgb_decoding(bytes@) is Ok && rgb_decoding(bytes@)->Ok_0.0 == p.width
                && rgb_decoding(bytes@)->Ok_0.1 == p.height,
            Err(m) => rgb_decoding(bytes@) == Err::<(u32, u32, Seq<u8>), Seq<char>>(m@),
        },
{
    match image::load_from_memory(bytes) {
        Ok(img) => {
            let gray = img.to_luma8();
            let (width, height) = gray.dimensions();
            Ok(Pixels { width, height, data: gray.into_raw() })
        },
        Err(e) => Err(e.to_string()),
    }
}

/// Decodes `bytes` with `image::load_from_memory` and gives the image's
/// width. Believed without proof: it succeeds exactly when the RGB
/// decoding of the same bytes does, with that decoding's width, and fails
/// with that decoding's error text.
#[verifier::external_body]
pub(crate) fn decoded_width(bytes: &[u8]) -> (r: Result<u32, String>)
    ensures
        match r {
            Ok(width) => rgb_decoding(bytes@) is Ok && width == rgb_decoding(bytes@)->Ok_0.0,
            Err(m) => rgb_decoding(bytes@) == Err::<(u32, u32, Seq<u8>), Seq<char>>(m@),
        },
{
    match image::load_from_memory(bytes) {
        Ok(img) => Ok(img.width()),
        Err(e) => Err(e.to_string()),
    }
}

/// What the image crate makes of `bytes` when it decodes them and encodes
/// the image unchanged as WebP: the WebP bytes, or the error's text.
pub uninterp spec fn webp_encoding(bytes: Seq<u8>) -> Result<Seq<u8>, Seq<char>>;

/// What the image crate makes of `bytes` when it decodes them, scales the
/// image to `width` pixels across keeping its proportions (triangle
/// filter), and encodes the result as WebP: the WebP bytes, or the error's
/// text.
pub uninterp spec fn resized_webp_encoding(bytes: Seq<u8>, width: u32) -> Result<Seq<u8>, Seq<char>>;

/// The bytes or the text of an outcome.
pub open spec fn outcome_view(r: Result<Vec<u8>, String>) -> Result<Seq<u8>, Seq<char>> {
    match r {
        Ok(v) => Ok(v@),
        Err(e) => Err(e@),
    }
}

/// `image::load_from_memory`, then `DynamicImage::write_to` with the WebP
/// format. Believed without proof: the outcome is `webp_encoding` of the
/// bytes, the same for the same bytes.
#[verifier::external_body]
fn webp_of(bytes: &[u8]) -> (r: Result<Vec<u8>, String>)
    ensures
        outcome_view(r) == webp_encoding(bytes@),
{
    let img = match image::load_from_memory(bytes) {
        Ok(img) => img,
        Err(e) => return Err(e.to_string()),
    };
    let mut buffer = std::io::Cursor::new(Vec::new());
    match img.write_to(&mut buffer, image::ImageFormat::WebP) {
        Ok(()) => Ok(buffer.into_inner()),
        Err(e) => Err(e.to_string()),
    }
}

/// `image::load_from_memory`, `DynamicImage::resize` to `width` across with
/// no height limit and the triangle filter, then `write_to` with the WebP
/// format. Believed without proof: the outcome is `resized_webp_encoding`
/// of the bytes and the width.
#[verifier::external_body]
fn resized_webp_of(bytes: &[u8], width: u32) -> (r: Result<Vec<u8>, String>)
    ensures
        outcome_view(r) == resized_webp_encoding(bytes@, width),
{
    let img = match image::load_from_memory(bytes) {
        Ok(img) => img,
        Err(e) => return Err(e.to_string()),
    };
    let resized = img.resize(width, u32::MAX, image::imageops::FilterType::Triangle);
    let mut buffer = std::io::Cursor::new(Vec::new());
    match resized.write_to(&mut buffer, image::ImageFormat::WebP) {
        Ok(()) => Ok(buffer.into_inner()),
        Err(e) => Err(e.to_string()),
    }
}

/// `r` is the encoder's outcome `enc`, its error text behind `prefix`.
pub open spec fn encoded_as(r: Result<Vec<u8>, String>, enc: Result<Seq<u8>, Seq<char>>, prefix: Seq<char>) -> bool {
    match enc {
        Ok(b) => r matches Ok(v) && v@ == b,
        Err(m) => r matches Err(e) && e@ == prefix + m,
    }
}

fn encoded_with_prefix(enc: Result<Vec<u8>, String>, prefix: &str) -> (r: Result<Vec<u8>, String>)
    ensures
        encoded_as(r, outcome_view(enc), prefix@),
{
    match enc {
        Ok(bytes) => Ok(bytes),
        Err(m) => Err(prefixed(prefix, m.as_str())),
    }
}

fn prefixed(prefix: &str, rest: &str) -> (r: String)
    ensures
        r@ == prefix@ + rest@,
{
    let mut s = prefix.to_string();
    s.append(rest);
    s
}

/// Converts an uploaded image to WebP, scaled down to `max_width` pixels
/// across when it is wider. An image that does not decode is refused with
/// `Invalid or corrupted image data: ` and the decoder's text; an encoding
/// failure with `WebP encoding failed: ` and the encoder's text.
pub fn convert_to_webp(image_data: &[u8], max_width: u32) -> (r: Result<Vec<u8>, String>)
    ensures
        match rgb_decoding(image_data@) {
            Err(m) => r matches Err(e) && e@ == "Invalid or corrupted image data: "@ + m,
            Ok((width, _, _)) => encoded_as(
                r,
                if width > max_width {
                    resized_webp_encoding(image_data@, max_width)
                } else {
                    webp_encoding(image_data@)
                },
                "WebP encoding failed: "@,
            ),
        },
{
    let width = match decoded_width(image_data) {
        Ok(w) => w,
        Err(m) => return Err(prefixed("Invalid or corrupted image data: ", m.as_str())),
    };
    let encoded = if width > max_width {
        resized_webp_of(image_data, max_width)
    } else {
        webp_of(image_data)
    };
    encoded_with_prefix(encoded, "WebP encoding failed: ")
}

/// A thumbnail of an uploaded image: scaled to `width` pixels across and
/// encoded as WebP. An image that does not decode is refused with
/// `Invalid image: ` and the decoder's text; an encoding failure with
/// `Thumbnail generation failed: ` and the encoder's text.
pub fn thumbnail_webp(image_data: &[u8], width: u32) -> (r: Result<Vec<u8>, String>)
    ensures
        match rgb_decoding(image_data@) {
            Err(m) => r matches Err(e) && e@ == "Invalid image: "@ + m,
            Ok(_) => encoded_as(
                r,
                resized_webp_encoding(image_data@, width),
                "Thumbnail generation failed: "@,
            ),
        },
{
    match decoded_width(image_data) {
        Ok(_) => {},
        Err(m) => return Err(prefixed("Invalid image: ", m.as_str())),
    }
    encoded_with_prefix(resized_webp_of(image_data, width), "Thumbnail generation failed: ")
}

// ---------------------------------------------------------------------
// Colours
// ---------------------------------------------------------------------

/// The upper-case hexadecimal digit of a value below 16.
pub open spec fn hex_upper_digit(n: nat) -> char {
    if n < 10 {
        ((n + 48) as u8) as char
    } else {
        ((n + 55) as u8) as char
    }
}

/// A colour as `#RRGGBB` in upper-case hexadecimal.
pub open spec fn color_hex(c: (u8, u8, u8)) -> Seq<char> {
    seq![
        '#',
        hex_upper_digit(c.0 as nat / 16),
        hex_upper_digit(c.0 as nat % 16),
        hex_upper_digit(c.1 as nat / 16),
        hex_upper_digit(c.1 as nat % 16),
        hex_upper_digit(c.2 as nat / 16),
        hex_upper_digit(c.2 as nat % 16),
    ]
}

fn hex_upper_digit_exec(n: u8) -> (c: char)
    requires
        n < 16,
    ensures
        c == hex_upper_digit(n as nat),
{
    if n < 10 {
        ((n + 48) as u8) as char
    } else {
        ((n + 55) as u8) as char
    }
}

/// A colour as `#RRGGBB`.
pub fn format_color(c: (u8, u8, u8)) -> (r: String)
    ensures
        r@ == color_hex(c),
{
    let mut s = String::new();
    crate::text::push_char(&mut s, '#');
    crate::text::push_char(&mut s, hex_upper_digit_exec(c.0 / 16));
    crate::text::push_char(&mut s, hex_upper_digit_exec(c.0 % 16));
    crate::text::push_char(&mut s, hex_upper_digit_exec(c.1 / 16));
    crate::text::push_char(&mut s, hex_upper_digit_exec(c.1 % 16));
    crate::text::push_char(&mut s, hex_upper_digit_exec(c.2 / 16));
    crate::text::push_char(&mut s, hex_upper_digit_exec(c.2 % 16));
    proof {
        assert(s@ =~= color_hex(c));
    }
    s
}

/// The colour of pixel `i` of an RGB buffer.
pub open spec fn rgb_at(data: Seq<u8>, i: int) -> (u8, u8, u8) {
    (data[3 * i], data[3 * i + 1], data[3 * i + 2])
}

proof fn lemma_grid_index(x: int, y: int, w: int, h: int)
    requires
        0 <= x < w,
        0 <= y < h,
    ensures
        0 <= y * w + x < w * h,
        3 * (y * w + x) + 2 < 3 * (w * h),
{
    assert(y * w + x < w * h) by (nonlinear_arith)
        requires
            0 <= x < w,
            0 <= y < h,
    ;
    assert(0 <= y * w) by (nonlinear_arith)
        requires
            0 <= y,
            0 <= w,
    ;
}

/// The pixel positions of row `y` from column `x` on, every `sx`-th
/// column.
pub open spec fn row_from(w: nat, sx: nat, y: nat, x: nat) -> Seq<int>
    decreases w + sx - x,
{
    if x >= w || sx == 0 {
        Seq::empty()
    } else {
        seq![(y * w + x) as int] + row_from(w, sx, y, x + sx)
    }
}

/// The pixel positions from row `y` on, every `sy`-th row and every
/// `sx`-th column, row by row.
pub open spec fn scan_from(w: nat, h: nat, sx: nat, sy: nat, y: nat) -> Seq<int>
    decreases h + sy - y,
{
    if y >= h || sy == 0 {
        Seq::empty()
    } else {
        row_from(w, sx, y, 0) + scan_from(w, h, sx, sy, y + sy)
    }
}

/// The positions sampled from a `w` by `h` image: every `sx`-th column of
/// every `sy`-th row, starting at the top left.
pub open spec fn sample_grid(w: nat, h: nat, sx: nat, sy: nat) -> Seq<int> {
    scan_from(w, h, sx, sy, 0)
}

/// The positions of the sampled pixels, row by row.
pub fn sample_positions(width: u32, height: u32, sx: u32, sy: u32) -> (r: Vec<usize>)
    requires
        sx > 0,
        sy > 0,
        width * height <= usize::MAX,
    ensures
        r@.len() == sample_grid(width as nat, height as nat, sx as nat, sy as nat).len(),
        forall|k: int|
            0 <= k < r@.len() ==> r@[k] as int == sample_grid(
                width as nat,
                height as nat,
                sx as nat,
                sy as nat,
            )[k] && (r@[k] as int) < width * height,
{
    let ghost w = width as nat;
    let ghost h = height as nat;
    let ghost total = sample_grid(w, h, sx as nat, sy as nat);
    let mut r: Vec<usize> = Vec::new();
    let mut y: u64 = 0;
    while y < height as u64
        invariant
            sx > 0,
            sy > 0,
            width * height <= usize::MAX,
            w == width,
            h == height,
            y <= height + sy,
            total == sample_grid(w, h, sx as nat, sy as nat),
            r@ .map_values(|p: usize| p as int) + scan_from(w, h, sx as nat, sy as nat, y as nat) == total,
            forall|k: int| 0 <= k < r@.len() ==> (r@[k] as int) < w * h,
        decreases height + sy - y,
    {
        let ghost next = scan_from(w, h, sx as nat, sy as nat, (y + sy) as nat);
        let ghost done = r@.map_values(|p: usize| p as int);
        proof {
            assert(scan_from(w, h, sx as nat, sy as nat, y as nat) == row_from(w, sx as nat, y as nat, 0) + next);
        }
        let mut x: u64 = 0;
        while x < width as u64
            invariant
                sx > 0,
                y < height,
                width * height <= usize::MAX,
                w == width,
                h == height,
                x <= width + sx,
                done + row_from(w, sx as nat, y as nat, 0) == r@.map_values(|p: usize| p as int) + row_from(w, sx as nat, y as nat, x as nat),
                forall|k: int| 0 <= k < r@.len() ==> (r@[k] as int) < w * h,
            decreases width + sx - x,
        {
            let ghost before = r@;
            proof {
                assert(row_from(w, sx as nat, y as nat, x as nat) == seq![(y * w + x) as int] + row_from(w, sx as nat, y as nat, (x + sx) as nat));
                lemma_grid_index(x as int, y as int, w as int, h as int);
            }
            let idx: usize = (y as usize) * (width as usize) + (x as usize);
            r.push(idx);
            proof {
                assert(r@.map_values(|p: usize| p as int) =~= before.map_values(|p: usize| p as int).push((y * w + x) as int));
                assert(seq![(y * w + x) as int] + row_from(w, sx as nat, y as nat, (x + sx) as nat) =~= seq![(y * w + x) as int].add(row_from(w, sx as nat, y as nat, (x + sx) as nat)));
                assert(before.map_values(|p: usize| p as int).push((y * w + x) as int) + row_from(w, sx as nat, y as nat, (x + sx) as nat)
                    =~= before.map_values(|p: usize| p as int) + (seq![(y * w + x) as int] + row_from(w, sx as nat, y as nat, (x + sx) as nat)));
            }
            x = x + sx as u64;
        }
        proof {
            assert(row_from(w, sx as nat, y as nat, x as nat) == Seq::<int>::empty());
            assert(r@.map_values(|p: usize| p as int) =~= done + row_from(w, sx as nat, y as nat, 0));
            assert(done + (row_from(w, sx as nat, y as nat, 0) + next) =~= (done + row_from(w, sx as nat, y as nat, 0)) + next);
        }
        y = y + sy as u64;
    }
    proof {
        assert(scan_from(w, h, sx as nat, sy as nat, y as nat) == Seq::<int>::empty());
        assert(r@.map_values(|p: usize| p as int) =~= total);
        assert forall|k: int| 0 <= k < r@.len() implies r@[k] as int == total[k] by {
            assert(r@.map_values(|p: usize| p as int)[k] == r@[k] as int);
        }
    }
    r
}

// ---------------------------------------------------------------------
// Palettes
// ---------------------------------------------------------------------

/// The colours of an RGB buffer at the given positions.
pub open spec fn colors_at(data: Seq<u8>, positions: Seq<int>) -> Seq<(u8, u8, u8)> {
    positions.map_values(|p: int| rgb_at(data, p))
}

/// A channel rounded down to a multiple of 32.
pub open spec fn quantize(v: u8) -> u8 {
    (v / 32 * 32) as u8
}

pub open spec fn quantize_color(c: (u8, u8, u8)) -> (u8, u8, u8) {
    (quantize(c.0), quantize(c.1), quantize(c.2))
}

/// `acc` followed by those colours of `cs` that are new, as long as fewer
/// than `limit` are kept, in the order they come.
pub open spec fn keep_distinct(cs: Seq<(u8, u8, u8)>, acc: Seq<(u8, u8, u8)>, limit: nat) -> Seq<(u8, u8, u8)>
    decreases cs.len(),
{
    if cs.len() == 0 {
        acc
    } else {
        let c = cs[0];
        let next = if !acc.contains(c) && acc.len() < limit {
            acc.push(c)
        } else {
            acc
        };
        keep_distinct(cs.drop_first(), next, limit)
    }
}

/// Counts per colour after one more `c`: an existing count grows, a new
/// colour is added last.
pub open spec fn count_color(t: Seq<((u8, u8, u8), u64)>, c: (u8, u8, u8)) -> Seq<((u8, u8, u8), u64)> {
    if exists|i: int| 0 <= i < t.len() && t[i].0 == c {
        let i = choose|i: int| 0 <= i < t.len() && t[i].0 == c;
        t.update(i, (c, t[i].1.saturating_add(1)))
    } else {
        t.push((c, 1))
    }
}

/// `t` with the colours of `cs` counted, in the order they come.
pub open spec fn tally(cs: Seq<(u8, u8, u8)>, t: Seq<((u8, u8, u8), u64)>) -> Seq<((u8, u8, u8), u64)>
    decreases cs.len(),
{
    if cs.len() == 0 {
        t
    } else {
        tally(cs.drop_first(), count_color(t, cs[0]))
    }
}

pub open spec fn colors_unique(t: Seq<((u8, u8, u8), u64)>) -> bool {
    forall|i: int, j: int| 0 <= i < j < t.len() ==> t[i].0 != t[j].0
}

fn same_color(a: (u8, u8, u8), b: (u8, u8, u8)) -> (r: bool)
    ensures
        r == (a == b),
{
    a.0 == b.0 && a.1 == b.1 && a.2 == b.2
}

fn count_color_exec(t: &mut Vec<((u8, u8, u8), u64)>, c: (u8, u8, u8))
    requires
        colors_unique(old(t)@),
    ensures
        final(t)@ == count_color(old(t)@, c),
        colors_unique(final(t)@),
{
    let mut i: usize = 0;
    while i < t.len()
        invariant
            i <= t.len(),
            t@ == old(t)@,
            colors_unique(t@),
            forall|j: int| 0 <= j < i ==> t@[j].0 != c,
        decreases t.len() - i,
    {
        if same_color(t[i].0, c) {
            let n = t[i].1;
            t.set(i, (c, n.saturating_add(1)));
            proof {
                let o = old(t)@;
                assert(o[i as int].0 == c);
                let w = choose|j: int| 0 <= j < o.len() && o[j].0 == c;
                assert(w == i as int);
            }
            return;
        }
        i = i + 1;
    }
    t.push((c, 1));
}

/// The colours of the sampled pixels.
fn sampled_colors(p: &Pixels, positions: &Vec<usize>, quantized: bool) -> (r: Vec<(u8, u8, u8)>)
    requires
        p.data@.len() == 3 * p.width * p.height,
        forall|k: int| 0 <= k < positions@.len() ==> (positions@[k] as int) < p.width * p.height,
    ensures
        r@.len() == positions@.len(),
        forall|k: int|
            0 <= k < r@.len() ==> r@[k] == (if quantized {
                quantize_color(rgb_at(p.data@, positions@[k] as int))
            } else {
                rgb_at(p.data@, positions@[k] as int)
            }),
{
    let mut r: Vec<(u8, u8, u8)> = Vec::new();
    let n = p.data.len();
    proof {
        assert(3 * p.width * p.height == 3 * (p.width * p.height)) by (nonlinear_arith);
    }
    let mut k: usize = 0;
    while k < positions.len()
        invariant
            k <= positions.len(),
            n == p.data@.len(),
            p.data@.len() == 3 * (p.width * p.height),
            p.data@.len() == 3 * p.width * p.height,
            forall|j: int| 0 <= j < positions@.len() ==> (positions@[j] as int) < p.width * p.height,
            r@.len() == k,
            forall|j: int|
                0 <= j < k ==> r@[j] == (if quantized {
                    quantize_color(rgb_at(p.data@, positions@[j] as int))
                } else {
                    rgb_at(p.data@, positions@[j] as int)
                }),
        decreases positions.len() - k,
    {
        let i = positions[k];
        proof {
            assert((i as int) < p.width * p.height);
            assert(3 * i + 2 < n);
        }
        let base = 3 * i;
        let c = (p.data[base], p.data[base + 1], p.data[base + 2]);
        if quantized {
            r.push((c.0 / 32 * 32, c.1 / 32 * 32, c.2 / 32 * 32));
        } else {
            r.push(c);
        }
        k = k + 1;
    }
    r
}

/// `names` are the five most frequent colours of a `w` by `h` RGB image,
/// sampled every tenth pixel of every tenth row and rounded down to
/// multiples of 32, as `#RRGGBB`, most frequent first (colours seen equally
/// often in either order).
pub open spec fn is_palette(names: Seq<String>, w: u32, h: u32, data: Seq<u8>) -> bool {
    exists|ranked: Seq<((u8, u8, u8), u64)>|
        crate::stats::counts_descending(ranked) && ranked.to_multiset() == tally(
            colors_at(data, sample_grid(w as nat, h as nat, 10, 10)).map_values(
                |c: (u8, u8, u8)| quantize_color(c),
            ),
            Seq::empty(),
        ).to_multiset() && names.len() == (if ranked.len() < 5 { ranked.len() } else { 5 })
            && forall|i: int| 0 <= i < names.len() ==> #[trigger] names[i]@ == color_hex(ranked[i].0)
}

/// The five most frequent colours of a decoded image, sampled every tenth
/// pixel of every tenth row and rounded down to multiples of 32, as
/// `#RRGGBB`, most frequent first (colours seen equally often in either
/// order).
pub fn palette_of(p: &Pixels) -> (r: Vec<String>)
    requires
        p.data@.len() == 3 * p.width * p.height,
    ensures
        is_palette(r@, p.width, p.height, p.data@),
{
    let len = p.data.len();
    proof {
        assert(p.width * p.height <= usize::MAX) by (nonlinear_arith)
            requires
                p.data@.len() == 3 * p.width * p.height,
                p.data@.len() == len,
                len <= usize::MAX,
        ;
    }
    let positions = sample_positions(p.width, p.height, 10, 10);
    let colors = sampled_colors(p, &positions, true);
    let ghost cs = colors_at(p.data@, sample_grid(p.width as nat, p.height as nat, 10, 10)).map_values(
        |c: (u8, u8, u8)| quantize_color(c),
    );
    proof {
        assert(colors@ =~= cs);
        assert(cs.subrange(0, cs.len() as int) =~= cs);
    }
    let mut counts: Vec<((u8, u8, u8), u64)> = Vec::new();
    let mut k: usize = 0;
    while k < colors.len()
        invariant
            k <= colors.len(),
            colors@ == cs,
            colors_unique(counts@),
            tally(cs, Seq::empty()) == tally(cs.subrange(k as int, cs.len() as int), counts@),
        decreases colors.len() - k,
    {
        proof {
            let rest = cs.subrange(k as int, cs.len() as int);
            assert(rest.drop_first() =~= cs.subrange(k + 1, cs.len() as int));
            assert(rest[0] == colors@[k as int]);
        }
        count_color_exec(&mut counts, colors[k]);
        k = k + 1;
    }
    proof {
        assert(cs.subrange(0, cs.len() as int) =~= cs);
        assert(cs.subrange(k as int, cs.len() as int) =~= Seq::<(u8, u8, u8)>::empty());
    }
    let ranked = crate::stats::rank_by_count(&counts);
    let mut r: Vec<String> = Vec::new();
    let mut i: usize = 0;
    while i < ranked.len() && i < 5
        invariant
            i <= ranked.len(),
            i <= 5,
            r@.len() == i,
            forall|j: int| 0 <= j < i ==> #[trigger] r@[j]@ == color_hex(ranked@[j].0),
        decreases ranked.len() - i,
    {
        r.push(format_color(ranked[i].0));
        i = i + 1;
    }
    proof {
        assert(crate::stats::counts_descending(ranked@) && ranked@.to_multiset() == tally(cs, Seq::empty()).to_multiset());
    }
    r
}

/// The first five different colours met when sampling a decoded image on a
/// ten by ten grid (every tenth of the width, every tenth of the height),
/// as `#RRGGBB`, in the order met.
pub fn dominant_colors_of(p: &Pixels) -> (r: Vec<String>)
    requires
        p.data@.len() == 3 * p.width * p.height,
        p.width >= 10,
        p.height >= 10,
    ensures
        ({
            let kept = keep_distinct(
                colors_at(
                    p.data@,
                    sample_grid(p.width as nat, p.height as nat, (p.width / 10) as nat, (p.height / 10) as nat),
                ),
                Seq::empty(),
                5,
            );
            r@.len() == kept.len() && forall|i: int| 0 <= i < r@.len() ==> #[trigger] r@[i]@ == color_hex(kept[i])
        }),
{
    let len = p.data.len();
    proof {
        assert(p.width * p.height <= usize::MAX) by (nonlinear_arith)
            requires
                p.data@.len() == 3 * p.width * p.height,
                p.data@.len() == len,
                len <= usize::MAX,
        ;
    }
    let positions = sample_positions(p.width, p.height, p.width / 10, p.height / 10);
    let colors = sampled_colors(p, &positions, false);
    let ghost cs = colors_at(
        p.data@,
        sample_grid(p.width as nat, p.height as nat, (p.width / 10) as nat, (p.height / 10) as nat),
    );
    proof {
        assert(colors@ =~= cs);
        assert(cs.subrange(0, cs.len() as int) =~= cs);
    }
    let mut kept: Vec<(u8, u8, u8)> = Vec::new();
    let mut k: usize = 0;
    while k < colors.len()
        invariant
            k <= colors.len(),
            colors@ == cs,
            kept@.len() <= 5,
            keep_distinct(cs, Seq::empty(), 5) == keep_distinct(cs.subrange(k as int, cs.len() as int), kept@, 5),
        decreases colors.len() - k,
    {
        proof {
            let rest = cs.subrange(k as int, cs.len() as int);
            assert(rest.drop_first() =~= cs.subrange(k + 1, cs.len() as int));
            assert(rest[0] == colors@[k as int]);
        }
        let c = colors[k];
        let mut seen = false;
        let mut j: usize = 0;
        while j < kept.len()
            invariant
                j <= kept.len(),
                seen == kept@.subrange(0, j as int).contains(c),
            decreases kept.len() - j,
        {
            if same_color(kept[j], c) {
                seen = true;
            }
            proof {
                let s1 = kept@.subrange(0, j + 1);
                assert(s1 =~= kept@.subrange(0, j as int).push(kept@[j as int]));
                if kept@.subrange(0, j as int).contains(c) {
                    let m = choose|m: int| 0 <= m < j && kept@.subrange(0, j as int)[m] == c;
                    assert(s1[m] == c);
                }
                if kept@[j as int] == c {
                    assert(s1[j as int] == c);
                }
                if s1.contains(c) {
                    let m = choose|m: int| 0 <= m <= j && s1[m] == c;
                    if m < j {
                        assert(kept@.subrange(0, j as int)[m] == c);
                    }
                }
            }
            j = j + 1;
        }
        proof {
            assert(kept@.subrange(0, kept@.len() as int) =~= kept@);
        }
        if !seen && kept.len() < 5 {
            kept.push(c);
        }
        k = k + 1;
    }
    proof {
        assert(cs.subrange(k as int, cs.len() as int) =~= Seq::<(u8, u8, u8)>::empty());
    }
    let mut r: Vec<String> = Vec::new();
    let mut i: usize = 0;
    while i < kept.len()
        invariant
            i <= kept.len(),
            r@.len() == i,
            forall|j: int| 0 <= j < i ==> #[trigger] r@[j]@ == color_hex(kept@[j]),
        decreases kept.len() - i,
    {
        r.push(format_color(kept[i]));
        i = i + 1;
    }
    r
}

/// The colours `names` (as `#RRGGBB`) are the first five different colours
/// met when sampling a `w` by `h` RGB image on a ten by ten grid, in the
/// order met.
pub open spec fn is_dominant_colors(names: Seq<String>, w: u32, h: u32, data: Seq<u8>) -> bool {
    let kept = keep_distinct(
        colors_at(data, sample_grid(w as nat, h as nat, (w / 10) as nat, (h / 10) as nat)),
        Seq::empty(),
        5,
    );
    names.len() == kept.len() && forall|i: int| 0 <= i < names.len() ==> #[trigger] names[i]@ == color_hex(kept[i])
}

/// The palette of an encoded image: decoded as RGB, then `palette_of`.
/// When the image does not decode, the decoder's error text.
pub fn extract_palette(image_data: &[u8]) -> (r: Result<Vec<String>, String>)
    ensures
        match rgb_decoding(image_data@) {
            Err(m) => r matches Err(e) && e@ == m,
            Ok((w, h, d)) => r matches Ok(names) && is_palette(names@, w, h, d),
        },
{
    match decode_rgb(image_data) {
        Ok(p) => Ok(palette_of(&p)),
        Err(e) => Err(e),
    }
}

/// The message when an image is too small to sample on a ten by ten grid.
pub open spec fn too_small_message() -> Seq<char> {
    "image is smaller than ten pixels across or down"@
}

/// The dominant colours of an encoded image: decoded as RGB, then
/// `dominant_colors_of`. An image that does not decode gives the decoder's
/// error text; one narrower or lower than ten pixels cannot be sampled and
/// gives `too_small_message`.
pub fn extract_dominant_colors(image_data: &[u8]) -> (r: Result<Vec<String>, String>)
    ensures
        match rgb_decoding(image_data@) {
            Err(m) => r matches Err(e) && e@ == m,
            Ok((w, h, d)) => if w >= 10 && h >= 10 {
                r matches Ok(names) && is_dominant_colors(names@, w, h, d)
            } else {
                r matches Err(e) && e@ == too_small_message()
            },
        },
{
    match decode_rgb(image_data) {
        Ok(p) => {
            if p.width >= 10 && p.height >= 10 {
                Ok(dominant_colors_of(&p))
            } else {
                Err(String::from_str("image is smaller than ten pixels across or down"))
            }
        },
        Err(e) => Err(e),
    }
}

// ---------------------------------------------------------------------
// Edges and brightness
// ---------------------------------------------------------------------

/// The grey level at column `x` of row `y`.
pub open spec fn luma_at(d: Seq<u8>, w: nat, x: int, y: int) -> int {
    d[y * w + x] as int
}

pub open spec fn abs_diff(a: int, b: int) -> int {
    if a >= b {
        a - b
    } else {
        b - a
    }
}

/// A pixel lies on an edge when it differs from its four neighbours by
/// more than 30 grey levels on average (rounded down).
pub open spec fn is_edge(d: Seq<u8>, w: nat, x: int, y: int) -> bool {
    let c = luma_at(d, w, x, y);
    (abs_diff(c, luma_at(d, w, x - 1, y)) + abs_diff(c, luma_at(d, w, x + 1, y)) + abs_diff(
        c,
        luma_at(d, w, x, y - 1),
    ) + abs_diff(c, luma_at(d, w, x, y + 1))) / 4 > 30
}

/// Edge pixels of row `y` from column `x` to the second-to-last column.
pub open spec fn row_edges(d: Seq<u8>, w: nat, y: int, x: int) -> nat
    decreases w - x,
{
    if x + 1 >= w {
        0
    } else {
        (if is_edge(d, w, x, y) {
            1nat
        } else {
            0nat
        }) + row_edges(d, w, y, x + 1)
    }
}

/// Edge pixels of the rows from `y` to the second-to-last row, leaving
/// out the outer columns.
pub open spec fn edges_from(d: Seq<u8>, w: nat, h: nat, y: int) -> nat
    decreases h - y,
{
    if y + 1 >= h {
        0
    } else {
        row_edges(d, w, y, 1) + edges_from(d, w, h, y + 1)
    }
}

proof fn lemma_row_edges_bound(d: Seq<u8>, w: nat, y: int, x: int)
    requires
        1 <= x,
    ensures
        row_edges(d, w, y, x) <= (if x <= w { w - x } else { 0 }),
    decreases w - x,
{
    if x + 1 < w {
        lemma_row_edges_bound(d, w, y, x + 1);
    }
}

proof fn lemma_edges_bound(d: Seq<u8>, w: nat, h: nat, y: int)
    requires
        1 <= y <= h,
    ensures
        edges_from(d, w, h, y) <= (h - y) * w,
    decreases h - y,
{
    if y + 1 < h {
        lemma_edges_bound(d, w, h, y + 1);
        lemma_row_edges_bound(d, w, y, 1);
        assert((h - y - 1) * w + w == (h - y) * w) by (nonlinear_arith);
    } else {
        assert(0 <= (h - y) * w) by (nonlinear_arith)
            requires
                y <= h,
        ;
    }
}

fn gray_at(p: &Pixels, x: u32, y: u32) -> (r: i32)
    requires
        p.data@.len() == p.width * p.height,
        x < p.width,
        y < p.height,
    ensures
        r == luma_at(p.data@, p.width as nat, x as int, y as int),
{
    let n = p.data.len();
    proof {
        lemma_grid_index(x as int, y as int, p.width as int, p.height as int);
    }
    let i: usize = (y as usize) * (p.width as usize) + (x as usize);
    p.data[i] as i32
}

fn abs_i32(v: i32) -> (r: i32)
    requires
        -1000 <= v <= 1000,
    ensures
        r == (if v >= 0 { v as int } else { -v }),
{
    if v >= 0 {
        v
    } else {
        -v
    }
}

/// The number of edge pixels of a grey image, leaving out the border.
pub fn count_edges(p: &Pixels) -> (r: u64)
    requires
        p.data@.len() == p.width * p.height,
    ensures
        r == edges_from(p.data@, p.width as nat, p.height as nat, 1),
{
    let ghost d = p.data@;
    let ghost w = p.width as nat;
    let ghost h = p.height as nat;
    let n = p.data.len();
    proof {
        if h >= 1 {
            lemma_edges_bound(d, w, h, 1);
            assert((h - 1) * w <= h * w) by (nonlinear_arith)
                requires
                    h >= 1,
            ;
        }
    }
    let mut total: u64 = 0;
    let mut y: u32 = 1;
    while (y as u64) + 1 < p.height as u64
        invariant
            d == p.data@,
            w == p.width,
            h == p.height,
            p.data@.len() == p.width * p.height,
            1 <= y,
            n == p.data@.len(),
            total + edges_from(d, w, h, y as int) == edges_from(d, w, h, 1),
            (y as int) + 1 < h ==> edges_from(d, w, h, 1) <= n,
        decreases p.height - y,
    {
        let mut row: u64 = 0;
        let mut x: u32 = 1;
        while (x as u64) + 1 < p.width as u64
            invariant
                d == p.data@,
                w == p.width,
                h == p.height,
                p.data@.len() == p.width * p.height,
                1 <= y,
                y + 1 < h,
                1 <= x,
                row + row_edges(d, w, y as int, x as int) == row_edges(d, w, y as int, 1),
                row <= x,
            decreases p.width - x,
        {
            let c = gray_at(p, x, y);
            let left = gray_at(p, x - 1, y);
            let right = gray_at(p, x + 1, y);
            let top = gray_at(p, x, y - 1);
            let bottom = gray_at(p, x, y + 1);
            let gradient = (abs_i32(c - left) + abs_i32(c - right) + abs_i32(c - top) + abs_i32(
                c - bottom,
            )) / 4;
            if gradient > 30 {
                row = row + 1;
            }
            x = x + 1;
        }
        proof {
            assert(row == row_edges(d, w, y as int, 1));
            assert(edges_from(d, w, h, y as int) == row_edges(d, w, y as int, 1) + edges_from(d, w, h, y + 1));
        }
        total = total + row;
        y = y + 1;
    }
    total
}

/// The sum of channel `ch` (0 red, 1 green, 2 blue) of an RGB buffer over
/// the given pixel positions.
pub open spec fn channel_sum(d: Seq<u8>, ps: Seq<int>, ch: int) -> nat
    decreases ps.len(),
{
    if ps.len() == 0 {
        0
    } else {
        channel_sum(d, ps.drop_last(), ch) + d[3 * ps.last() + ch] as nat
    }
}

proof fn lemma_channel_sum_bound(d: Seq<u8>, ps: Seq<int>, ch: int)
    ensures
        channel_sum(d, ps, ch) <= 255 * ps.len(),
    decreases ps.len(),
{
    if ps.len() > 0 {
        lemma_channel_sum_bound(d, ps.drop_last(), ch);
    }
}

/// Channel sums over sampled pixels.
#[derive(Debug, Clone, Copy, PartialEq, Eq, Structural)]
pub struct ColorSums {
    pub red: u128,
    pub green: u128,
    pub blue: u128,
    pub samples: u64,
}

/// The channel sums of an RGB image over every fifth pixel of every fifth
/// row, and how many pixels that is.
pub fn color_sums(p: &Pixels) -> (r: ColorSums)
    requires
        p.data@.len() == 3 * p.width * p.height,
    ensures
        ({
            let ps = sample_grid(p.width as nat, p.height as nat, 5, 5);
            &&& r.samples == ps.len()
            &&& r.red == channel_sum(p.data@, ps, 0)
            &&& r.green == channel_sum(p.data@, ps, 1)
            &&& r.blue == channel_sum(p.data@, ps, 2)
        }),
{
    let len = p.data.len();
    proof {
        assert(p.width * p.height <= usize::MAX) by (nonlinear_arith)
            requires
                p.data@.len() == 3 * p.width * p.height,
                p.data@.len() == len,
                len <= usize::MAX,
        ;
        assert(3 * p.width * p.height == 3 * (p.width * p.height)) by (nonlinear_arith);
    }
    let positions = sample_positions(p.width, p.height, 5, 5);
    let ghost ps = sample_grid(p.width as nat, p.height as nat, 5, 5);
    let mut red: u128 = 0;
    let mut green: u128 = 0;
    let mut blue: u128 = 0;
    let mut k: usize = 0;
    while k < positions.len()
        invariant
            k <= positions.len(),
            len == p.data@.len(),
            p.data@.len() == 3 * (p.width * p.height),
            positions@.len() == ps.len(),
            forall|j: int|
                0 <= j < positions@.len() ==> #[trigger] positions@[j] as int == ps[j] && (
                positions@[j] as int) < p.width * p.height,
            red == channel_sum(p.data@, ps.subrange(0, k as int), 0),
            green == channel_sum(p.data@, ps.subrange(0, k as int), 1),
            blue == channel_sum(p.data@, ps.subrange(0, k as int), 2),
        decreases positions.len() - k,
    {
        let i = positions[k];
        proof {
            assert(positions@[k as int] == i);
            assert((i as int) < p.width * p.height);
            assert(3 * i + 2 < len);
            let pre = ps.subrange(0, k + 1);
            assert(pre.drop_last() =~= ps.subrange(0, k as int));
            assert(pre.last() == i as int);
            lemma_channel_sum_bound(p.data@, pre, 0);
            lemma_channel_sum_bound(p.data@, pre, 1);
            lemma_channel_sum_bound(p.data@, pre, 2);
            assert(255 * pre.len() <= 255 * 0x1_0000_0000_0000_0000u128);
        }
        red = red + p.data[3 * i] as u128;
        green = green + p.data[3 * i + 1] as u128;
        blue = blue + p.data[3 * i + 2] as u128;
        k = k + 1;
    }
    proof {
        assert(ps.subrange(0, ps.len() as int) =~= ps);
    }
    ColorSums { red, green, blue, samples: positions.len() as u64 }
}

/// What the style of a lettering is judged by: the image's size, its edge
/// pixels, and the colour sums of a sample.
#[derive(Debug, Clone, Copy, PartialEq, Eq, Structural)]
pub struct StyleFeatures {
    pub width: u32,
    pub height: u32,
    pub edge_count: u64,
    pub sums: ColorSums,
}

/// The style features of an encoded image: edges of its grey levels and
/// colour sums of its RGB pixels. When a decoding fails, its error text.
pub fn style_features(image_data: &[u8]) -> (r: Result<StyleFeatures, String>)
    ensures
        match luma_decoding(image_data@) {
            Err(m) => r matches Err(e) && e@ == m,
            Ok((w, h, d)) => match rgb_decoding(image_data@) {
                Err(_) => false,
                Ok((w2, h2, d2)) => w2 == w && h2 == h && (r matches Ok(f) && f.width == w
                    && f.height == h && f.edge_count == edges_from(d, w as nat, h as nat, 1) && ({
                    let ps = sample_grid(w as nat, h as nat, 5, 5);
                    &&& f.sums.samples == ps.len()
                    &&& f.sums.red == channel_sum(d2, ps, 0)
                    &&& f.sums.green == channel_sum(d2, ps, 1)
                    &&& f.sums.blue == channel_sum(d2, ps, 2)
                })),
            },
        },
{
    let gray = match decode_luma(image_data) {
        Ok(g) => g,
        Err(e) => return Err(e),
    };
    let edge_count = count_edges(&gray);
    let rgb = match decode_rgb(image_data) {
        Ok(c) => c,
        Err(e) => return Err(e),
    };
    let sums = color_sums(&rgb);
    Ok(StyleFeatures { width: gray.width, height: gray.height, edge_count, sums })
}
} // verus!
