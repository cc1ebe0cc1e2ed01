//! The app's icon, drawn in code.
//!
//! A monitor whose screen is split between two colours: one screen, two
//! sources. Drawn at whatever size is asked for, so it stays sharp at any
//! display scaling, and packed into the file formats that Windows and Linux
//! desktops keep icons in.
//!
//! The drawing is exact. A picture of `size` pixels has `4 * size` samples
//! along each side, and every sample and every edge of the drawing lies on a
//! grid of `800 * size` units, so no coordinate is ever rounded.

use vstd::prelude::*;

use crate::png::{encode, png, stream_len, CHUNK_LIMIT};

verus! {

// ---------------------------------------------------------------------------
// The drawing
// ---------------------------------------------------------------------------

/// A colour of the drawing.
#[derive(Debug, Clone, Copy, PartialEq, Eq, Structural)]
pub enum Paint {
    Blue,
    Amber,
    Grey,
}

pub open spec fn paint_red(p: Paint) -> int {
    match p {
        Paint::Blue => 0x3B,
        Paint::Amber => 0xF5,
        Paint::Grey => 0x9C,
    }
}

pub open spec fn paint_green(p: Paint) -> int {
    match p {
        Paint::Blue => 0x82,
        Paint::Amber => 0x9E,
        Paint::Grey => 0xA3,
    }
}

pub open spec fn paint_blue(p: Paint) -> int {
    match p {
        Paint::Blue => 0xF6,
        Paint::Amber => 0x0B,
        Paint::Grey => 0xAF,
    }
}

impl Paint {
    /// Red, green and blue.
    pub fn rgb(self) -> (r: [u8; 3])
        ensures
            r@ == seq![
                paint_red(self) as u8,
                paint_green(self) as u8,
                paint_blue(self) as u8,
            ],
    {
        match self {
            Paint::Blue => [0x3B, 0x82, 0xF6],
            Paint::Amber => [0xF5, 0x9E, 0x0B],
            Paint::Grey => [0x9C, 0xA3, 0xAF],
        }
    }
}

/// `n` hundredths of the side of a picture of `size` pixels, in grid units.
#[verifier::inline]
pub open spec fn hundredths(n: int, size: int) -> int {
    n * (8 * size)
}

/// The middle of sample `i` along a side, in grid units.
pub open spec fn sample_place(i: int) -> int {
    100 * (2 * i + 1)
}

pub open spec fn clamped(v: int, low: int, high: int) -> int {
    if v < low {
        low
    } else if v > high {
        high
    } else {
        v
    }
}

/// Whether a point lies in a rectangle whose corners are rounded with the
/// radius `radius`.
pub open spec fn in_rounded(
    x: int,
    y: int,
    left: int,
    top: int,
    right: int,
    bottom: int,
    radius: int,
) -> bool {
    let dx = x - clamped(x, left + radius, right - radius);
    let dy = y - clamped(y, top + radius, bottom - radius);
    &&& left <= x <= right
    &&& top <= y <= bottom
    &&& dx * dx + dy * dy <= radius * radius
}

/// The colour at a point of a picture of `size` pixels, if anything is drawn
/// there: the screen, its left half blue and its right half amber, then the
/// neck and the foot of the stand.
pub open spec fn shade_at(x: int, y: int, size: int) -> Option<Paint> {
    if in_rounded(
        x,
        y,
        hundredths(4, size),
        hundredths(10, size),
        hundredths(96, size),
        hundredths(70, size),
        hundredths(9, size),
    ) {
        if x < hundredths(50, size) {
            Some(Paint::Blue)
        } else {
            Some(Paint::Amber)
        }
    } else if hundredths(44, size) <= x < hundredths(56, size) && hundredths(70, size) <= y
        < hundredths(84, size) {
        Some(Paint::Grey)
    } else if in_rounded(
        x,
        y,
        hundredths(26, size),
        hundredths(82, size),
        hundredths(74, size),
        hundredths(93, size),
        hundredths(5, size),
    ) {
        Some(Paint::Grey)
    } else {
        None
    }
}

fn is_in_rounded(
    x: i64,
    y: i64,
    left: i64,
    top: i64,
    right: i64,
    bottom: i64,
    radius: i64,
) -> (r: bool)
    requires
        0 <= left <= right <= 0x1000_0000,
        0 <= top <= bottom <= 0x1000_0000,
        0 <= radius <= 0x1000_0000,
        left + radius <= right - radius,
        top + radius <= bottom - radius,
    ensures
        r == in_rounded(
            x as int,
            y as int,
            left as int,
            top as int,
            right as int,
            bottom as int,
            radius as int,
        ),
{
    if x < left || x > right || y < top || y > bottom {
        return false;
    }
    let cx: i64 = if x < left + radius {
        left + radius
    } else if x > right - radius {
        right - radius
    } else {
        x
    };
    let cy: i64 = if y < top + radius {
        top + radius
    } else if y > bottom - radius {
        bottom - radius
    } else {
        y
    };
    let dx: i64 = x - cx;
    let dy: i64 = y - cy;
    proof {
        lemma_square(dx as int);
        lemma_square(dy as int);
        lemma_square(radius as int);
    }
    dx * dx + dy * dy <= radius * radius
}

proof fn lemma_square(d: int)
    requires
        -0x1000_0000 <= d <= 0x1000_0000,
    ensures
        0 <= d * d <= 0x100_0000_0000_0000,
{
    assert(0 <= d * d <= 0x100_0000_0000_0000) by (nonlinear_arith)
        requires
            -0x1000_0000 <= d <= 0x1000_0000,
    ;
}

fn shade(x: i64, y: i64, size: u32) -> (r: Option<Paint>)
    requires
        size <= 0x7FFF,
    ensures
        r == shade_at(x as int, y as int, size as int),
{
    let unit: i64 = 8 * (size as i64);
    if is_in_rounded(x, y, 4 * unit, 10 * unit, 96 * unit, 70 * unit, 9 * unit) {
        if x < 50 * unit {
            Some(Paint::Blue)
        } else {
            Some(Paint::Amber)
        }
    } else if 44 * unit <= x && x < 56 * unit && 70 * unit <= y && y < 84 * unit {
        Some(Paint::Grey)
    } else if is_in_rounded(x, y, 26 * unit, 82 * unit, 74 * unit, 93 * unit, 5 * unit) {
        Some(Paint::Grey)
    } else {
        None
    }
}

// ---------------------------------------------------------------------------
// One pixel
// ---------------------------------------------------------------------------

/// Samples per pixel along each axis, for smooth edges.
pub const SUPERSAMPLE: u32 = 4;

/// What the samples of a pixel add up to.
pub struct Blend {
    pub covered: int,
    pub red: int,
    pub green: int,
    pub blue: int,
}

/// The sum with one more sample.
pub open spec fn with_sample(b: Blend, s: Option<Paint>) -> Blend {
    match s {
        None => b,
        Some(p) => Blend {
            covered: b.covered + 1,
            red: b.red + paint_red(p),
            green: b.green + paint_green(p),
            blue: b.blue + paint_blue(p),
        },
    }
}

/// The colour of sample `n` of the pixel at column `px` and row `py`, the
/// samples counted along the rows.
pub open spec fn sample_of(px: int, py: int, size: int, n: int) -> Option<Paint> {
    shade_at(sample_place(4 * px + n % 4), sample_place(4 * py + n / 4), size)
}

/// The sum of the first `n` samples of a pixel.
pub open spec fn blend_of(px: int, py: int, size: int, n: int) -> Blend
    decreases n,
{
    if n <= 0 {
        Blend { covered: 0, red: 0, green: 0, blue: 0 }
    } else {
        with_sample(blend_of(px, py, size, n - 1), sample_of(px, py, size, n - 1))
    }
}

/// `sum / count` to the nearest whole number, halves upwards.
pub open spec fn nearest(sum: int, count: int) -> int {
    (2 * sum + count) / (2 * count)
}

/// A pixel as red, green, blue and straight alpha: the mean colour of the
/// samples that are drawn on, and the share of them that are.
pub open spec fn pixel_of(px: int, py: int, size: int) -> Seq<u8> {
    let b = blend_of(px, py, size, 16);
    if b.covered == 0 {
        seq![0u8, 0u8, 0u8, 0u8]
    } else {
        seq![
            nearest(b.red, b.covered) as u8,
            nearest(b.green, b.covered) as u8,
            nearest(b.blue, b.covered) as u8,
            nearest(255 * b.covered, 16) as u8,
        ]
    }
}

proof fn lemma_blend_bounds(px: int, py: int, size: int, n: int)
    requires
        0 <= n <= 16,
    ensures
        0 <= blend_of(px, py, size, n).covered <= n,
        0 <= blend_of(px, py, size, n).red <= 255 * blend_of(px, py, size, n).covered,
        0 <= blend_of(px, py, size, n).green <= 255 * blend_of(px, py, size, n).covered,
        0 <= blend_of(px, py, size, n).blue <= 255 * blend_of(px, py, size, n).covered,
    decreases n,
{
    if n > 0 {
        lemma_blend_bounds(px, py, size, n - 1);
    }
}

fn round_share(sum: u32, count: u32) -> (r: u8)
    requires
        0 < count <= 16,
        sum <= 255 * count,
    ensures
        r == nearest(sum as int, count as int),
        r as int == nearest(sum as int, count as int),
{
    proof {
        let top: int = 2 * sum + count;
        let below: int = 2 * count as int;
        assert(0 <= top / below <= 255) by (nonlinear_arith)
            requires
                below > 0,
                0 <= top,
                top < 256 * below,
        ;
    }
    ((2 * sum + count) / (2 * count)) as u8
}

fn pixel(px: u32, py: u32, size: u32) -> (r: [u8; 4])
    requires
        px < size,
        py < size,
        size <= 0x7FFF,
    ensures
        r@ == pixel_of(px as int, py as int, size as int),
{
    let mut covered: u32 = 0;
    let mut red: u32 = 0;
    let mut green: u32 = 0;
    let mut blue: u32 = 0;
    let mut n: u32 = 0;
    while n < SUPERSAMPLE * SUPERSAMPLE
        invariant
            px < size,
            py < size,
            size <= 0x7FFF,
            n <= 16,
            (Blend { covered: covered as int, red: red as int, green: green as int, blue: blue as int })
                == blend_of(px as int, py as int, size as int, n as int),
        decreases 16 - n,
    {
        proof {
            lemma_blend_bounds(px as int, py as int, size as int, n as int);
        }
        let x: i64 = 100 * (2 * (4 * (px as i64) + (n % 4) as i64) + 1);
        let y: i64 = 100 * (2 * (4 * (py as i64) + (n / 4) as i64) + 1);
        if let Some(p) = shade(x, y, size) {
            let c = p.rgb();
            covered += 1;
            red += c[0] as u32;
            green += c[1] as u32;
            blue += c[2] as u32;
        }
        n += 1;
    }
    proof {
        lemma_blend_bounds(px as int, py as int, size as int, 16);
    }
    if covered == 0 {
        [0, 0, 0, 0]
    } else {
        [
            round_share(red, covered),
            round_share(green, covered),
            round_share(blue, covered),
            round_share(255 * covered, 16),
        ]
    }
}

// ---------------------------------------------------------------------------
// The picture
// ---------------------------------------------------------------------------

/// The first `n` pixels of row `py`.
pub open spec fn row_of(py: int, size: int, n: int) -> Seq<u8>
    decreases n,
{
    if n <= 0 {
        Seq::empty()
    } else {
        row_of(py, size, n - 1) + pixel_of(n - 1, py, size)
    }
}

/// The first `n` rows of the picture, top row first.
pub open spec fn rows_of(size: int, n: int) -> Seq<u8>
    decreases n,
{
    if n <= 0 {
        Seq::empty()
    } else {
        rows_of(size, n - 1) + row_of(n - 1, size, size)
    }
}

/// The picture: RGBA, row by row, top row first, straight alpha.
pub open spec fn picture(size: int) -> Seq<u8> {
    rows_of(size, size)
}

proof fn lemma_row(py: int, size: int, n: int, x: int)
    requires
        0 <= x < n,
    ensures
        row_of(py, size, n).len() == 4 * n,
        row_of(py, size, n).subrange(4 * x, 4 * x + 4) == pixel_of(x, py, size),
    decreases n,
{
    let front = row_of(py, size, n - 1);
    if n - 1 > 0 {
        lemma_row(py, size, n - 1, 0);
    }
    if x < n - 1 {
        lemma_row(py, size, n - 1, x);
        assert(row_of(py, size, n).subrange(4 * x, 4 * x + 4) =~= front.subrange(4 * x, 4 * x + 4));
    } else {
        assert(row_of(py, size, n).subrange(4 * x, 4 * x + 4) =~= pixel_of(x, py, size));
    }
}

proof fn lemma_row_len(py: int, size: int, n: int)
    requires
        0 <= n,
    ensures
        row_of(py, size, n).len() == 4 * n,
    decreases n,
{
    if n > 0 {
        lemma_row_len(py, size, n - 1);
    }
}

proof fn lemma_rows_len(size: int, n: int)
    requires
        0 <= n,
        0 <= size,
    ensures
        rows_of(size, n).len() == 4 * (n * size),
    decreases n,
{
    if n > 0 {
        lemma_rows_len(size, n - 1);
        lemma_row_len(n - 1, size, size);
        assert(n * size == (n - 1) * size + size) by (nonlinear_arith);
    } else {
        assert(n * size == 0) by (nonlinear_arith)
            requires
                n == 0,
        ;
    }
}

proof fn lemma_rows_row(size: int, n: int, y: int)
    requires
        0 <= y < n,
        0 <= size,
    ensures
        0 <= 4 * (y * size) <= 4 * (y * size) + 4 * size <= rows_of(size, n).len(),
        rows_of(size, n).subrange(4 * (y * size), 4 * (y * size) + 4 * size) == row_of(
            y,
            size,
            size,
        ),
    decreases n,
{
    lemma_rows_len(size, n);
    lemma_rows_len(size, n - 1);
    lemma_row_len(n - 1, size, size);
    let from = 4 * (y * size);
    assert(0 <= y * size && y * size + size <= n * size) by (nonlinear_arith)
        requires
            0 <= y < n,
            0 <= size,
    ;
    assert(n * size == (n - 1) * size + size) by (nonlinear_arith);
    if y < n - 1 {
        lemma_rows_row(size, n - 1, y);
        assert(rows_of(size, n).subrange(from, from + 4 * size) =~= rows_of(size, n - 1).subrange(
            from,
            from + 4 * size,
        ));
    } else {
        assert(rows_of(size, n).subrange(from, from + 4 * size) =~= row_of(y, size, size));
    }
}

/// The picture holds four bytes for every pixel, and the pixel at column `x`
/// and row `y`, counted from the top left corner, is where a reader that
/// counts row by row expects it.
pub proof fn law_pixels_are_row_major(size: int, x: int, y: int)
    requires
        0 <= x < size,
        0 <= y < size,
    ensures
        picture(size).len() == 4 * (size * size),
        0 <= 4 * (y * size + x) <= picture(size).len() - 4,
        picture(size).subrange(4 * (y * size + x), 4 * (y * size + x) + 4) == pixel_of(x, y, size),
{
    lemma_rows_len(size, size);
    lemma_rows_row(size, size, y);
    lemma_row(y, size, size, x);
    let from = 4 * (y * size);
    assert(picture(size).subrange(from + 4 * x, from + 4 * x + 4) =~= picture(size).subrange(
        from,
        from + 4 * size,
    ).subrange(4 * x, 4 * x + 4));
}

/// The icon, as RGBA bytes, row by row, top row first, straight alpha.
pub fn pixels(size: u32) -> (r: Vec<u8>)
    requires
        size <= 0x7FFF,
    ensures
        r@ == picture(size as int),
{
    let mut out: Vec<u8> = Vec::new();
    let mut py: u32 = 0;
    while py < size
        invariant
            py <= size <= 0x7FFF,
            out@ == rows_of(size as int, py as int),
        decreases size - py,
    {
        let ghost before = out@;
        let mut px: u32 = 0;
        assert(out@ =~= before + row_of(py as int, size as int, 0));
        while px < size
            invariant
                px <= size,
                py < size <= 0x7FFF,
                out@ == before + row_of(py as int, size as int, px as int),
            decreases size - px,
        {
            let p = pixel(px, py, size);
            let ghost was = out@;
            out.push(p[0]);
            out.push(p[1]);
            out.push(p[2]);
            out.push(p[3]);
            assert(out@ =~= was + p@);
            px += 1;
            assert(out@ =~= before + row_of(py as int, size as int, px as int));
        }
        py += 1;
    }
    out
}

/// The alpha of a pixel no sample of which is drawn on is zero, and that of a
/// pixel all of which is drawn on is full.
pub proof fn law_alpha_is_coverage(px: int, py: int, size: int)
    ensures
        pixel_of(px, py, size).len() == 4,
        blend_of(px, py, size, 16).covered == 0 ==> pixel_of(px, py, size)[3] == 0,
        blend_of(px, py, size, 16).covered == 16 ==> pixel_of(px, py, size)[3] == 255,
{
    lemma_blend_bounds(px, py, size, 16);
}

/// The same picture in the byte order a tray over D-Bus takes: alpha first.
pub open spec fn alpha_first(rgba: Seq<u8>) -> Seq<u8> {
    Seq::new(
        rgba.len(),
        |i: int|
            if i % 4 == 0 {
                rgba[i + 3]
            } else {
                rgba[i - 1]
            },
    )
}

/// The icon as ARGB bytes.
pub fn argb(size: u32) -> (r: Vec<u8>)
    requires
        size <= 0x7FFF,
    ensures
        r@ == alpha_first(picture(size as int)),
{
    let rgba = pixels(size);
    let mut out: Vec<u8> = Vec::new();
    let end: usize = rgba.len();
    proof {
        lemma_rows_len(size as int, size as int);
    }
    let mut i: usize = 0;
    while i < end
        invariant
            i <= end,
            i % 4 == 0,
            end % 4 == 0,
            end == rgba@.len(),
            out@ == alpha_first(rgba@).take(i as int),
        decreases end - i,
    {
        let ghost was = out@;
        out.push(rgba[i + 3]);
        out.push(rgba[i]);
        out.push(rgba[i + 1]);
        out.push(rgba[i + 2]);
        assert((i + 1) % 4 == 1 && (i + 2) % 4 == 2 && (i + 3) % 4 == 3);
        assert(out@ =~= alpha_first(rgba@).take(i as int + 4));
        i += 4;
    }
    assert(out@ =~= alpha_first(rgba@));
    out
}

/// The same picture in the byte order a Windows bitmap takes: blue first.
pub open spec fn blue_first(rgba: Seq<u8>) -> Seq<u8> {
    Seq::new(
        rgba.len(),
        |i: int|
            if i % 4 == 0 {
                rgba[i + 2]
            } else if i % 4 == 2 {
                rgba[i - 2]
            } else {
                rgba[i]
            },
    )
}

/// The icon as BGRA bytes, top row first.
pub fn bgra_pixels(size: u32) -> (r: Vec<u8>)
    requires
        size <= 0x7FFF,
    ensures
        r@ == blue_first(picture(size as int)),
{
    let rgba = pixels(size);
    let mut out: Vec<u8> = Vec::new();
    let end: usize = rgba.len();
    proof {
        lemma_rows_len(size as int, size as int);
    }
    let mut i: usize = 0;
    while i < end
        invariant
            i <= end,
            i % 4 == 0,
            end % 4 == 0,
            end == rgba@.len(),
            out@ == blue_first(rgba@).take(i as int),
        decreases end - i,
    {
        out.push(rgba[i + 2]);
        out.push(rgba[i + 1]);
        out.push(rgba[i]);
        out.push(rgba[i + 3]);
        assert((i + 1) % 4 == 1 && (i + 2) % 4 == 2 && (i + 3) % 4 == 3);
        assert(out@ =~= blue_first(rgba@).take(i as int + 4));
        i += 4;
    }
    assert(out@ =~= blue_first(rgba@));
    out
}

/// The icon as a PNG file, which holds at least one pixel and no more than fit
/// one of its chunks.
pub fn png_file(size: u32) -> (r: Vec<u8>)
    requires
        size > 0,
        stream_len(size * (4 * size + 1)) <= CHUNK_LIMIT,
    ensures
        r@ == png(size as int, size as int, picture(size as int)),
{
    proof {
        assert(size <= 0x7FFF) by (nonlinear_arith)
            requires
                size * (4 * size + 1) <= 0x7FFF_FFFF,
        ;
        lemma_rows_len(size as int, size as int);
        assert(4 * (size * size) == size * (4 * size)) by (nonlinear_arith);
    }
    let rgba = pixels(size);
    encode(size, size, rgba.as_slice())
}

// ---------------------------------------------------------------------------
// The icon file
// ---------------------------------------------------------------------------

/// The sizes Windows asks an executable's icon for, at every scaling step.
pub const ICO_SIZES: [u32; 8] = [16, 20, 24, 32, 40, 48, 64, 256];

/// The low 16 bits of a number, low byte first.
pub open spec fn le16(n: int) -> Seq<u8> {
    seq![(n % 256) as u8, ((n / 256) % 256) as u8]
}

/// The low 32 bits of a number, low byte first.
pub open spec fn le32(n: int) -> Seq<u8> {
    seq![
        (n % 256) as u8,
        ((n / 256) % 256) as u8,
        ((n / 65536) % 256) as u8,
        ((n / 16777216) % 256) as u8,
    ]
}

pub(crate) fn push16(out: &mut Vec<u8>, n: u32)
    ensures
        final(out)@ == old(out)@ + le16(n as int),
{
    out.push((n % 256) as u8);
    out.push(((n / 256) % 256) as u8);
    assert(out@ =~= old(out)@ + le16(n as int));
}

fn push32(out: &mut Vec<u8>, n: u32)
    ensures
        final(out)@ == old(out)@ + le32(n as int),
{
    out.push((n % 256) as u8);
    out.push(((n / 256) % 256) as u8);
    out.push(((n / 65536) % 256) as u8);
    out.push(((n / 16777216) % 256) as u8);
    assert(out@ =~= old(out)@ + le32(n as int));
}

pub open spec fn zero_bytes(n: int) -> Seq<u8> {
    Seq::new(
        if n < 0 {
            0
        } else {
            n as nat
        },
        |i: int| 0u8,
    )
}

fn push_zeros(out: &mut Vec<u8>, n: u32)
    ensures
        final(out)@ == old(out)@ + zero_bytes(n as int),
{
    let mut i: u32 = 0;
    while i < n
        invariant
            i <= n,
            out@ == old(out)@ + zero_bytes(i as int),
        decreases n - i,
    {
        out.push(0);
        i += 1;
        assert(out@ =~= old(out)@ + zero_bytes(i as int));
    }
}

/// Bytes in a row of the mask: a bit for every pixel, in whole groups of 32.
pub open spec fn mask_row(size: int) -> int {
    ((size + 31) / 32) * 4
}

/// Bytes of colour and mask in an image.
pub open spec fn image_bytes(size: int) -> int {
    4 * (size * size) + mask_row(size) * size
}

/// Bytes in an image with its header.
pub open spec fn image_len(size: int) -> int {
    40 + image_bytes(size)
}

/// A bitmap header. The height counts the colour image and the mask.
pub open spec fn image_header(size: int) -> Seq<u8> {
    le32(40) + le32(size) + le32(2 * size) + le16(1) + le16(32) + le32(0) + le32(image_bytes(size))
        + zero_bytes(16)
}

/// A pixel in the order a bitmap keeps it: blue, green, red, alpha.
pub open spec fn bgra(p: Seq<u8>) -> Seq<u8> {
    seq![p[2], p[1], p[0], p[3]]
}

/// The first `n` pixels of row `y` as a bitmap keeps them.
pub open spec fn stored_row(y: int, size: int, n: int) -> Seq<u8>
    decreases n,
{
    if n <= 0 {
        Seq::empty()
    } else {
        stored_row(y, size, n - 1) + bgra(pixel_of(n - 1, y, size))
    }
}

/// The first `n` rows a bitmap keeps: the bottom row of the picture first.
pub open spec fn stored_rows(size: int, n: int) -> Seq<u8>
    decreases n,
{
    if n <= 0 {
        Seq::empty()
    } else {
        stored_rows(size, n - 1) + stored_row(size - n, size, size)
    }
}

/// One image of an icon file: a 32-bit bitmap with alpha, then the all-zero
/// mask the format still requires.
pub open spec fn image_of(size: int) -> Seq<u8> {
    image_header(size) + stored_rows(size, size) + zero_bytes(mask_row(size) * size)
}

proof fn lemma_image_fits(size: int)
    requires
        0 <= size,
        image_len(size) <= u32::MAX,
    ensures
        size <= 0x7FFF,
        0 <= size * size,
        4 * (size * size) <= u32::MAX,
        0 <= mask_row(size) * size <= u32::MAX,
        0 <= mask_row(size),
{
    let m = mask_row(size);
    assert(0 <= m);
    assert(0 <= m * size) by (nonlinear_arith)
        requires
            0 <= m,
            0 <= size,
    ;
    assert(0 <= size * size) by (nonlinear_arith)
        requires
            0 <= size,
    ;
    if size > 0x7FFF {
        assert(size * size >= 0x4000_0000) by (nonlinear_arith)
            requires
                size >= 0x8000,
        ;
    }
}

proof fn lemma_stored_row_len(y: int, size: int, n: int)
    requires
        0 <= n,
    ensures
        stored_row(y, size, n).len() == 4 * n,
    decreases n,
{
    if n > 0 {
        lemma_stored_row_len(y, size, n - 1);
    }
}

proof fn lemma_stored_rows_len(size: int, n: int)
    requires
        0 <= n,
        0 <= size,
    ensures
        stored_rows(size, n).len() == 4 * (n * size),
    decreases n,
{
    if n > 0 {
        lemma_stored_rows_len(size, n - 1);
        lemma_stored_row_len(size - n, size, size);
        assert(n * size == (n - 1) * size + size) by (nonlinear_arith);
    } else {
        assert(n * size == 0) by (nonlinear_arith)
            requires
                n == 0,
        ;
    }
}

proof fn lemma_image_len(size: int)
    requires
        0 <= size,
    ensures
        image_of(size).len() == image_len(size),
        image_len(size) >= 40,
{
    lemma_stored_rows_len(size, size);
    let m = mask_row(size);
    assert(0 <= m * size) by (nonlinear_arith)
        requires
            0 <= m,
            0 <= size,
    ;
    assert(0 <= size * size) by (nonlinear_arith)
        requires
            0 <= size,
    ;
    assert(image_header(size).len() == 40);
}

fn ico_image(size: u32) -> (r: Vec<u8>)
    requires
        image_len(size as int) <= u32::MAX,
    ensures
        r@ == image_of(size as int),
        r@.len() == image_len(size as int),
{
    proof {
        lemma_image_fits(size as int);
        lemma_image_len(size as int);
    }
    let mask: u32 = ((size + 31) / 32) * 4;
    let mut out: Vec<u8> = Vec::new();
    push32(&mut out, 40);
    push32(&mut out, size);
    push32(&mut out, size * 2);
    push16(&mut out, 1);
    push16(&mut out, 32);
    push32(&mut out, 0);
    push32(&mut out, size * size * 4 + mask * size);
    push_zeros(&mut out, 16);
    assert(out@ =~= image_header(size as int));
    let mut n: u32 = 0;
    assert(out@ =~= image_header(size as int) + stored_rows(size as int, 0));
    while n < size
        invariant
            n <= size <= 0x7FFF,
            out@ == image_header(size as int) + stored_rows(size as int, n as int),
        decreases size - n,
    {
        let ghost before = out@;
        n += 1;
        let y: u32 = size - n;
        let mut x: u32 = 0;
        assert(out@ =~= before + stored_row(y as int, size as int, 0));
        while x < size
            invariant
                x <= size,
                y < size <= 0x7FFF,
                out@ == before + stored_row(y as int, size as int, x as int),
            decreases size - x,
        {
            let p = pixel(x, y, size);
            let ghost was = out@;
            out.push(p[2]);
            out.push(p[1]);
            out.push(p[0]);
            out.push(p[3]);
            assert(out@ =~= was + bgra(p@));
            x += 1;
            assert(out@ =~= before + stored_row(y as int, size as int, x as int));
        }
        assert(out@ =~= image_header(size as int) + stored_rows(size as int, n as int));
    }
    push_zeros(&mut out, mask * size);
    out
}

/// Bytes in the first `k` images of a file.
pub open spec fn images_len(sizes: Seq<u32>, k: int) -> int
    decreases k,
{
    if k <= 0 {
        0
    } else {
        images_len(sizes, k - 1) + image_len(sizes[k - 1] as int)
    }
}

/// Where image `k` begins: after the directory and the images before it.
pub open spec fn offset_of(sizes: Seq<u32>, k: int) -> int {
    6 + 16 * sizes.len() + images_len(sizes, k)
}

/// A directory entry. A dimension of 256 is written as 0: the field is one
/// byte.
pub open spec fn entry_of(size: int, offset: int) -> Seq<u8> {
    let dim = if size >= 256 {
        0u8
    } else {
        size as u8
    };
    seq![dim, dim, 0u8, 0u8] + le16(1) + le16(32) + le32(image_len(size)) + le32(offset)
}

/// The first `k` directory entries.
pub open spec fn directory_of(sizes: Seq<u32>, k: int) -> Seq<u8>
    decreases k,
{
    if k <= 0 {
        Seq::empty()
    } else {
        directory_of(sizes, k - 1) + entry_of(sizes[k - 1] as int, offset_of(sizes, k - 1))
    }
}

/// The first `k` images.
pub open spec fn images_of(sizes: Seq<u32>, k: int) -> Seq<u8>
    decreases k,
{
    if k <= 0 {
        Seq::empty()
    } else {
        images_of(sizes, k - 1) + image_of(sizes[k - 1] as int)
    }
}

/// An icon file: its header, a directory, and the images.
pub open spec fn icon_file(sizes: Seq<u32>) -> Seq<u8> {
    le16(0) + le16(1) + le16(sizes.len() as int) + directory_of(sizes, sizes.len() as int)
        + images_of(sizes, sizes.len() as int)
}

proof fn lemma_images_len_grows(sizes: Seq<u32>, i: int, j: int)
    requires
        0 <= i <= j <= sizes.len(),
    ensures
        0 <= images_len(sizes, i) <= images_len(sizes, j),
    decreases j,
{
    if i < j {
        lemma_images_len_grows(sizes, i, j - 1);
        lemma_image_len(sizes[j - 1] as int);
    } else if i > 0 {
        lemma_images_len_grows(sizes, i - 1, i - 1);
        lemma_image_len(sizes[i - 1] as int);
    }
}

fn push_entry(out: &mut Vec<u8>, size: u32, length: u32, offset: u32)
    requires
        length == image_len(size as int),
    ensures
        final(out)@ == old(out)@ + entry_of(size as int, offset as int),
{
    let dim: u8 = if size >= 256 {
        0
    } else {
        size as u8
    };
    out.push(dim);
    out.push(dim);
    out.push(0);
    out.push(0);
    assert(out@ =~= old(out)@ + seq![dim, dim, 0u8, 0u8]);
    push16(out, 1);
    push16(out, 32);
    push32(out, length);
    push32(out, offset);
    assert(out@ =~= old(out)@ + entry_of(size as int, offset as int));
}

/// A Windows icon file holding the icon at each of `sizes`.
pub fn ico_file(sizes: &[u32]) -> (r: Vec<u8>)
    requires
        offset_of(sizes@, sizes@.len() as int) <= u32::MAX,
    ensures
        r@ == icon_file(sizes@),
{
    let ghost all = sizes@;
    let count: usize = sizes.len();
    proof {
        lemma_images_len_grows(all, 0, count as int);
    }
    let mut out: Vec<u8> = Vec::new();
    push16(&mut out, 0);
    push16(&mut out, 1);
    push16(&mut out, count as u32);
    let ghost head = out@;
    assert(head =~= le16(0) + le16(1) + le16(all.len() as int));

    let mut images: Vec<u8> = Vec::new();
    let mut offset: u32 = 6 + 16 * (count as u32);
    let mut k: usize = 0;
    assert(out@ =~= head + directory_of(all, 0));
    while k < count
        invariant
            k <= count,
            all == sizes@,
            count == all.len(),
            offset_of(all, count as int) <= u32::MAX,
            offset == offset_of(all, k as int),
            out@ == head + directory_of(all, k as int),
            images@ == images_of(all, k as int),
        decreases count - k,
    {
        let size: u32 = sizes[k];
        proof {
            lemma_images_len_grows(all, 0, k as int);
            lemma_images_len_grows(all, k as int + 1, count as int);
            lemma_image_len(size as int);
        }
        let mut image = ico_image(size);
        let length: u32 = image.len() as u32;
        push_entry(&mut out, size, length, offset);
        offset += length;
        images.append(&mut image);
        k += 1;
        assert(out@ =~= head + directory_of(all, k as int));
    }
    out.append(&mut images);
    out
}

proof fn lemma_directory(sizes: Seq<u32>, k: int, n: int)
    requires
        0 <= k < n <= sizes.len(),
    ensures
        directory_of(sizes, n).len() == 16 * n,
        directory_of(sizes, n).subrange(16 * k, 16 * k + 16) == entry_of(
            sizes[k] as int,
            offset_of(sizes, k),
        ),
    decreases n,
{
    let front = directory_of(sizes, n - 1);
    if n - 1 > 0 {
        lemma_directory(sizes, 0, n - 1);
    }
    if k < n - 1 {
        lemma_directory(sizes, k, n - 1);
        assert(directory_of(sizes, n).subrange(16 * k, 16 * k + 16) =~= front.subrange(
            16 * k,
            16 * k + 16,
        ));
    } else {
        assert(directory_of(sizes, n).subrange(16 * k, 16 * k + 16) =~= entry_of(
            sizes[k] as int,
            offset_of(sizes, k),
        ));
    }
}

proof fn lemma_images(sizes: Seq<u32>, n: int)
    requires
        0 <= n <= sizes.len(),
    ensures
        images_of(sizes, n).len() == images_len(sizes, n),
    decreases n,
{
    if n > 0 {
        lemma_images(sizes, n - 1);
        lemma_image_len(sizes[n - 1] as int);
    }
}

proof fn lemma_image_place(sizes: Seq<u32>, k: int, n: int)
    requires
        0 <= k < n <= sizes.len(),
    ensures
        0 <= images_len(sizes, k) <= images_len(sizes, k + 1) <= images_of(sizes, n).len(),
        images_of(sizes, n).subrange(images_len(sizes, k), images_len(sizes, k + 1)) == image_of(
            sizes[k] as int,
        ),
    decreases n,
{
    lemma_images(sizes, n);
    lemma_images(sizes, n - 1);
    lemma_image_len(sizes[n - 1] as int);
    lemma_image_len(sizes[k] as int);
    lemma_images_len_grows(sizes, k, k + 1);
    lemma_images_len_grows(sizes, k + 1, n);
    let from = images_len(sizes, k);
    let to = images_len(sizes, k + 1);
    if k < n - 1 {
        lemma_image_place(sizes, k, n - 1);
        lemma_images_len_grows(sizes, k + 1, n - 1);
        assert(images_of(sizes, n).subrange(from, to) =~= images_of(sizes, n - 1).subrange(from, to));
    } else {
        assert(images_of(sizes, n).subrange(from, to) =~= image_of(sizes[k] as int));
    }
}

/// Each image of an icon file lies where its directory entry says, and no byte
/// of the file is unaccounted for.
pub proof fn law_each_image_is_where_it_is_declared(sizes: Seq<u32>, k: int)
    requires
        0 <= k < sizes.len(),
    ensures
        icon_file(sizes).len() == offset_of(sizes, sizes.len() as int),
        icon_file(sizes).subrange(6 + 16 * k, 22 + 16 * k) == entry_of(
            sizes[k] as int,
            offset_of(sizes, k),
        ),
        offset_of(sizes, k + 1) == offset_of(sizes, k) + image_len(sizes[k] as int),
        icon_file(sizes).subrange(offset_of(sizes, k), offset_of(sizes, k + 1)) == image_of(
            sizes[k] as int,
        ),
{
    let n = sizes.len() as int;
    let head = le16(0) + le16(1) + le16(n);
    lemma_directory(sizes, k, n);
    lemma_images(sizes, n);
    lemma_image_place(sizes, k, n);
    assert(head.len() == 6);
    lemma_three_parts(
        head,
        directory_of(sizes, n),
        images_of(sizes, n),
        16 * k,
        16 * k + 16,
        images_len(sizes, k),
        images_len(sizes, k + 1),
    );
}

/// What stands in the second and in the third of three parts stands in the
/// whole, behind the parts before it.
proof fn lemma_three_parts(
    head: Seq<u8>,
    second: Seq<u8>,
    third: Seq<u8>,
    a: int,
    b: int,
    c: int,
    d: int,
)
    requires
        0 <= a <= b <= second.len(),
        0 <= c <= d <= third.len(),
    ensures
        (head + second + third).len() == head.len() + second.len() + third.len(),
        (head + second + third).subrange(head.len() + a, head.len() + b) == second.subrange(a, b),
        (head + second + third).subrange(
            head.len() + second.len() + c,
            head.len() + second.len() + d,
        ) == third.subrange(c, d),
{
    let whole = head + second + third;
    assert(whole.subrange(head.len() + a, head.len() + b) =~= second.subrange(a, b));
    assert(whole.subrange(head.len() + second.len() + c, head.len() + second.len() + d)
        =~= third.subrange(c, d));
}

proof fn lemma_stored_pixel(y: int, size: int, n: int, x: int)
    requires
        0 <= x < n,
    ensures
        stored_row(y, size, n).len() == 4 * n,
        stored_row(y, size, n).subrange(4 * x, 4 * x + 4) == bgra(pixel_of(x, y, size)),
    decreases n,
{
    lemma_stored_row_len(y, size, n);
    lemma_stored_row_len(y, size, n - 1);
    let front = stored_row(y, size, n - 1);
    if x < n - 1 {
        lemma_stored_pixel(y, size, n - 1, x);
        assert(stored_row(y, size, n).subrange(4 * x, 4 * x + 4) =~= front.subrange(
            4 * x,
            4 * x + 4,
        ));
    } else {
        assert(stored_row(y, size, n).subrange(4 * x, 4 * x + 4) =~= bgra(pixel_of(x, y, size)));
    }
}

proof fn lemma_stored_rows_row(size: int, n: int, k: int)
    requires
        0 <= k < n <= size,
    ensures
        0 <= 4 * (k * size) <= 4 * (k * size) + 4 * size <= stored_rows(size, n).len(),
        stored_rows(size, n).subrange(4 * (k * size), 4 * (k * size) + 4 * size) == stored_row(
            size - 1 - k,
            size,
            size,
        ),
    decreases n,
{
    lemma_stored_rows_len(size, n);
    lemma_stored_rows_len(size, n - 1);
    lemma_stored_row_len(size - n, size, size);
    let from = 4 * (k * size);
    assert(0 <= k * size && k * size + size <= n * size) by (nonlinear_arith)
        requires
            0 <= k < n,
            0 <= size,
    ;
    assert(n * size == (n - 1) * size + size) by (nonlinear_arith);
    if k < n - 1 {
        lemma_stored_rows_row(size, n - 1, k);
        assert(stored_rows(size, n).subrange(from, from + 4 * size) =~= stored_rows(
            size,
            n - 1,
        ).subrange(from, from + 4 * size));
    } else {
        assert(stored_rows(size, n).subrange(from, from + 4 * size) =~= stored_row(
            size - 1 - k,
            size,
            size,
        ));
    }
}

/// An image keeps its pixels bottom row first, each as blue, green, red and
/// alpha: stored row `k` is row `size - 1 - k` of the picture.
pub proof fn law_stored_pixels_are_bottom_up(size: int, x: int, k: int)
    requires
        0 <= x < size,
        0 <= k < size,
    ensures
        image_of(size).subrange(40 + 4 * (k * size + x), 44 + 4 * (k * size + x)) == bgra(
            pixel_of(x, size - 1 - k, size),
        ),
{
    lemma_image_len(size);
    lemma_stored_rows_len(size, size);
    lemma_stored_rows_row(size, size, k);
    lemma_stored_pixel(size - 1 - k, size, size, x);
    let rows = stored_rows(size, size);
    let from = 4 * (k * size);
    assert(image_header(size).len() == 40);
    assert(0 <= mask_row(size) * size) by (nonlinear_arith)
        requires
            0 <= size,
            0 <= mask_row(size),
    ;
    assert(image_of(size).subrange(40 + from + 4 * x, 44 + from + 4 * x) =~= rows.subrange(
        from,
        from + 4 * size,
    ).subrange(4 * x, 4 * x + 4));
}

// ---------------------------------------------------------------------------
// Laws of the picture
// ---------------------------------------------------------------------------

/// A number is written in bytes that are worth it, the smallest first.
pub proof fn law_a_number_is_written_smallest_byte_first(n: int)
    requires
        0 <= n <= u32::MAX,
    ensures
        n <= u16::MAX ==> le16(n).len() == 2 && le16(n)[0] + le16(n)[1] * 0x100 == n,
        le32(n).len() == 4,
        le32(n)[0] + le32(n)[1] * 0x100 + le32(n)[2] * 0x1_0000 + le32(n)[3] * 0x100_0000 == n,
{
    let b = (n / 65536) % 256;
    let c = (n / 256) % 256;
    assert(n / 256 == (n / 65536) * 256 + c);
    assert(n / 65536 == (n / 16777216) * 256 + b);
    assert(0 <= n / 16777216 < 256);
}

/// A mean is rounded to the nearest whole number.
pub proof fn law_a_mean_is_rounded_to_the_nearest(sum: int, count: int)
    requires
        count > 0,
        sum >= 0,
    ensures
        2 * sum - count <= 2 * (count * nearest(sum, count)) <= 2 * sum + count,
{
    let a = 2 * sum + count;
    let d = 2 * count;
    let q = nearest(sum, count);
    vstd::arithmetic::div_mod::lemma_fundamental_div_mod(a, d);
    vstd::arithmetic::div_mod::lemma_mod_bound(a, d);
    assert(d * q == 2 * (count * q)) by (nonlinear_arith)
        requires
            d == 2 * count,
    ;
}

/// Reordering the channels of a pixel moves the whole pixel's four bytes and no
/// others: alpha before the colours, or blue in the place of red.
pub proof fn law_channels_are_moved_within_their_pixel(rgba: Seq<u8>, p: int)
    requires
        rgba.len() % 4 == 0,
        0 <= p,
        4 * p + 3 < rgba.len(),
    ensures
        alpha_first(rgba).len() == rgba.len(),
        alpha_first(rgba).subrange(4 * p, 4 * p + 4) == seq![
            rgba[4 * p + 3],
            rgba[4 * p],
            rgba[4 * p + 1],
            rgba[4 * p + 2],
        ],
        blue_first(rgba).len() == rgba.len(),
        blue_first(rgba).subrange(4 * p, 4 * p + 4) == seq![
            rgba[4 * p + 2],
            rgba[4 * p + 1],
            rgba[4 * p],
            rgba[4 * p + 3],
        ],
{
    assert(alpha_first(rgba).subrange(4 * p, 4 * p + 4) =~= seq![
        rgba[4 * p + 3],
        rgba[4 * p],
        rgba[4 * p + 1],
        rgba[4 * p + 2],
    ]);
    assert(blue_first(rgba).subrange(4 * p, 4 * p + 4) =~= seq![
        rgba[4 * p + 2],
        rgba[4 * p + 1],
        rgba[4 * p],
        rgba[4 * p + 3],
    ]);
}

/// A row of the mask has a bit for each pixel, in whole groups of four bytes,
/// and no group more than it takes.
pub proof fn law_a_mask_row_has_a_bit_for_each_pixel(size: int)
    requires
        size > 0,
    ensures
        mask_row(size) % 4 == 0,
        8 * mask_row(size) >= size,
        8 * (mask_row(size) - 4) < size,
{
}

/// An image is headed by its size, twice as high as it is wide for the mask,
/// with thirty-two bits to a pixel; its directory entry gives its size, length
/// and place.
pub proof fn law_an_image_is_headed_by_its_size(size: int, offset: int)
    requires
        0 < size <= 256,
        0 <= offset <= u32::MAX,
    ensures
        image_header(size).len() == 40,
        image_header(size).subrange(4, 8) == le32(size),
        image_header(size).subrange(8, 12) == le32(2 * size),
        image_header(size)[14] == 32 && image_header(size)[15] == 0,
        entry_of(size, offset).len() == 16,
        size < 256 ==> entry_of(size, offset)[0] == size && entry_of(size, offset)[1] == size,
        size == 256 ==> entry_of(size, offset)[0] == 0 && entry_of(size, offset)[1] == 0,
        entry_of(size, offset).subrange(8, 12) == le32(image_len(size)),
        entry_of(size, offset).subrange(12, 16) == le32(offset),
{
    assert(image_header(size).subrange(4, 8) =~= le32(size));
    assert(image_header(size).subrange(8, 12) =~= le32(2 * size));
    assert(entry_of(size, offset).subrange(8, 12) =~= le32(image_len(size)));
    assert(entry_of(size, offset).subrange(12, 16) =~= le32(offset));
}

/// A rounded rectangle holds its middle and nothing outside it, and is the same
/// seen from the right as from the left.
pub proof fn law_a_rounded_rectangle_is_symmetrical(
    x: int,
    y: int,
    left: int,
    top: int,
    right: int,
    bottom: int,
    radius: int,
)
    requires
        0 <= radius,
        left + radius <= right - radius,
        top + radius <= bottom - radius,
    ensures
        in_rounded(x, y, left, top, right, bottom, radius) <==> in_rounded(
            left + right - x,
            y,
            left,
            top,
            right,
            bottom,
            radius,
        ),
        in_rounded(x, y, left, top, right, bottom, radius) <==> in_rounded(
            x,
            top + bottom - y,
            left,
            top,
            right,
            bottom,
            radius,
        ),
        left + radius <= x <= right - radius && top <= y <= bottom ==> in_rounded(
            x,
            y,
            left,
            top,
            right,
            bottom,
            radius,
        ),
        x < left || x > right || y < top || y > bottom ==> !in_rounded(
            x,
            y,
            left,
            top,
            right,
            bottom,
            radius,
        ),
{
    let dx = x - clamped(x, left + radius, right - radius);
    let dy = y - clamped(y, top + radius, bottom - radius);
    let mx = (left + right - x) - clamped(left + right - x, left + radius, right - radius);
    let my = (top + bottom - y) - clamped(top + bottom - y, top + radius, bottom - radius);
    assert(mx == -dx && my == -dy);
    assert(mx * mx == dx * dx) by (nonlinear_arith)
        requires
            mx == -dx,
    ;
    assert(my * my == dy * dy) by (nonlinear_arith)
        requires
            my == -dy,
    ;
    if left + radius <= x <= right - radius && top <= y <= bottom {
        assert(dx == 0);
        assert(-radius <= dy <= radius);
        assert(dx * dx + dy * dy <= radius * radius) by (nonlinear_arith)
            requires
                dx == 0,
                -radius <= dy <= radius,
        ;
    }
}

/// The icon is the same from either side, but for its two colours: what is blue
/// on the left is amber on the right.
pub proof fn law_the_icon_is_symmetrical(x: int, y: int, size: int)
    requires
        size > 0,
        x != 400 * size,
        x != 352 * size,
        x != 448 * size,
    ensures
        ({
            let here = shade_at(x, y, size);
            let there = shade_at(800 * size - x, y, size);
            &&& here == Some(Paint::Grey) <==> there == Some(Paint::Grey)
            &&& here == Some(Paint::Blue) <==> there == Some(Paint::Amber)
            &&& here is None <==> there is None
            &&& here == Some(Paint::Blue) ==> x < 400 * size
            &&& here == Some(Paint::Amber) ==> x > 400 * size
        }),
{
    lemma_hundredths(size);
    law_a_rounded_rectangle_is_symmetrical(
        x,
        y,
        hundredths(4, size),
        hundredths(10, size),
        hundredths(96, size),
        hundredths(70, size),
        hundredths(9, size),
    );
    law_a_rounded_rectangle_is_symmetrical(
        x,
        y,
        hundredths(26, size),
        hundredths(82, size),
        hundredths(74, size),
        hundredths(93, size),
        hundredths(5, size),
    );
}

proof fn lemma_hundredths(size: int)
    ensures
        hundredths(4, size) == 32 * size,
        hundredths(5, size) == 40 * size,
        hundredths(9, size) == 72 * size,
        hundredths(10, size) == 80 * size,
        hundredths(26, size) == 208 * size,
        hundredths(44, size) == 352 * size,
        hundredths(50, size) == 400 * size,
        hundredths(56, size) == 448 * size,
        hundredths(70, size) == 560 * size,
        hundredths(74, size) == 592 * size,
        hundredths(82, size) == 656 * size,
        hundredths(84, size) == 672 * size,
        hundredths(93, size) == 744 * size,
        hundredths(96, size) == 768 * size,
{
}

/// The screen is painted through its middle, the foot below it, and the margin
/// round them is left clear.
pub proof fn law_the_screen_stands_on_its_foot(x: int, y: int, size: int)
    requires
        size > 0,
    ensures
        104 * size <= x <= 696 * size && 80 * size <= y <= 560 * size ==> shade_at(
            x,
            y,
            size,
        ) == Some(
            if x < 400 * size {
                Paint::Blue
            } else {
                Paint::Amber
            },
        ),
        352 * size <= x < 448 * size && 560 * size < y <= 744 * size ==> shade_at(x, y, size)
            == Some(Paint::Grey),
        x < 32 * size || x > 768 * size || y < 80 * size || y > 744 * size ==> shade_at(
            x,
            y,
            size,
        ) is None,
{
    lemma_hundredths(size);
    law_a_rounded_rectangle_is_symmetrical(
        x,
        y,
        hundredths(4, size),
        hundredths(10, size),
        hundredths(96, size),
        hundredths(70, size),
        hundredths(9, size),
    );
    law_a_rounded_rectangle_is_symmetrical(
        x,
        y,
        hundredths(26, size),
        hundredths(82, size),
        hundredths(74, size),
        hundredths(93, size),
        hundredths(5, size),
    );
}

} // verus!
