use vstd::prelude::*;
use vstd::arithmetic::div_mod::{lemma_fundamental_div_mod, lemma_fundamental_div_mod_converse};

use crate::errors::Error;

verus! {

/// A rectangular region defined by a position and size.
#[derive(Debug, Clone, Copy, PartialEq, Eq, Structural)]
pub struct Bounds {
    pub x: u32,
    pub y: u32,
    pub width: u32,
    pub height: u32,
}

impl Bounds {
    /// Creates a new bounds with the given position and size.
    pub fn new(x: u32, y: u32, width: u32, height: u32) -> (b: Self)
        ensures
            b == (Bounds { x, y, width, height }),
    {
        Bounds { x, y, width, height }
    }

    /// The right edge (exclusive) of the region.
    pub open spec fn right(self) -> int {
        self.x + self.width
    }

    /// The bottom edge (exclusive) of the region.
    pub open spec fn bottom(self) -> int {
        self.y + self.height
    }

    /// An empty bounds at the origin.
    pub fn zero() -> (b: Self)
        ensures
            b == (Bounds { x: 0, y: 0, width: 0, height: 0 }),
    {
        Bounds { x: 0, y: 0, width: 0, height: 0 }
    }

    /// Whether the point `(px, py)` lies inside the region.
    pub open spec fn contains_point(self, px: int, py: int) -> bool {
        self.x <= px < self.right() && self.y <= py < self.bottom()
    }

    /// The region that `self.union(other)` computes.
    pub open spec fn spec_union(self, other: Self) -> Bounds {
        let min_x = if self.x <= other.x { self.x } else { other.x };
        let min_y = if self.y <= other.y { self.y } else { other.y };
        let max_x = if self.right() >= other.right() { self.right() } else { other.right() };
        let max_y = if self.bottom() >= other.bottom() { self.bottom() } else { other.bottom() };
        Bounds {
            x: min_x,
            y: min_y,
            width: (max_x - min_x) as u32,
            height: (max_y - min_y) as u32,
        }
    }

    /// Returns the smallest bounds that contains both `self` and `other`.
    pub fn union(self, other: Self) -> (u: Self)
        requires
            self.right() <= u32::MAX,
            self.bottom() <= u32::MAX,
            other.right() <= u32::MAX,
            other.bottom() <= u32::MAX,
        ensures
            u == self.spec_union(other),
            u.right() <= u32::MAX,
            u.bottom() <= u32::MAX,
    {
        let min_x = if self.x <= other.x { self.x } else { other.x };
        let min_y = if self.y <= other.y { self.y } else { other.y };
        let a = self.x + self.width;
        let b = other.x + other.width;
        let max_x = if a >= b { a } else { b };
        let c = self.y + self.height;
        let d = other.y + other.height;
        let max_y = if c >= d { c } else { d };
        Bounds { x: min_x, y: min_y, width: max_x - min_x, height: max_y - min_y }
    }
}

/// The union of two regions contains both of them.
pub proof fn lemma_union_contains(a: Bounds, b: Bounds)
    requires
        a.right() <= u32::MAX,
        a.bottom() <= u32::MAX,
        b.right() <= u32::MAX,
        b.bottom() <= u32::MAX,
    ensures
        within(a, a.spec_union(b)),
        within(b, a.spec_union(b)),
{
}

/// The union of two regions is the smallest region containing both: every region that
/// contains both contains their union.
pub proof fn lemma_union_smallest(a: Bounds, b: Bounds, c: Bounds)
    requires
        a.right() <= u32::MAX,
        a.bottom() <= u32::MAX,
        b.right() <= u32::MAX,
        b.bottom() <= u32::MAX,
        within(a, c),
        within(b, c),
    ensures
        within(a.spec_union(b), c),
{
}

/// The union of regions does not depend on their order.
pub proof fn lemma_union_commutative(a: Bounds, b: Bounds)
    requires
        a.right() <= u32::MAX,
        a.bottom() <= u32::MAX,
        b.right() <= u32::MAX,
        b.bottom() <= u32::MAX,
    ensures
        a.spec_union(b) == b.spec_union(a),
{
}

/// The union of a region with itself is that region.
pub proof fn lemma_union_idempotent(a: Bounds)
    requires
        a.right() <= u32::MAX,
        a.bottom() <= u32::MAX,
    ensures
        a.spec_union(a) == a,
{
}

/// Uniting regions in either grouping gives the same region.
pub proof fn lemma_union_associative(a: Bounds, b: Bounds, c: Bounds)
    requires
        a.right() <= u32::MAX,
        a.bottom() <= u32::MAX,
        b.right() <= u32::MAX,
        b.bottom() <= u32::MAX,
        c.right() <= u32::MAX,
        c.bottom() <= u32::MAX,
    ensures
        a.spec_union(b).spec_union(c) == a.spec_union(b.spec_union(c)),
{
}

/// The changed region after blitting into `region`: the union with what had changed before.
pub open spec fn dirty_after_blit(dirty: Option<Bounds>, region: Bounds) -> Bounds {
    match dirty {
        Some(o) => o.spec_union(region),
        None => region,
    }
}

/// After a blit, the changed region covers the blitted region and everything that had
/// changed before.
pub proof fn lemma_dirty_covers(dirty: Option<Bounds>, region: Bounds)
    requires
        region.right() <= u32::MAX,
        region.bottom() <= u32::MAX,
        dirty matches Some(o) ==> o.right() <= u32::MAX && o.bottom() <= u32::MAX,
    ensures
        within(region, dirty_after_blit(dirty, region)),
        dirty matches Some(o) ==> within(o, dirty_after_blit(dirty, region)),
{
}

/// `dst` with the `n` bytes starting at `dst_start` replaced by the `n` bytes of `src`
/// starting at `src_start`.
pub open spec fn copied(dst: Seq<u8>, dst_start: int, src: Seq<u8>, src_start: int, n: int) -> Seq<u8> {
    Seq::new(
        dst.len(),
        |i: int|
            if dst_start <= i < dst_start + n {
                src[src_start + (i - dst_start)]
            } else {
                dst[i]
            },
    )
}

/// Whether byte `i` of a row-major buffer with `stride` bytes per row lies in the
/// rectangle whose rows are `y..y + rows` and whose bytes within a row are `x_byte..x_byte + row_bytes`.
pub open spec fn in_rect(stride: int, x_byte: int, y: int, row_bytes: int, rows: int, i: int) -> bool {
    &&& y <= i / stride < y + rows
    &&& x_byte <= i % stride < x_byte + row_bytes
}

/// The buffer `pixels` after the rectangle described as in [`in_rect`] has been overwritten,
/// row by row, with the tightly packed bytes of `src`.
pub open spec fn blitted(
    pixels: Seq<u8>,
    stride: int,
    x_byte: int,
    y: int,
    row_bytes: int,
    rows: int,
    src: Seq<u8>,
) -> Seq<u8> {
    Seq::new(
        pixels.len(),
        |i: int|
            if in_rect(stride, x_byte, y, row_bytes, rows, i) {
                src[(i / stride - y) * row_bytes + (i % stride - x_byte)]
            } else {
                pixels[i]
            },
    )
}

/// The bytes of the rectangle described as in [`in_rect`], tightly packed row by row.
pub open spec fn rect_bytes(
    pixels: Seq<u8>,
    stride: int,
    x_byte: int,
    y: int,
    row_bytes: int,
    rows: int,
) -> Seq<u8> {
    Seq::new(
        (rows * row_bytes) as nat,
        |i: int| pixels[(y + i / row_bytes) * stride + x_byte + i % row_bytes],
    )
}

/// The bytes of `region` of a `width`-pixel-wide RGBA8 buffer, tightly packed.
pub open spec fn region_bytes(pixels: Seq<u8>, width: int, region: Bounds) -> Seq<u8> {
    rect_bytes(pixels, width * 4, region.x * 4, region.y as int, region.width * 4, region.height as int)
}

/// `pixels` of a `width`-pixel-wide RGBA8 buffer after `src` has been blitted into `region`.
pub open spec fn blitted_region(pixels: Seq<u8>, width: int, region: Bounds, src: Seq<u8>) -> Seq<u8> {
    blitted(pixels, width * 4, region.x * 4, region.y as int, region.width * 4, region.height as int, src)
}

/// Copies `n` bytes from `src[src_start..]` into `dst[dst_start..]`.
fn copy_bytes(dst: &mut [u8], dst_start: usize, src: &[u8], src_start: usize, n: usize)
    requires
        dst_start + n <= old(dst)@.len(),
        src_start + n <= src@.len(),
    ensures
        final(dst)@ == copied(old(dst)@, dst_start as int, src@, src_start as int, n as int),
{
    let ghost initial = dst@;
    let dst_len = dst.len();
    let src_len = src.len();
    let mut k: usize = 0;
    while k < n
        invariant
            k <= n,
            dst_start + n <= initial.len(),
            src_start + n <= src@.len(),
            dst@.len() == initial.len(),
            dst_len == initial.len(),
            src_len == src@.len(),
            dst@ == copied(initial, dst_start as int, src@, src_start as int, k as int),
        decreases n - k,
    {
        dst[dst_start + k] = src[src_start + k];
        k = k + 1;
        assert(dst@ =~= copied(initial, dst_start as int, src@, src_start as int, k as int));
    }
}

proof fn lemma_row_offset_bound(r: int, c: int, stride: int, h: int)
    by (nonlinear_arith)
    requires
        0 <= r < h,
        0 <= c < stride,
    ensures
        0 <= r * stride + c < h * stride,
        (r + 1) * stride <= h * stride,
{
}

proof fn lemma_mul_mono(a: int, b: int, m: int)
    by (nonlinear_arith)
    requires
        0 <= a <= b,
        0 <= m,
    ensures
        0 <= a * m <= b * m,
{
}

proof fn lemma_distribute(y: int, k: int, s: int)
    by (nonlinear_arith)
    ensures
        (y + k) * s == y * s + k * s,
        (k + 1) * s == k * s + s,
{
}

/// One more row of a blit: copying row `k` of `src` onto the partially blitted buffer.
proof fn lemma_blit_step(
    pixels: Seq<u8>,
    cur: Seq<u8>,
    stride: int,
    x_byte: int,
    y: int,
    row_bytes: int,
    k: int,
    src: Seq<u8>,
)
    requires
        cur == blitted(pixels, stride, x_byte, y, row_bytes, k, src),
        stride > 0,
        0 <= x_byte,
        0 <= row_bytes,
        x_byte + row_bytes <= stride,
        0 <= y,
        0 <= k,
    ensures
        copied(cur, (y + k) * stride + x_byte, src, k * row_bytes, row_bytes)
            == blitted(pixels, stride, x_byte, y, row_bytes, k + 1, src),
{
    let base = (y + k) * stride + x_byte;
    let lhs = copied(cur, base, src, k * row_bytes, row_bytes);
    let rhs = blitted(pixels, stride, x_byte, y, row_bytes, k + 1, src);
    assert forall|i: int| 0 <= i < lhs.len() implies lhs[i] == rhs[i] by {
        lemma_fundamental_div_mod(i, stride);
        let q = i / stride;
        let m = i % stride;
        if base <= i < base + row_bytes {
            lemma_fundamental_div_mod_converse(i, stride, y + k, x_byte + (i - base));
            assert(q == y + k);
            assert(m == x_byte + (i - base));
        } else {
            if q == y + k && x_byte <= m < x_byte + row_bytes {
                assert(i == stride * q + m);
                assert(i == (y + k) * stride + m) by (nonlinear_arith)
                    requires i == stride * q + m, q == y + k;
                assert(false);
            }
        }
    }
    assert(lhs =~= rhs);
}

/// One more row of a read: copying row `k` of the rectangle into the destination.
proof fn lemma_read_step(
    pixels: Seq<u8>,
    dst: Seq<u8>,
    cur: Seq<u8>,
    stride: int,
    x_byte: int,
    y: int,
    row_bytes: int,
    k: int,
)
    requires
        cur == rect_bytes(pixels, stride, x_byte, y, row_bytes, k) + dst.skip(k * row_bytes),
        row_bytes > 0,
        0 <= k,
        (k + 1) * row_bytes <= dst.len(),
    ensures
        copied(cur, k * row_bytes, pixels, y * stride + x_byte + k * stride, row_bytes)
            == rect_bytes(pixels, stride, x_byte, y, row_bytes, k + 1) + dst.skip((k + 1) * row_bytes),
{
    lemma_distribute(y, k, stride);
    lemma_distribute(0, k, row_bytes);
    lemma_mul_mono(k, k + 1, row_bytes);
    let lhs = copied(cur, k * row_bytes, pixels, y * stride + x_byte + k * stride, row_bytes);
    let rhs = rect_bytes(pixels, stride, x_byte, y, row_bytes, k + 1) + dst.skip((k + 1) * row_bytes);
    assert(lhs.len() == rhs.len());
    assert forall|i: int| 0 <= i < lhs.len() implies lhs[i] == rhs[i] by {
        if i < k * row_bytes {
            assert(lhs[i] == cur[i]);
        } else if i < (k + 1) * row_bytes {
            lemma_fundamental_div_mod_converse(i, row_bytes, k, i - k * row_bytes);
        } else {
        }
    }
    assert(lhs =~= rhs);
}

/// Whether two regions share no pixel.
pub open spec fn disjoint(a: Bounds, b: Bounds) -> bool {
    a.right() <= b.x || b.right() <= a.x || a.bottom() <= b.y || b.bottom() <= a.y
}

/// Whether region `a` lies inside region `b`.
pub open spec fn within(a: Bounds, b: Bounds) -> bool {
    b.x <= a.x && a.right() <= b.right() && b.y <= a.y && a.bottom() <= b.bottom()
}

/// Where byte `i` of a tightly packed rectangle lives in a row-major buffer.
proof fn lemma_region_index(stride: int, x_byte: int, y: int, row_bytes: int, rows: int, i: int)
    requires
        stride > 0,
        row_bytes > 0,
        0 <= x_byte,
        x_byte + row_bytes <= stride,
        0 <= y,
        0 <= i < rows * row_bytes,
    ensures
        ({
            let j = (y + i / row_bytes) * stride + x_byte + i % row_bytes;
            &&& 0 <= i / row_bytes < rows
            &&& 0 <= i % row_bytes < row_bytes
            &&& i == (i / row_bytes) * row_bytes + i % row_bytes
            &&& j / stride == y + i / row_bytes
            &&& j % stride == x_byte + i % row_bytes
            &&& 0 <= j < (y + rows) * stride
        }),
{
    lemma_fundamental_div_mod(i, row_bytes);
    let q = i / row_bytes;
    let m = i % row_bytes;
    assert(0 <= q < rows) by (nonlinear_arith)
        requires i == row_bytes * q + m, 0 <= m < row_bytes, 0 <= i < rows * row_bytes, row_bytes > 0;
    assert(i == q * row_bytes + m) by (nonlinear_arith)
        requires i == row_bytes * q + m;
    let j = (y + q) * stride + x_byte + m;
    lemma_fundamental_div_mod_converse(j, stride, y + q, x_byte + m);
    lemma_row_offset_bound(y + q, x_byte + m, stride, y + rows);
}

/// Reading a region right after blitting into it gives back the blitted bytes.
pub proof fn lemma_read_after_blit(pixels: Seq<u8>, width: int, region: Bounds, src: Seq<u8>)
    requires
        region.width > 0,
        region.right() <= width,
        region.bottom() * width * 4 <= pixels.len(),
        src.len() >= region.width * region.height * 4,
    ensures
        region_bytes(blitted_region(pixels, width, region, src), width, region)
            == src.take(region.width * region.height * 4),
{
    let stride = width * 4;
    let rw = region.width * 4;
    let lhs = region_bytes(blitted_region(pixels, width, region, src), width, region);
    let rhs = src.take(region.width * region.height * 4);
    assert(region.height * rw == region.width * region.height * 4) by (nonlinear_arith)
        requires rw == region.width * 4;
    assert(region.bottom() * stride == region.bottom() * width * 4) by (nonlinear_arith)
        requires stride == width * 4;
    assert forall|i: int| 0 <= i < lhs.len() implies lhs[i] == rhs[i] by {
        lemma_region_index(stride, region.x * 4, region.y as int, rw, region.height as int, i);
    }
    assert(lhs =~= rhs);
}

/// Blitting into one region leaves every region disjoint from it unchanged.
pub proof fn lemma_blit_preserves_disjoint(
    pixels: Seq<u8>,
    width: int,
    region: Bounds,
    src: Seq<u8>,
    other: Bounds,
)
    requires
        disjoint(region, other),
        other.width > 0,
        other.right() <= width,
        other.bottom() * width * 4 <= pixels.len(),
    ensures
        region_bytes(blitted_region(pixels, width, region, src), width, other)
            == region_bytes(pixels, width, other),
{
    let stride = width * 4;
    let rw = other.width * 4;
    let lhs = region_bytes(blitted_region(pixels, width, region, src), width, other);
    let rhs = region_bytes(pixels, width, other);
    assert(other.bottom() * stride == other.bottom() * width * 4) by (nonlinear_arith)
        requires stride == width * 4;
    assert forall|i: int| 0 <= i < lhs.len() implies lhs[i] == rhs[i] by {
        lemma_region_index(stride, other.x * 4, other.y as int, rw, other.height as int, i);
    }
    assert(lhs =~= rhs);
}

/// Copying the top `rows` rows of one buffer over another leaves every region inside those
/// rows reading as it did in the source buffer.
pub proof fn lemma_copy_rows_preserves(
    old_pixels: Seq<u8>,
    new_base: Seq<u8>,
    width: int,
    rows: int,
    region: Bounds,
)
    requires
        0 < width <= u32::MAX,
        0 <= rows <= u32::MAX,
        region.width > 0,
        region.right() <= width,
        region.bottom() <= rows,
        rows * width * 4 <= old_pixels.len(),
        rows * width * 4 <= new_base.len(),
    ensures
        ({
            let full = Bounds { x: 0, y: 0, width: width as u32, height: rows as u32 };
            region_bytes(
                blitted_region(new_base, width, full, region_bytes(old_pixels, width, full)),
                width,
                region,
            ) == region_bytes(old_pixels, width, region)
        }),
{
    let full = Bounds { x: 0, y: 0, width: width as u32, height: rows as u32 };
    let stride = width * 4;
    let copy = region_bytes(old_pixels, width, full);
    let lhs = region_bytes(blitted_region(new_base, width, full, copy), width, region);
    let rhs = region_bytes(old_pixels, width, region);
    let rw = region.width * 4;
    assert(rows * stride == rows * width * 4) by (nonlinear_arith)
        requires stride == width * 4;
    lemma_mul_mono(region.bottom() as int, rows, stride);
    assert(region.bottom() * stride == region.bottom() * width * 4) by (nonlinear_arith)
        requires stride == width * 4;
    assert forall|i: int| 0 <= i < lhs.len() implies lhs[i] == rhs[i] by {
        lemma_region_index(stride, region.x * 4, region.y as int, rw, region.height as int, i);
        let row = region.y + i / rw;
        let col = region.x * 4 + i % rw;
        let j = row * stride + col;
        let k = (row - 0) * stride + (col - 0);
        assert(0 <= row < rows);
        lemma_region_index(stride, 0, 0, stride, rows, k);
        lemma_fundamental_div_mod_converse(k, stride, row, col);
        lemma_row_offset_bound(row, col, stride, rows);
        assert(in_rect(stride, 0, 0, stride, rows, j));
        assert(copy[k] == old_pixels[j]);
        assert(lhs[i] == copy[k]);
    }
    assert(lhs =~= rhs);
}

/// A buffer of `n` zero bytes.
fn zeroed(n: usize) -> (v: Vec<u8>)
    ensures
        v@ == Seq::new(n as nat, |i: int| 0u8),
{
    let mut data: Vec<u8> = Vec::with_capacity(n);
    let mut k: usize = 0;
    while k < n
        invariant
            k <= n,
            data@ == Seq::new(k as nat, |i: int| 0u8),
        decreases n - k,
    {
        data.push(0u8);
        k = k + 1;
        assert(data@ =~= Seq::new(k as nat, |i: int| 0u8));
    }
    data
}

/// Blitting whole rows is one contiguous copy.
proof fn lemma_full_rows_blit(pixels: Seq<u8>, stride: int, y: int, rows: int, src: Seq<u8>)
    requires
        stride > 0,
        y >= 0,
        rows >= 0,
    ensures
        blitted(pixels, stride, 0, y, stride, rows, src) == copied(pixels, y * stride, src, 0, rows * stride),
{
    let lhs = blitted(pixels, stride, 0, y, stride, rows, src);
    let rhs = copied(pixels, y * stride, src, 0, rows * stride);
    assert forall|i: int| 0 <= i < lhs.len() implies lhs[i] == rhs[i] by {
        lemma_fundamental_div_mod(i, stride);
        let q = i / stride;
        let m = i % stride;
        assert(i == q * stride + m) by (nonlinear_arith)
            requires i == stride * q + m;
        assert((y <= q < y + rows) == (y * stride <= i < y * stride + rows * stride)) by (nonlinear_arith)
            requires i == q * stride + m, 0 <= m < stride, stride > 0;
        assert((q - y) * stride + m == i - y * stride) by (nonlinear_arith)
            requires i == q * stride + m;
    }
    assert(lhs =~= rhs);
}

/// Reading whole rows is one contiguous copy.
proof fn lemma_full_rows_read(pixels: Seq<u8>, dst: Seq<u8>, stride: int, y: int, rows: int)
    requires
        stride > 0,
        y >= 0,
        rows >= 0,
        rows * stride <= dst.len(),
    ensures
        rect_bytes(pixels, stride, 0, y, stride, rows) + dst.skip(rows * stride) == copied(
            dst,
            0,
            pixels,
            y * stride,
            rows * stride,
        ),
{
    let lhs = rect_bytes(pixels, stride, 0, y, stride, rows) + dst.skip(rows * stride);
    let rhs = copied(dst, 0, pixels, y * stride, rows * stride);
    assert(rows * stride >= 0) by (nonlinear_arith)
        requires rows >= 0, stride > 0;
    assert forall|i: int| 0 <= i < lhs.len() implies lhs[i] == rhs[i] by {
        if i < rows * stride {
            lemma_fundamental_div_mod(i, stride);
            let q = i / stride;
            let m = i % stride;
            assert((y + q) * stride + 0 + m == y * stride + i) by (nonlinear_arith)
                requires i == stride * q + m;
        }
    }
    assert(lhs =~= rhs);
}

/// The changed region after a blit of a non-empty region inside a `w` by `h` image stays
/// inside the image, with its first pixel inside the image buffer.
proof fn lemma_dirty_union_fits(dirty: Option<Bounds>, region: Bounds, w: int, h: int)
    requires
        region.width > 0,
        region.height > 0,
        region.right() <= w,
        region.bottom() <= h,
        dirty matches Some(o) ==> o.right() <= w && o.bottom() <= h && o.y * w + o.x <= w * h,
    ensures
        ({
            let u = dirty_after_blit(dirty, region);
            u.right() <= w && u.bottom() <= h && u.y * w + u.x <= w * h
        }),
{
    assert(region.y * w + region.x <= w * h) by (nonlinear_arith)
        requires region.y + 1 <= h, region.x + 1 <= w, region.y >= 0, region.x >= 0;
    if let Some(o) = dirty {
        let u = o.spec_union(region);
        assert(u.y * w + u.x <= w * h) by (nonlinear_arith)
            requires
                u.y <= o.y,
                u.x <= o.x,
                o.y * w + o.x <= w * h,
                u.y >= 0,
                u.x >= 0,
                w >= 0,
        ;
    }
}

/// A region of a texture that needs to be uploaded, with the buffer layout of the upload.
#[derive(Debug, Clone, Copy, PartialEq, Eq, Structural)]
pub struct TextureUpload {
    /// The region of the image that changed.
    pub zone: Bounds,
    /// Byte offset of the region's first pixel in the image buffer.
    pub offset: u64,
    /// Bytes per row of the image buffer.
    pub bytes_per_row: u32,
    /// Rows per image of the image buffer.
    pub rows_per_image: u32,
}

#[verifier::external_type_specification]
#[verifier::external_body]
pub struct ExImageError(::image::ImageError);

/// What decoding `bytes` as an image and converting it to RGBA8 gives: its width, its
/// height and its pixel bytes, or `None` where the bytes are not a decodable image.
pub uninterp spec fn decoded_rgba8(bytes: Seq<u8>) -> Option<(u32, u32, Seq<u8>)>;

/// Decodes `bytes` with `image::load_from_memory` (format guessed from the bytes) and
/// converts the result with `DynamicImage::to_rgba8`.
///
/// Trusted: the result is an error exactly where `decoded_rgba8` is `None`, and otherwise
/// the width, height and raw buffer of the RGBA8 image, which `decoded_rgba8` names. The
/// buffer holds at least `width * height * 4` bytes, as every `ImageBuffer` does. The
/// image has at most 512 MiB pixels: `ImageReader::decode` reserves the decoder's
/// `total_bytes` (width times height times at least one byte per pixel) against the
/// default `Limits`, whose `max_alloc` is 512 MiB, and fails when it does not fit; the
/// conversion to RGBA8 keeps the dimensions. What the decoders compute is not stated.
#[verifier::external_body]
fn decode_rgba8(bytes: &[u8]) -> (r: Result<(u32, u32, Vec<u8>), ::image::ImageError>)
    ensures
        r is Err <==> decoded_rgba8(bytes@) is None,
        r matches Ok(t) ==> decoded_rgba8(bytes@) == Some((t.0, t.1, t.2@)) && t.2@.len()
            >= t.0 * t.1 * 4 && t.0 * t.1 <= 0x2000_0000,
{
    let decoded = ::image::load_from_memory(bytes)?.to_rgba8();
    let (width, height) = decoded.dimensions();
    Ok((width, height, decoded.into_raw()))
}

/// An RGBA8 image held in memory, along with the region that changed since it was last uploaded.
#[derive(Debug, Clone)]
pub struct Image {
    pub width: u32,
    pub height: u32,
    image: Vec<u8>,
    dirty_zone: Option<Bounds>,
}

impl Image {
    /// The bytes of the image buffer.
    pub closed spec fn pixels(&self) -> Seq<u8> {
        self.image@
    }

    /// The region changed since the image was last uploaded, if any.
    pub closed spec fn dirty(&self) -> Option<Bounds> {
        self.dirty_zone
    }

    /// The width of the image in pixels.
    pub closed spec fn img_width(&self) -> u32 {
        self.width
    }

    /// The height of the image in pixels.
    pub closed spec fn img_height(&self) -> u32 {
        self.height
    }

    /// Number of bytes the image's dimensions cover.
    pub open spec fn byte_len(&self) -> int {
        self.img_width() * self.img_height() * 4
    }

    /// The image's dimensions fit in `u32` arithmetic, its buffer covers them, and its
    /// changed region lies inside it.
    pub open spec fn wf(&self) -> bool {
        &&& self.byte_len() <= u32::MAX
        &&& self.pixels().len() >= self.byte_len()
        &&& match self.dirty() {
            Some(b) => {
                &&& b.right() <= self.img_width()
                &&& b.bottom() <= self.img_height()
                &&& b.y * self.img_width() + b.x <= self.img_width() * self.img_height()
            },
            None => true,
        }
    }

    /// The width of the image in pixels.
    pub fn width(&self) -> (w: u32)
        ensures
            w == self.img_width(),
    {
        self.width
    }

    /// The height of the image in pixels.
    pub fn height(&self) -> (h: u32)
        ensures
            h == self.img_height(),
    {
        self.height
    }

    /// Creates an image with the given data, width, and height.
    /// Expects data to be RGBA8.
    pub fn new(data: Vec<u8>, width: u32, height: u32) -> (r: Result<Self, Error>)
        requires
            width * height * 4 <= u32::MAX,
        ensures
            data@.len() < width * height * 4 ==> r == Err::<Self, Error>(
                Error::ImageBufferTooSmall {
                    expected: (width * height * 4) as usize,
                    actual: data@.len() as usize,
                },
            ),
            data@.len() >= width * height * 4 ==> (r matches Ok(img) && {
                &&& img.wf()
                &&& img.img_width() == width
                &&& img.img_height() == height
                &&& img.pixels() == data@
                &&& img.dirty() == Some(Bounds { x: 0, y: 0, width, height })
            }),
    {
        let required_bytes = (width * height * 4) as usize;
        let actual_bytes = data.len();
        if actual_bytes < required_bytes {
            return Err(Error::ImageBufferTooSmall { expected: required_bytes, actual: actual_bytes });
        }
        Ok(Image { width, height, image: data, dirty_zone: Some(Bounds::new(0, 0, width, height)) })
    }

    /// Loads an image from encoded bytes (any format the decoder recognises), converted
    /// to RGBA8.
    pub fn load(bytes: &[u8]) -> (r: Result<Self, Error>)
        ensures
            match decoded_rgba8(bytes@) {
                None => r == Err::<Self, Error>(Error::ImageDecode),
                Some((w, h, px)) => r matches Ok(img) && {
                    &&& img.wf()
                    &&& img.img_width() == w
                    &&& img.img_height() == h
                    &&& img.pixels() == px
                    &&& img.dirty() == Some(Bounds { x: 0, y: 0, width: w, height: h })
                },
            },
    {
        match decode_rgba8(bytes) {
            Err(_) => Err(Error::ImageDecode),
            Ok((width, height, data)) => {
                Image::new(data, width, height)
            },
        }
    }

    /// Creates a completely transparent image with the given width and height.
    pub fn new_empty(width: u32, height: u32) -> (img: Self)
        requires
            width * height * 4 <= u32::MAX,
        ensures
            img.wf(),
            img.img_width() == width,
            img.img_height() == height,
            img.pixels() == Seq::new((width * height * 4) as nat, |i: int| 0u8),
            img.dirty() == Some(Bounds { x: 0, y: 0, width, height }),
    {
        let data = zeroed((width * height * 4) as usize);
        Image { width, height, image: data, dirty_zone: Some(Bounds::new(0, 0, width, height)) }
    }

    /// The bytes of the image buffer.
    pub fn bytes(&self) -> (b: &[u8])
        ensures
            b@ == self.pixels(),
    {
        self.image.as_slice()
    }

    /// The region changed since the image was last uploaded, if any.
    pub fn dirty_zone(&self) -> (d: Option<Bounds>)
        ensures
            d == self.dirty(),
    {
        self.dirty_zone
    }

    /// Copies raw RGBA8 pixel data into this image at the given destination position.
    ///
    /// `src_data` must be at least `src_width * src_height * 4` bytes. The destination
    /// rectangle must fit entirely within the image bounds.
    pub fn blit(
        &mut self,
        dst_x: u32,
        dst_y: u32,
        src_width: u32,
        src_height: u32,
        src_data: &[u8],
    ) -> (r: Result<(), Error>)
        requires
            old(self).wf(),
            src_width == 0 || src_height == 0 || (dst_x + src_width <= u32::MAX && dst_y
                + src_height <= u32::MAX),
        ensures
            final(self).wf(),
            final(self).img_width() == old(self).img_width(),
            final(self).img_height() == old(self).img_height(),
            src_width == 0 || src_height == 0 ==> r is Ok && *final(self) == *old(self),
            src_width != 0 && src_height != 0 && (dst_x + src_width > old(self).img_width() || dst_y
                + src_height > old(self).img_height()) ==> r == Err::<(), Error>(
                Error::BlitOutOfBounds {
                    x: dst_x,
                    y: dst_y,
                    width: src_width,
                    height: src_height,
                    img_width: old(self).img_width(),
                    img_height: old(self).img_height(),
                },
            ) && *final(self) == *old(self),
            src_width != 0 && src_height != 0 && dst_x + src_width <= old(self).img_width() && dst_y
                + src_height <= old(self).img_height() && src_data@.len() < src_width * src_height * 4
                ==> r == Err::<(), Error>(
                Error::BlitBufferTooSmall {
                    expected: (src_width * src_height * 4) as usize,
                    actual: src_data@.len() as usize,
                },
            ) && *final(self) == *old(self),
            src_width != 0 && src_height != 0 && dst_x + src_width <= old(self).img_width() && dst_y
                + src_height <= old(self).img_height() && src_data@.len() >= src_width * src_height * 4
                ==> {
                let region = Bounds { x: dst_x, y: dst_y, width: src_width, height: src_height };
                &&& r is Ok
                &&& final(self).pixels() == blitted_region(
                    old(self).pixels(),
                    old(self).img_width() as int,
                    region,
                    src_data@,
                )
                &&& final(self).dirty() == Some(dirty_after_blit(old(self).dirty(), region))
            },
    {
        if src_width == 0 || src_height == 0 {
            return Ok(());
        }
        if dst_x + src_width > self.width || dst_y + src_height > self.height {
            return Err(
                Error::BlitOutOfBounds {
                    x: dst_x,
                    y: dst_y,
                    width: src_width,
                    height: src_height,
                    img_width: self.width,
                    img_height: self.height,
                },
            );
        }
        let ghost w = self.width as int;
        let ghost h = self.height as int;
        proof {
            lemma_mul_mono(src_width as int, w, 4);
            lemma_mul_mono(1, h, w * 4);
            lemma_mul_mono(src_height as int, h, src_width * 4);
            lemma_mul_mono(src_width as int, w, h * 4);
            assert(src_width * src_height * 4 == src_height * (src_width * 4)) by (nonlinear_arith);
            assert(w * h * 4 == h * (w * 4)) by (nonlinear_arith);
            assert(w * 4 * h == h * (w * 4)) by (nonlinear_arith);
            assert(src_height * (src_width * 4) <= h * (src_width * 4)) by (nonlinear_arith)
                requires src_height <= h, src_width >= 0;
            assert(h * (src_width * 4) <= h * (w * 4)) by (nonlinear_arith)
                requires src_width <= w, h >= 0;
        }
        let row_bytes = (src_width * 4) as usize;
        let required_bytes = src_height as usize * row_bytes;
        if src_data.len() < required_bytes {
            return Err(Error::BlitBufferTooSmall { expected: required_bytes, actual: src_data.len() });
        }
        let dst_stride = (self.width * 4) as usize;
        let dst_x_byte = (dst_x * 4) as usize;
        proof {
            lemma_mul_mono(dst_y as int, h - 1, w * 4);
            assert((dst_y * w) * 4 == dst_y * (w * 4)) by (nonlinear_arith);
            assert((h - 1) * (w * 4) <= w * h * 4) by (nonlinear_arith)
                requires h >= 1, w >= 0;
        }
        let dst_start_byte = ((dst_y * self.width) * 4) as usize;
        let ghost pixels = self.image@;
        let ghost stride = w * 4;
        let rows = src_height as usize;
        if src_width == self.width && dst_x == 0 {
            proof {
                lemma_full_rows_blit(pixels, stride, dst_y as int, rows as int, src_data@);
                lemma_mul_mono(dst_y + rows, h, stride);
                lemma_distribute(dst_y as int, rows as int, stride);
                assert(rows * row_bytes == rows * stride);
            }
            copy_bytes(self.image.as_mut_slice(), dst_start_byte, src_data, 0, required_bytes);
            let new_bounds = Bounds::new(dst_x, dst_y, src_width, src_height);
            proof {
                lemma_dirty_union_fits(self.dirty_zone, new_bounds, w, h);
            }
            self.dirty_zone = match self.dirty_zone {
                Some(old) => Some(old.union(new_bounds)),
                None => Some(new_bounds),
            };
            return Ok(());
        }
        let mut r: usize = 0;
        assert(self.image@ =~= blitted(pixels, stride, dst_x * 4, dst_y as int, row_bytes as int, 0, src_data@));
        while r < rows
            invariant
                r <= rows,
                rows == src_height,
                w == self.width,
                h == self.height,
                stride == w * 4,
                dst_stride == stride,
                dst_x_byte == dst_x * 4,
                row_bytes == src_width * 4,
                src_width > 0,
                dst_start_byte == dst_y * stride,
                dst_x + src_width <= w,
                dst_y + src_height <= h,
                w * h * 4 <= u32::MAX,
                pixels.len() >= w * h * 4,
                h * stride == w * h * 4,
                src_data@.len() >= rows * row_bytes,
                rows * row_bytes <= w * h * 4,
                self.dirty_zone == old(self).dirty_zone,
                old(self).wf(),
                self.image@ == blitted(pixels, stride, dst_x * 4, dst_y as int, row_bytes as int, r as int, src_data@),
            decreases rows - r,
        {
            proof {
                lemma_row_offset_bound(dst_y + r, dst_x * 4 + row_bytes - 1, stride, h);
                lemma_distribute(dst_y as int, r as int, stride);
                lemma_distribute(0, r as int, row_bytes as int);
                lemma_mul_mono(r + 1, rows as int, row_bytes as int);
                lemma_mul_mono(r as int, h, stride);
                assert((dst_y + r) * stride + dst_x * 4 + row_bytes <= h * stride);
            }
            let dst_off = dst_start_byte + r * dst_stride + dst_x_byte;
            let src_off = r * row_bytes;
            proof {
                lemma_blit_step(pixels, self.image@, stride, dst_x * 4, dst_y as int, row_bytes as int, r as int, src_data@);
            }
            copy_bytes(self.image.as_mut_slice(), dst_off, src_data, src_off, row_bytes);
            r = r + 1;
        }
        let new_bounds = Bounds::new(dst_x, dst_y, src_width, src_height);
        proof {
            lemma_dirty_union_fits(self.dirty_zone, new_bounds, w, h);
        }
        self.dirty_zone = match self.dirty_zone {
            Some(old) => Some(old.union(new_bounds)),
            None => Some(new_bounds),
        };
        Ok(())
    }

    /// Reads a rectangular region of this image into `dst` as raw RGBA8 pixel data.
    ///
    /// `dst` must be at least `bounds.width * bounds.height * 4` bytes. The requested
    /// region must fit entirely within the image bounds.
    pub fn read_rect(&self, bounds: Bounds, dst: &mut [u8]) -> (r: Result<(), Error>)
        requires
            self.wf(),
            bounds.width == 0 || bounds.height == 0 || (bounds.right() <= u32::MAX
                && bounds.bottom() <= u32::MAX),
        ensures
            bounds.width == 0 || bounds.height == 0 ==> r is Ok && final(dst)@ == old(dst)@,
            bounds.width != 0 && bounds.height != 0 && (bounds.right() > self.img_width()
                || bounds.bottom() > self.img_height()) ==> r == Err::<(), Error>(
                Error::ReadOutOfBounds {
                    x: bounds.x,
                    y: bounds.y,
                    width: bounds.width,
                    height: bounds.height,
                    img_width: self.img_width(),
                    img_height: self.img_height(),
                },
            ) && final(dst)@ == old(dst)@,
            bounds.width != 0 && bounds.height != 0 && bounds.right() <= self.img_width()
                && bounds.bottom() <= self.img_height() && old(dst)@.len() < bounds.width
                * bounds.height * 4 ==> r == Err::<(), Error>(
                Error::ReadBufferTooSmall {
                    expected: (bounds.width * bounds.height * 4) as usize,
                    actual: old(dst)@.len() as usize,
                },
            ) && final(dst)@ == old(dst)@,
            bounds.width != 0 && bounds.height != 0 && bounds.right() <= self.img_width()
                && bounds.bottom() <= self.img_height() && old(dst)@.len() >= bounds.width
                * bounds.height * 4 ==> r is Ok && final(dst)@ == region_bytes(
                self.pixels(),
                self.img_width() as int,
                bounds,
            ) + old(dst)@.skip(bounds.width * bounds.height * 4),
    {
        if bounds.width == 0 || bounds.height == 0 {
            return Ok(());
        }
        if bounds.x + bounds.width > self.width || bounds.y + bounds.height > self.height {
            return Err(
                Error::ReadOutOfBounds {
                    x: bounds.x,
                    y: bounds.y,
                    width: bounds.width,
                    height: bounds.height,
                    img_width: self.width,
                    img_height: self.height,
                },
            );
        }
        let ghost w = self.width as int;
        let ghost h = self.height as int;
        let ghost bw = bounds.width as int;
        let ghost bh = bounds.height as int;
        proof {
            lemma_mul_mono(bw, w, 4);
            lemma_mul_mono(1, h, w * 4);
            assert(bw * bh * 4 == bh * (bw * 4)) by (nonlinear_arith);
            assert(w * h * 4 == h * (w * 4)) by (nonlinear_arith);
            assert(bh * (bw * 4) <= h * (bw * 4)) by (nonlinear_arith)
                requires bh <= h, bw >= 0;
            assert(h * (bw * 4) <= h * (w * 4)) by (nonlinear_arith)
                requires bw <= w, h >= 0;
        }
        let row_bytes = (bounds.width * 4) as usize;
        let required_bytes = bounds.height as usize * row_bytes;
        if dst.len() < required_bytes {
            return Err(Error::ReadBufferTooSmall { expected: required_bytes, actual: dst.len() });
        }
        proof {
            assert(bounds.y * w + bounds.x <= w * h) by (nonlinear_arith)
                requires bounds.y + 1 <= h, bounds.x + 1 <= w, bounds.y >= 0, bounds.x >= 0;
            assert((bounds.y * w + bounds.x) * 4 == bounds.y * (w * 4) + bounds.x * 4) by (nonlinear_arith);
        }
        let start_byte = ((bounds.y * self.width + bounds.x) * 4) as usize;
        let src_stride = (self.width * 4) as usize;
        let ghost pixels = self.image@;
        let ghost stride = w * 4;
        let ghost initial = dst@;
        let image_ref = self.image.as_slice();
        let rows = bounds.height as usize;
        if bounds.width == self.width {
            proof {
                lemma_full_rows_read(pixels, initial, stride, bounds.y as int, rows as int);
                lemma_mul_mono(bounds.y + rows, h, stride);
                lemma_distribute(bounds.y as int, rows as int, stride);
                assert(rows * row_bytes == rows * stride);
            }
            copy_bytes(dst, 0, image_ref, start_byte, required_bytes);
            return Ok(());
        }
        let mut k: usize = 0;
        assert(dst@ =~= rect_bytes(pixels, stride, bounds.x * 4, bounds.y as int, row_bytes as int, 0)
            + initial.skip(0));
        while k < rows
            invariant
                k <= rows,
                rows == bh,
                image_ref@ == pixels,
                pixels.len() >= w * h * 4,
                w * h * 4 <= u32::MAX,
                h * stride == w * h * 4,
                stride == w * 4,
                src_stride == stride,
                row_bytes == bw * 4,
                bw > 0,
                bounds.x + bw <= w,
                bounds.y + bh <= h,
                start_byte == bounds.y * stride + bounds.x * 4,
                initial.len() >= rows * row_bytes,
                rows * row_bytes <= w * h * 4,
                dst@ == rect_bytes(pixels, stride, bounds.x * 4, bounds.y as int, row_bytes as int, k as int)
                    + initial.skip(k * row_bytes),
            decreases rows - k,
        {
            proof {
                lemma_row_offset_bound(bounds.y + k, bounds.x * 4 + row_bytes - 1, stride, h);
                lemma_distribute(bounds.y as int, k as int, stride);
                lemma_distribute(0, k as int, row_bytes as int);
                lemma_mul_mono(k + 1, rows as int, row_bytes as int);
                lemma_mul_mono(k as int, h, stride);
                lemma_read_step(pixels, initial, dst@, stride, bounds.x * 4, bounds.y as int, row_bytes as int, k as int);
            }
            copy_bytes(dst, k * row_bytes, image_ref, start_byte + k * src_stride, row_bytes);
            k = k + 1;
        }
        Ok(())
    }

    /// Returns a rectangular region of this image as a `Vec<u8>` of raw RGBA8 pixel data.
    ///
    /// This is a convenience wrapper around [`Image::read_rect`] that allocates the buffer.
    /// The requested region must fit entirely within the image bounds.
    pub fn get_rect(&self, bounds: Bounds) -> (r: Result<Vec<u8>, Error>)
        requires
            self.wf(),
            bounds.width * bounds.height * 4 <= u32::MAX,
            bounds.width == 0 || bounds.height == 0 || (bounds.right() <= u32::MAX
                && bounds.bottom() <= u32::MAX),
        ensures
            bounds.width != 0 && bounds.height != 0 && (bounds.right() > self.img_width()
                || bounds.bottom() > self.img_height()) ==> r == Err::<Vec<u8>, Error>(
                Error::ReadOutOfBounds {
                    x: bounds.x,
                    y: bounds.y,
                    width: bounds.width,
                    height: bounds.height,
                    img_width: self.img_width(),
                    img_height: self.img_height(),
                },
            ),
            bounds.width == 0 || bounds.height == 0 || (bounds.right() <= self.img_width()
                && bounds.bottom() <= self.img_height()) ==> (r matches Ok(v) && v@ == region_bytes(
                self.pixels(),
                self.img_width() as int,
                bounds,
            )),
    {
        let size = (bounds.width * bounds.height * 4) as usize;
        proof {
            assert(bounds.height * (bounds.width * 4) == bounds.width * bounds.height * 4) by (nonlinear_arith);
            if bounds.width == 0 || bounds.height == 0 {
                assert(bounds.width * bounds.height * 4 == 0) by (nonlinear_arith)
                    requires bounds.width == 0 || bounds.height == 0;
            }
        }
        let mut buffer = zeroed(size);
        let res = self.read_rect(bounds, buffer.as_mut_slice());
        match res {
            Ok(()) => {
                assert(buffer@.len() == size);
                assert(buffer@ =~= region_bytes(self.pixels(), self.img_width() as int, bounds));
                Ok(buffer)
            },
            Err(e) => Err(e),
        }
    }

    /// Copies a rectangular region from another image into this image at the given position.
    ///
    /// `src_bounds` defines the region to copy from `src`. The copied rectangle must fit entirely
    /// within this image's bounds.
    pub fn blit_image(&mut self, dst_x: u32, dst_y: u32, src: Image, src_bounds: Bounds) -> (r: Result<(), Error>)
        requires
            old(self).wf(),
            src.wf(),
            src_bounds.width * src_bounds.height * 4 <= u32::MAX,
            src_bounds.width == 0 || src_bounds.height == 0 || (src_bounds.right() <= u32::MAX
                && src_bounds.bottom() <= u32::MAX && dst_x + src_bounds.width <= u32::MAX
                && dst_y + src_bounds.height <= u32::MAX),
        ensures
            final(self).wf(),
            final(self).img_width() == old(self).img_width(),
            final(self).img_height() == old(self).img_height(),
            src_bounds.width == 0 || src_bounds.height == 0 ==> r is Ok && *final(self) == *old(self),
            src_bounds.width != 0 && src_bounds.height != 0 && (src_bounds.right() > src.img_width()
                || src_bounds.bottom() > src.img_height()) ==> r == Err::<(), Error>(
                Error::ReadOutOfBounds {
                    x: src_bounds.x,
                    y: src_bounds.y,
                    width: src_bounds.width,
                    height: src_bounds.height,
                    img_width: src.img_width(),
                    img_height: src.img_height(),
                },
            ) && *final(self) == *old(self),
            src_bounds.width != 0 && src_bounds.height != 0 && src_bounds.right() <= src.img_width()
                && src_bounds.bottom() <= src.img_height() && (dst_x + src_bounds.width
                > old(self).img_width() || dst_y + src_bounds.height > old(self).img_height())
                ==> r == Err::<(), Error>(
                Error::BlitOutOfBounds {
                    x: dst_x,
                    y: dst_y,
                    width: src_bounds.width,
                    height: src_bounds.height,
                    img_width: old(self).img_width(),
                    img_height: old(self).img_height(),
                },
            ) && *final(self) == *old(self),
            src_bounds.width != 0 && src_bounds.height != 0 && src_bounds.right() <= src.img_width()
                && src_bounds.bottom() <= src.img_height() && dst_x + src_bounds.width
                <= old(self).img_width() && dst_y + src_bounds.height <= old(self).img_height() ==> {
                let region = Bounds { x: dst_x, y: dst_y, width: src_bounds.width, height: src_bounds.height };
                &&& r is Ok
                &&& final(self).pixels() == blitted_region(
                    old(self).pixels(),
                    old(self).img_width() as int,
                    region,
                    region_bytes(src.pixels(), src.img_width() as int, src_bounds),
                )
                &&& final(self).dirty() == Some(dirty_after_blit(old(self).dirty(), region))
            },
    {
        let data = match src.get_rect(src_bounds) {
            Ok(d) => d,
            Err(e) => {
                return Err(e);
            },
        };
        proof {
            assert(src_bounds.width * src_bounds.height * 4 == (src_bounds.height * (src_bounds.width * 4)))
                by (nonlinear_arith);
        }
        match self.blit(dst_x, dst_y, src_bounds.width, src_bounds.height, data.as_slice()) {
            Ok(()) => Ok(()),
            Err(e) => Err(e),
        }
    }

    /// Takes the region changed since the last upload, together with the buffer layout an
    /// upload of it needs, and marks the image as uploaded.
    pub fn take_upload(&mut self) -> (u: Option<TextureUpload>)
        requires
            old(self).wf(),
            old(self).dirty() is Some ==> old(self).img_width() * 4 <= u32::MAX,
        ensures
            final(self).wf(),
            final(self).img_width() == old(self).img_width(),
            final(self).img_height() == old(self).img_height(),
            final(self).pixels() == old(self).pixels(),
            final(self).dirty() is None,
            match old(self).dirty() {
                None => u is None,
                Some(zone) => u == Some(
                    TextureUpload {
                        zone,
                        offset: ((zone.y * old(self).img_width() + zone.x) * 4) as u64,
                        bytes_per_row: (old(self).img_width() * 4) as u32,
                        rows_per_image: old(self).img_height(),
                    },
                ),
            },
    {
        match self.dirty_zone {
            None => None,
            Some(zone) => {
                self.dirty_zone = None;
                let offset = ((zone.y * self.width + zone.x) * 4) as u64;
                Some(
                    TextureUpload {
                        zone,
                        offset,
                        bytes_per_row: 4 * self.width,
                        rows_per_image: self.height,
                    },
                )
            },
        }
    }
}

} // verus!
