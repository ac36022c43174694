use vstd::prelude::*;

verus! {

/// A raster image: `width * height` pixels stored row-major as four
/// bytes each (red, green, blue, alpha, in that order).
pub struct PixelBuffer {
    pub width: u32,
    pub height: u32,
    pub data: Vec<u8>,
}

/// The flat byte index of channel `c` of pixel `i` stays within a buffer
/// of `w * h` pixels.
pub proof fn lemma_chan_index(w: int, h: int, i: int, c: int)
    requires
        0 <= i < w * h,
        0 <= c < 4,
    ensures
        0 <= 4 * i + c < 4 * (w * h),
{
    assert(0 <= 4 * i + c < 4 * (w * h)) by (nonlinear_arith)
        requires
            0 <= i < w * h,
            0 <= c < 4,
    ;
}

/// A coordinate pair within the canvas gives a flat index within the
/// pixel count.
pub proof fn lemma_rc_index(w: int, h: int, x: int, y: int)
    requires
        0 <= x < w,
        0 <= y < h,
    ensures
        0 <= y * w + x < w * h,
{
    assert(0 <= y * w + x < w * h) by (nonlinear_arith)
        requires
            0 <= x < w,
            0 <= y < h,
    ;
}

/// Bounded dimensions keep every byte index of the buffer within `usize`.
pub proof fn lemma_dims_bounded(w: int, h: int)
    requires
        1 <= w <= 0x4000,
        1 <= h <= 0x4000,
    ensures
        1 <= w * h <= 0x1000_0000,
{
    assert(1 <= w * h <= 0x1000_0000) by (nonlinear_arith)
        requires
            1 <= w <= 0x4000,
            1 <= h <= 0x4000,
    ;
}

impl PixelBuffer {
    /// Well-formedness: positive, bounded dimensions and a byte vector of
    /// exactly four bytes per pixel.
    pub open spec fn wf(self) -> bool {
        &&& 1 <= self.width <= 0x4000
        &&& 1 <= self.height <= 0x4000
        &&& self.data@.len() == 4 * (self.width * self.height)
    }

    /// The number of pixels.
    pub open spec fn spec_pixel_count(self) -> int {
        self.width * self.height
    }

    /// Channel `c` (0 = red .. 3 = alpha) of the pixel at flat index `i`.
    pub open spec fn chan(self, i: int, c: int) -> u8 {
        self.data@[4 * i + c]
    }

    pub fn pixel_count(&self) -> (n: usize)
        requires
            self.wf(),
        ensures
            n == self.spec_pixel_count(),
            4 * n == self.data@.len(),
    {
        let w = self.width as usize;
        let h = self.height as usize;
        proof {
            lemma_dims_bounded(w as int, h as int);
        }
        w * h
    }

    /// Reads channel `c` of the pixel at flat index `i`.
    pub fn get(&self, i: usize, c: usize) -> (v: u8)
        requires
            self.wf(),
            i < self.spec_pixel_count(),
            c < 4,
        ensures
            v == self.chan(i as int, c as int),
    {
        proof {
            lemma_dims_bounded(self.width as int, self.height as int);
            lemma_chan_index(self.width as int, self.height as int, i as int, c as int);
        }
        self.data[4 * i + c]
    }

    /// A fully transparent black image of the given dimensions.
    pub fn blank(width: u32, height: u32) -> (r: PixelBuffer)
        requires
            1 <= width <= 0x4000,
            1 <= height <= 0x4000,
        ensures
            r.wf(),
            r.width == width,
            r.height == height,
            forall|i: int, c: int| 0 <= i < r.spec_pixel_count() && 0 <= c < 4
                ==> r.chan(i, c) == 0,
    {
        let w = width as usize;
        let h = height as usize;
        proof {
            lemma_dims_bounded(w as int, h as int);
        }
        let n = w * h;
        let mut data: Vec<u8> = Vec::new();
        let mut k: usize = 0;
        while k < 4 * n
            invariant
                k <= 4 * n,
                n <= 0x1000_0000,
                data@.len() == k,
                forall|j: int| 0 <= j < k ==> data@[j] == 0,
            decreases 4 * n - k,
        {
            data.push(0u8);
            k = k + 1;
        }
        let r = PixelBuffer { width, height, data };
        assert forall|i: int, c: int|
            0 <= i < r.spec_pixel_count() && 0 <= c < 4 implies r.chan(i, c) == 0 by {
            lemma_chan_index(width as int, height as int, i, c);
        }
        r
    }
}

/// Undoes alpha premultiplication of one channel, rounding to nearest:
/// `c * 255 / a`, clamped into a byte; zero when the alpha is zero.
pub open spec fn demul_chan(c: u8, a: u8) -> int {
    if a == 0 {
        0
    } else {
        crate::util::clamp_spec((510 * c + a) / (2 * a), 0, 255)
    }
}

/// The grayscale weight of demultiplied channels, by the standard luma
/// weighting 0.299 R + 0.587 G + 0.114 B in thousandths.
pub open spec fn luma_of(r: int, g: int, b: int) -> int {
    (299 * r + 587 * g + 114 * b) / 1000
}

/// The luma of pixel `i` of a buffer, computed on the demultiplied
/// channels.
pub open spec fn pixel_luma(buf: PixelBuffer, i: int) -> int {
    luma_of(
        demul_chan(buf.chan(i, 0), buf.chan(i, 3)),
        demul_chan(buf.chan(i, 1), buf.chan(i, 3)),
        demul_chan(buf.chan(i, 2), buf.chan(i, 3)),
    )
}

/// The sum of pixel lumas over the first `n` pixels.
pub open spec fn luma_upto(buf: PixelBuffer, n: int) -> int
    decreases n,
{
    if n <= 0 {
        0
    } else {
        luma_upto(buf, n - 1) + pixel_luma(buf, n - 1)
    }
}

/// The total luma of a buffer; an importance mask needs this positive.
pub open spec fn total_luma(buf: PixelBuffer) -> int {
    luma_upto(buf, buf.spec_pixel_count())
}

/// Each pixel luma lies in `[0, 255]`.
pub proof fn lemma_pixel_luma_bound(buf: PixelBuffer, i: int)
    ensures
        0 <= pixel_luma(buf, i) <= 255,
{
}

/// Partial luma sums lie in `[0, 255 * n]`.
pub proof fn lemma_luma_upto_bound(buf: PixelBuffer, n: int)
    ensures
        0 <= luma_upto(buf, n) <= if n <= 0 { 0int } else { 255 * n },
    decreases n,
{
    if n > 0 {
        lemma_luma_upto_bound(buf, n - 1);
        lemma_pixel_luma_bound(buf, n - 1);
    }
}

/// Undoes alpha premultiplication of one channel value.
pub fn demultiply_channel(c: u8, a: u8) -> (r: u8)
    ensures
        r as int == demul_chan(c, a),
{
    if a == 0 {
        0
    } else {
        let v = (510 * (c as u32) + a as u32) / (2 * (a as u32));
        if v > 255 {
            255
        } else {
            v as u8
        }
    }
}

/// The luma of pixel `i` of a buffer, on demultiplied channels.
pub fn pixel_luma_at(buf: &PixelBuffer, i: usize) -> (v: u8)
    requires
        buf.wf(),
        i < buf.spec_pixel_count(),
    ensures
        v as int == pixel_luma(*buf, i as int),
{
    let a = buf.get(i, 3);
    let r = demultiply_channel(buf.get(i, 0), a) as u32;
    let g = demultiply_channel(buf.get(i, 1), a) as u32;
    let b = demultiply_channel(buf.get(i, 2), a) as u32;
    ((299 * r + 587 * g + 114 * b) / 1000) as u8
}

/// A gray pixel with full alpha has exactly its gray value as luma:
/// demultiplication by a full alpha is the identity, and the luma
/// weights sum to one.
pub proof fn lemma_uniform_gray_luma(buf: PixelBuffer, i: int)
    requires
        buf.chan(i, 1) == buf.chan(i, 0),
        buf.chan(i, 2) == buf.chan(i, 0),
        buf.chan(i, 3) == 255,
    ensures
        pixel_luma(buf, i) == buf.chan(i, 0),
{
    let g = buf.chan(i, 0) as int;
    assert((510 * g + 255) / 510 == g);
    assert(demul_chan(buf.chan(i, 0), buf.chan(i, 3)) == g);
    assert((299 * g + 587 * g + 114 * g) / 1000 == g);
}

/// The total luma of a buffer; a positive total is what qualifies the
/// buffer as a source for an importance mask.
pub fn total_gray(buf: &PixelBuffer) -> (t: u64)
    requires
        buf.wf(),
    ensures
        t == total_luma(*buf),
{
    let n = buf.pixel_count();
    proof {
        lemma_dims_bounded(buf.width as int, buf.height as int);
    }
    let mut sum: u64 = 0;
    let mut i: usize = 0;
    while i < n
        invariant
            i <= n,
            n == buf.spec_pixel_count(),
            n <= 0x1000_0000,
            buf.wf(),
            sum == luma_upto(*buf, i as int),
            sum <= 255 * i,
        decreases n - i,
    {
        sum = sum + pixel_luma_at(buf, i) as u64;
        i = i + 1;
    }
    sum
}

/// The per-pixel grayscale difference of two equal-sized buffers: the
/// mean of the absolute demultiplied channel differences.
pub open spec fn heat_gray(a: PixelBuffer, b: PixelBuffer, i: int) -> int {
    let dr = abs_diff(
        demul_chan(a.chan(i, 0), a.chan(i, 3)),
        demul_chan(b.chan(i, 0), b.chan(i, 3)),
    );
    let dg = abs_diff(
        demul_chan(a.chan(i, 1), a.chan(i, 3)),
        demul_chan(b.chan(i, 1), b.chan(i, 3)),
    );
    let db = abs_diff(
        demul_chan(a.chan(i, 2), a.chan(i, 3)),
        demul_chan(b.chan(i, 2), b.chan(i, 3)),
    );
    (dr + dg + db) / 3
}

/// The absolute difference of two numbers.
pub open spec fn abs_diff(x: int, y: int) -> int {
    if x >= y {
        x - y
    } else {
        y - x
    }
}

/// `r` holds, pixel for pixel, the grayscale difference of `p1` and
/// `p2` in all three color channels, with full alpha.
pub open spec fn is_heat_of(p1: PixelBuffer, p2: PixelBuffer, r: PixelBuffer) -> bool {
    forall|i: int| 0 <= i < r.spec_pixel_count() ==> {
        &&& #[trigger] r.chan(i, 0) == heat_gray(p1, p2, i)
        &&& r.chan(i, 1) == heat_gray(p1, p2, i)
        &&& r.chan(i, 2) == heat_gray(p1, p2, i)
        &&& r.chan(i, 3) == 255
    }
}

/// A grayscale heatmap of where two equal-sized images differ: each
/// output pixel holds the mean absolute channel difference in all three
/// color channels, with full alpha.  Bright regions mark mismatch.
pub fn abs_diff_graylevel_heatmap(pixmap1: &PixelBuffer, pixmap2: &PixelBuffer) -> (r:
    PixelBuffer)
    requires
        pixmap1.wf(),
        pixmap2.wf(),
        pixmap1.width == pixmap2.width,
        pixmap1.height == pixmap2.height,
    ensures
        r.wf(),
        r.width == pixmap1.width,
        r.height == pixmap1.height,
        is_heat_of(*pixmap1, *pixmap2, r),
{
    let n = pixmap1.pixel_count();
    proof {
        lemma_dims_bounded(pixmap1.width as int, pixmap1.height as int);
    }
    let mut data: Vec<u8> = Vec::new();
    let mut i: usize = 0;
    while i < n
        invariant
            i <= n,
            n == pixmap1.spec_pixel_count(),
            n <= 0x1000_0000,
            pixmap1.wf(),
            pixmap2.wf(),
            pixmap1.width == pixmap2.width,
            pixmap1.height == pixmap2.height,
            data@.len() == 4 * i,
            forall|j: int| 0 <= j < i ==> {
                &&& #[trigger] data@[4 * j] == heat_gray(*pixmap1, *pixmap2, j)
                &&& data@[4 * j + 1] == heat_gray(*pixmap1, *pixmap2, j)
                &&& data@[4 * j + 2] == heat_gray(*pixmap1, *pixmap2, j)
                &&& data@[4 * j + 3] == 255
            },
        decreases n - i,
    {
        let a3 = pixmap1.get(i, 3);
        let b3 = pixmap2.get(i, 3);
        let dr = channel_abs_diff(pixmap1.get(i, 0), a3, pixmap2.get(i, 0), b3);
        let dg = channel_abs_diff(pixmap1.get(i, 1), a3, pixmap2.get(i, 1), b3);
        let db = channel_abs_diff(pixmap1.get(i, 2), a3, pixmap2.get(i, 2), b3);
        let gray = ((dr as u32 + dg as u32 + db as u32) / 3) as u8;
        let ghost pre = data@;
        push_pixel(&mut data, gray, gray, gray, 255);
        proof {
            assert(gray == heat_gray(*pixmap1, *pixmap2, i as int));
            assert forall|j: int| 0 <= j < i + 1 implies {
                &&& #[trigger] data@[4 * j] == heat_gray(*pixmap1, *pixmap2, j)
                &&& data@[4 * j + 1] == heat_gray(*pixmap1, *pixmap2, j)
                &&& data@[4 * j + 2] == heat_gray(*pixmap1, *pixmap2, j)
                &&& data@[4 * j + 3] == 255
            } by {
                if j < i {
                    assert(0 <= 4 * j && 4 * j + 3 < pre.len());
                    assert(data@[4 * j] == pre[4 * j]);
                    assert(data@[4 * j + 1] == pre[4 * j + 1]);
                    assert(data@[4 * j + 2] == pre[4 * j + 2]);
                    assert(data@[4 * j + 3] == pre[4 * j + 3]);
                } else {
                    assert(4 * j == pre.len());
                    assert(data@[4 * j] == gray);
                    assert(data@[4 * j + 1] == gray);
                    assert(data@[4 * j + 2] == gray);
                    assert(data@[4 * j + 3] == 255);
                }
            }
        }
        i = i + 1;
    }
    let r = PixelBuffer { width: pixmap1.width, height: pixmap1.height, data };
    proof {
        assert forall|i: int| 0 <= i < r.spec_pixel_count() implies {
            &&& #[trigger] r.chan(i, 0) == heat_gray(*pixmap1, *pixmap2, i)
            &&& r.chan(i, 1) == heat_gray(*pixmap1, *pixmap2, i)
            &&& r.chan(i, 2) == heat_gray(*pixmap1, *pixmap2, i)
            &&& r.chan(i, 3) == 255
        } by {
            assert(r.data@[4 * i] == heat_gray(*pixmap1, *pixmap2, i));
            assert(r.chan(i, 0) == r.data@[4 * i]);
            assert(r.chan(i, 1) == r.data@[4 * i + 1]);
            assert(r.chan(i, 2) == r.data@[4 * i + 2]);
            assert(r.chan(i, 3) == r.data@[4 * i + 3]);
        }
    }
    r
}

/// The absolute difference of one demultiplied channel across two
/// pixels.
fn channel_abs_diff(c1: u8, a1: u8, c2: u8, a2: u8) -> (d: u8)
    ensures
        d as int == abs_diff(demul_chan(c1, a1), demul_chan(c2, a2)),
{
    let x = demultiply_channel(c1, a1);
    let y = demultiply_channel(c2, a2);
    if x >= y {
        x - y
    } else {
        y - x
    }
}

/// The luma of the pixel at the given coordinates, with coordinates
/// outside the canvas clamped to the nearest edge.
pub open spec fn luma_clamped(buf: PixelBuffer, x: int, y: int) -> int {
    let cx = crate::util::clamp_spec(x, 0, buf.width - 1);
    let cy = crate::util::clamp_spec(y, 0, buf.height - 1);
    pixel_luma(buf, cy * buf.width + cx)
}

/// The squared Sobel gradient magnitude at a pixel: horizontal and
/// vertical 3x3 edge kernels over the clamped-edge luma.
#[verifier::opaque]
pub open spec fn sobel_g2(buf: PixelBuffer, x: int, y: int) -> int {
    let a = luma_clamped(buf, x - 1, y - 1);
    let b = luma_clamped(buf, x - 1, y);
    let c = luma_clamped(buf, x - 1, y + 1);
    let d = luma_clamped(buf, x, y - 1);
    let e = luma_clamped(buf, x, y + 1);
    let f = luma_clamped(buf, x + 1, y - 1);
    let g = luma_clamped(buf, x + 1, y);
    let h = luma_clamped(buf, x + 1, y + 1);
    let gx = a + 2 * b + c - f - 2 * g - h;
    let gy = a + 2 * d + f - c - 2 * e - h;
    gx * gx + gy * gy
}

/// Pixel `p` of a Sobel output's bytes: all three color channels hold
/// the gradient magnitude (the integer square root of `sobel_g2`,
/// capped at 255), and the alpha is full.
pub open spec fn is_sobel_pixel(src: PixelBuffer, bytes: Seq<u8>, p: int) -> bool {
    let w = src.width as int;
    let g2 = sobel_g2(src, p % w, p / w);
    let v = bytes[4 * p] as int;
    &&& v * v <= g2
    &&& (v == 255 || g2 < (v + 1) * (v + 1))
    &&& bytes[4 * p + 1] == bytes[4 * p]
    &&& bytes[4 * p + 2] == bytes[4 * p]
    &&& bytes[4 * p + 3] == 255
}

/// The clamped-edge luma sample used by the convolution filters.
pub fn luma_clamped_at(buf: &PixelBuffer, x: i64, y: i64) -> (v: u8)
    requires
        buf.wf(),
        -0x10000 <= x <= 0x10000,
        -0x10000 <= y <= 0x10000,
    ensures
        v as int == luma_clamped(*buf, x as int, y as int),
{
    let cx = crate::util::clamp(x, 0, buf.width as i64 - 1);
    let cy = crate::util::clamp(y, 0, buf.height as i64 - 1);
    proof {
        lemma_rc_index(buf.width as int, buf.height as int, cx as int, cy as int);
        lemma_dims_bounded(buf.width as int, buf.height as int);
    }
    let idx = (cy as usize) * (buf.width as usize) + (cx as usize);
    pixel_luma_at(buf, idx)
}

/// The Sobel gradient magnitude of the input's luma at pixel `p`: the
/// integer square root of the squared gradient, capped at 255.
fn sobel_magnitude(input: &PixelBuffer, p: usize) -> (v: u8)
    requires
        input.wf(),
        p < input.spec_pixel_count(),
    ensures
        ({
            let g2 = sobel_g2(*input, p as int % input.width as int, p as int / input.width as int);
            (v as int) * (v as int) <= g2 && (v == 255 || g2 < (v as int + 1) * (v as int + 1))
        }),
{
    let w = input.width as usize;
    let x = (p % w) as i64;
    let y = (p / w) as i64;
    proof {
        assert((p as int) % (w as int) < (w as int) && (p as int) / (w as int) < (
        input.height as int)) by (nonlinear_arith)
            requires
                1 <= w as int <= 0x4000,
                0 <= p as int,
                (p as int) < (w as int) * (input.height as int),
        ;
    }
    let a = luma_clamped_at(input, x - 1, y - 1) as i64;
    let b = luma_clamped_at(input, x - 1, y) as i64;
    let c = luma_clamped_at(input, x - 1, y + 1) as i64;
    let d = luma_clamped_at(input, x, y - 1) as i64;
    let e = luma_clamped_at(input, x, y + 1) as i64;
    let f = luma_clamped_at(input, x + 1, y - 1) as i64;
    let g = luma_clamped_at(input, x + 1, y) as i64;
    let h = luma_clamped_at(input, x + 1, y + 1) as i64;
    let gx = a + 2 * b + c - f - 2 * g - h;
    let gy = a + 2 * d + f - c - 2 * e - h;
    proof {
        crate::util::lemma_sq_bound(gx as int, 1530);
        crate::util::lemma_sq_bound(gy as int, 1530);
    }
    let g2 = (gx * gx + gy * gy) as u64;
    let mag = crate::util::isqrt(g2);
    proof {
        reveal(sobel_g2);
        assert(g2 == sobel_g2(*input, x as int, y as int));
        if mag > 255 {
            assert(255 * 255 < mag * mag) by (nonlinear_arith)
                requires
                    mag > 255,
            ;
        }
    }
    if mag > 255 {
        255
    } else {
        mag as u8
    }
}

/// An edge map of the input: each output pixel holds the Sobel
/// gradient magnitude of the input's luma at that position, in all
/// three color channels, with full alpha.  Pixels past the canvas edge
/// are read as their nearest edge pixel.
pub fn sobel(input: &PixelBuffer) -> (r: PixelBuffer)
    requires
        input.wf(),
    ensures
        r.wf(),
        r.width == input.width,
        r.height == input.height,
        forall|p: int|
            0 <= p < r.spec_pixel_count() ==> #[trigger] is_sobel_pixel(*input, r.data@, p),
{
    let n = input.pixel_count();
    proof {
        lemma_dims_bounded(input.width as int, input.height as int);
    }
    let mut data: Vec<u8> = Vec::new();
    let mut p: usize = 0;
    while p < n
        invariant
            p <= n,
            n == input.spec_pixel_count(),
            n <= 0x1000_0000,
            input.wf(),
            data@.len() == 4 * p,
            forall|q: int| 0 <= q < p ==> #[trigger] is_sobel_pixel(*input, data@, q),
        decreases n - p,
    {
        let v = sobel_magnitude(input, p);
        let ghost pre = data@;
        push_pixel(&mut data, v, v, v, 255);
        proof {
            assert forall|q: int| 0 <= q < p + 1 implies is_sobel_pixel(*input, data@, q) by {
                if q < p {
                    assert(is_sobel_pixel(*input, pre, q));
                    assert(0 <= 4 * q && 4 * q + 3 < pre.len());
                    assert(data@[4 * q] == pre[4 * q]);
                    assert(data@[4 * q + 1] == pre[4 * q + 1]);
                    assert(data@[4 * q + 2] == pre[4 * q + 2]);
                    assert(data@[4 * q + 3] == pre[4 * q + 3]);
                } else {
                    assert(4 * q == pre.len());
                    assert(data@[4 * q] == v);
                    assert(data@[4 * q + 1] == v);
                    assert(data@[4 * q + 2] == v);
                    assert(data@[4 * q + 3] == 255);
                }
            }
        }
        p = p + 1;
    }
    PixelBuffer { width: input.width, height: input.height, data }
}

/// An integer convolution kernel: a rectangular grid of fixed-point
/// weights with a common denominator.  A weighted sum of samples is
/// divided by the denominator, so a kernel whose weights sum to the
/// denominator averages.
pub struct Kernel {
    pub weights: Vec<Vec<u64>>,
    pub denom: u64,
}

impl Kernel {
    pub open spec fn rows(self) -> int {
        self.weights@.len() as int
    }

    pub open spec fn cols(self) -> int {
        self.weights@[0]@.len() as int
    }

    /// Well-formedness: a small rectangular grid of bounded weights and
    /// a positive denominator.
    pub open spec fn wf(self) -> bool {
        &&& 1 <= self.rows() <= 15
        &&& 1 <= self.cols() <= 15
        &&& forall|r: int| 0 <= r < self.rows() ==> (#[trigger] self.weights@[r])@.len()
            == self.cols()
        &&& forall|r: int, c: int|
            0 <= r < self.rows() && 0 <= c < self.cols() ==> (#[trigger] self.weights@[r]@[c])
                <= 0x10_0000
        &&& self.denom >= 1
    }
}

/// The sample a convolution reads at a coordinate: the demultiplied
/// color channel (or the raw alpha for channel 3) of the pixel there,
/// or opaque black past the canvas edge.
pub open spec fn blur_sample(buf: PixelBuffer, x: int, y: int, c: int) -> int {
    if 0 <= x < buf.width && 0 <= y < buf.height {
        let i = y * buf.width + x;
        if c < 3 {
            demul_chan(buf.chan(i, c), buf.chan(i, 3))
        } else {
            buf.chan(i, 3) as int
        }
    } else {
        if c < 3 {
            0
        } else {
            255
        }
    }
}

/// The weighted sample sum of the first `nkx` cells of kernel row `ky`,
/// for output position `(x, y)` and channel `c`.
pub open spec fn conv_row(
    buf: PixelBuffer,
    ker: Kernel,
    x: int,
    y: int,
    c: int,
    ky: int,
    nkx: int,
) -> int
    decreases nkx,
{
    if nkx <= 0 {
        0
    } else {
        conv_row(buf, ker, x, y, c, ky, nkx - 1) + ker.weights@[ky]@[nkx - 1] * blur_sample(
            buf,
            x + (nkx - 1) - ker.cols() / 2,
            y + ky - ker.rows() / 2,
            c,
        )
    }
}

/// The weighted sample sum of the first `nky` full kernel rows.
pub open spec fn conv_total(buf: PixelBuffer, ker: Kernel, x: int, y: int, c: int, nky: int) -> int
    decreases nky,
{
    if nky <= 0 {
        0
    } else {
        conv_total(buf, ker, x, y, c, nky - 1) + conv_row(buf, ker, x, y, c, nky - 1, ker.cols())
    }
}

/// One output channel of a convolution: the full weighted sum divided
/// by the kernel denominator, capped at 255.
pub open spec fn conv_value(buf: PixelBuffer, ker: Kernel, x: int, y: int, c: int) -> int {
    let t = conv_total(buf, ker, x, y, c, ker.rows()) / ker.denom as int;
    if t > 255 {
        255
    } else {
        t
    }
}

/// Pixel `p` of a convolution output's bytes: every channel holds the
/// convolution of the corresponding input channel at that position.
pub open spec fn is_conv_pixel(src: PixelBuffer, ker: Kernel, bytes: Seq<u8>, p: int) -> bool {
    let w = src.width as int;
    forall|c: int| 0 <= c < 4 ==> #[trigger] bytes[4 * p + c] as int == conv_value(
        src,
        ker,
        p % w,
        p / w,
        c,
    )
}

/// Every convolution sample lies in `[0, 255]`.
proof fn lemma_blur_sample_bound(buf: PixelBuffer, x: int, y: int, c: int)
    ensures
        0 <= blur_sample(buf, x, y, c) <= 255,
{
}

/// Partial row sums lie in `[0, 267386880 * nkx]` for a well-formed
/// kernel.
proof fn lemma_conv_row_bound(
    buf: PixelBuffer,
    ker: Kernel,
    x: int,
    y: int,
    c: int,
    ky: int,
    nkx: int,
)
    requires
        ker.wf(),
        0 <= ky < ker.rows(),
        nkx <= ker.cols(),
    ensures
        0 <= conv_row(buf, ker, x, y, c, ky, nkx) <= if nkx <= 0 {
            0int
        } else {
            267_386_880 * nkx
        },
    decreases nkx,
{
    if nkx > 0 {
        lemma_conv_row_bound(buf, ker, x, y, c, ky, nkx - 1);
        lemma_blur_sample_bound(buf, x + (nkx - 1) - ker.cols() / 2, y + ky - ker.rows() / 2, c);
        let wgt = ker.weights@[ky]@[nkx - 1] as int;
        let s = blur_sample(buf, x + (nkx - 1) - ker.cols() / 2, y + ky - ker.rows() / 2, c);
        assert(0 <= wgt * s <= 267_386_880) by (nonlinear_arith)
            requires
                0 <= wgt <= 0x10_0000,
                0 <= s <= 255,
        ;
    }
}

/// Partial total sums lie in `[0, 4010803200 * nky]` for a well-formed
/// kernel.
proof fn lemma_conv_total_bound(
    buf: PixelBuffer,
    ker: Kernel,
    x: int,
    y: int,
    c: int,
    nky: int,
)
    requires
        ker.wf(),
        nky <= ker.rows(),
    ensures
        0 <= conv_total(buf, ker, x, y, c, nky) <= if nky <= 0 {
            0int
        } else {
            4_010_803_200 * nky
        },
    decreases nky,
{
    if nky > 0 {
        lemma_conv_total_bound(buf, ker, x, y, c, nky - 1);
        lemma_conv_row_bound(buf, ker, x, y, c, nky - 1, ker.cols());
    }
}

/// The convolution sample at a coordinate.
fn blur_sample_at(buf: &PixelBuffer, x: i64, y: i64, c: usize) -> (v: u8)
    requires
        buf.wf(),
        c < 4,
        -0x10000 <= x <= 0x10000,
        -0x10000 <= y <= 0x10000,
    ensures
        v as int == blur_sample(*buf, x as int, y as int, c as int),
{
    if x >= 0 && y >= 0 && x < buf.width as i64 && y < buf.height as i64 {
        proof {
            lemma_rc_index(buf.width as int, buf.height as int, x as int, y as int);
            lemma_dims_bounded(buf.width as int, buf.height as int);
        }
        let i = (y as usize) * (buf.width as usize) + (x as usize);
        if c < 3 {
            demultiply_channel(buf.get(i, c), buf.get(i, 3))
        } else {
            buf.get(i, 3)
        }
    } else {
        if c < 3 {
            0
        } else {
            255
        }
    }
}

/// One output channel of a convolution at position `(x, y)`.
fn conv_channel(buf: &PixelBuffer, ker: &Kernel, x: i64, y: i64, c: usize) -> (v: u8)
    requires
        buf.wf(),
        ker.wf(),
        c < 4,
        0 <= x < buf.width,
        0 <= y < buf.height,
    ensures
        v as int == conv_value(*buf, *ker, x as int, y as int, c as int),
{
    let rows = ker.weights.len();
    let cols = ker.weights[0].len();
    let offx = (cols / 2) as i64;
    let offy = (rows / 2) as i64;
    let mut acc: u64 = 0;
    let mut ky: usize = 0;
    while ky < rows
        invariant
            buf.wf(),
            ker.wf(),
            c < 4,
            0 <= x < buf.width,
            0 <= y < buf.height,
            rows == ker.rows(),
            cols == ker.cols(),
            offx == cols / 2,
            offy == rows / 2,
            ky <= rows,
            acc == conv_total(*buf, *ker, x as int, y as int, c as int, ky as int),
            acc <= 4_010_803_200 * ky,
        decreases rows - ky,
    {
        let row = &ker.weights[ky];
        let mut kx: usize = 0;
        while kx < cols
            invariant
                buf.wf(),
                ker.wf(),
                c < 4,
                0 <= x < buf.width,
                0 <= y < buf.height,
                rows == ker.rows(),
                cols == ker.cols(),
                offx == cols / 2,
                offy == rows / 2,
                ky < rows,
                kx <= cols,
                row == ker.weights@[ky as int],
                acc == conv_total(*buf, *ker, x as int, y as int, c as int, ky as int) + conv_row(
                    *buf,
                    *ker,
                    x as int,
                    y as int,
                    c as int,
                    ky as int,
                    kx as int,
                ),
                acc <= 4_010_803_200 * ky + 267_386_880 * kx,
            decreases cols - kx,
        {
            let wgt = row[kx];
            let s = blur_sample_at(buf, x + kx as i64 - offx, y + ky as i64 - offy, c) as u64;
            proof {
                lemma_conv_total_bound(*buf, *ker, x as int, y as int, c as int, ky as int);
                lemma_conv_row_bound(
                    *buf,
                    *ker,
                    x as int,
                    y as int,
                    c as int,
                    ky as int,
                    kx as int,
                );
                assert(0 <= wgt * s <= 267_386_880) by (nonlinear_arith)
                    requires
                        0 <= wgt <= 0x10_0000,
                        0 <= s <= 255,
                ;
            }
            acc = acc + wgt * s;
            kx = kx + 1;
        }
        ky = ky + 1;
    }
    let t = acc / ker.denom;
    if t > 255 {
        255
    } else {
        t as u8
    }
}

/// Convolves the input with an integer kernel: every output channel is
/// the kernel-weighted sum of the demultiplied input samples around its
/// position (opaque black past the edges), divided by the kernel
/// denominator and capped at 255.
pub fn gaussian_blur_with_kernel(input: &PixelBuffer, kernel: &Kernel) -> (r: PixelBuffer)
    requires
        input.wf(),
        kernel.wf(),
    ensures
        r.wf(),
        r.width == input.width,
        r.height == input.height,
        forall|p: int|
            0 <= p < r.spec_pixel_count() ==> #[trigger] is_conv_pixel(
                *input,
                *kernel,
                r.data@,
                p,
            ),
{
    let n = input.pixel_count();
    proof {
        lemma_dims_bounded(input.width as int, input.height as int);
    }
    let w = input.width as usize;
    let mut data: Vec<u8> = Vec::new();
    let mut p: usize = 0;
    while p < n
        invariant
            p <= n,
            n == input.spec_pixel_count(),
            n <= 0x1000_0000,
            input.wf(),
            kernel.wf(),
            w == input.width,
            data@.len() == 4 * p,
            forall|q: int| 0 <= q < p ==> #[trigger] is_conv_pixel(*input, *kernel, data@, q),
        decreases n - p,
    {
        let x = (p % w) as i64;
        let y = (p / w) as i64;
        proof {
            assert((p as int) % (w as int) < (w as int) && (p as int) / (w as int) < (
            input.height as int)) by (nonlinear_arith)
                requires
                    1 <= w as int <= 0x4000,
                    0 <= p as int,
                    (p as int) < (w as int) * (input.height as int),
            ;
        }
        let v0 = conv_channel(input, kernel, x, y, 0);
        let v1 = conv_channel(input, kernel, x, y, 1);
        let v2 = conv_channel(input, kernel, x, y, 2);
        let v3 = conv_channel(input, kernel, x, y, 3);
        let ghost pre = data@;
        push_pixel(&mut data, v0, v1, v2, v3);
        proof {
            assert forall|q: int| 0 <= q < p + 1 implies is_conv_pixel(
                *input,
                *kernel,
                data@,
                q,
            ) by {
                if q < p {
                    assert(is_conv_pixel(*input, *kernel, pre, q));
                    assert(0 <= 4 * q && 4 * q + 3 < pre.len());
                    assert(data@[4 * q] == pre[4 * q]);
                    assert(data@[4 * q + 1] == pre[4 * q + 1]);
                    assert(data@[4 * q + 2] == pre[4 * q + 2]);
                    assert(data@[4 * q + 3] == pre[4 * q + 3]);
                    assert forall|c: int| 0 <= c < 4 implies #[trigger] data@[4 * q + c]
                        == pre[4 * q + c] by {
                        assert(c == 0 || c == 1 || c == 2 || c == 3);
                    }
                } else {
                    assert(4 * q == pre.len());
                    assert(data@[4 * q] == v0);
                    assert(data@[4 * q + 1] == v1);
                    assert(data@[4 * q + 2] == v2);
                    assert(data@[4 * q + 3] == v3);
                }
            }
        }
        p = p + 1;
    }
    PixelBuffer { width: input.width, height: input.height, data }
}

/// One cell of the stock blur kernel, indexed by the row's and the
/// column's distance index from the canvas edge (0 at the edge, 3 at
/// the center): a quantized Gaussian bell with a standard deviation of
/// two pixels.
pub open spec fn stock_cell(dr: int, dc: int) -> int {
    if dr == 0 {
        if dc == 0 {
            1054
        } else if dc == 1 {
            1969
        } else if dc == 2 {
            2865
        } else {
            3247
        }
    } else if dr == 1 {
        if dc == 0 {
            1969
        } else if dc == 1 {
            3679
        } else if dc == 2 {
            5353
        } else {
            6065
        }
    } else if dr == 2 {
        if dc == 0 {
            2865
        } else if dc == 1 {
            5353
        } else if dc == 2 {
            7788
        } else {
            8825
        }
    } else {
        if dc == 0 {
            3247
        } else if dc == 1 {
            6065
        } else if dc == 2 {
            8825
        } else {
            10000
        }
    }
}

/// Weight `(r, c)` of the stock blur kernel: the cell at the row's and
/// column's distance from the nearest kernel edge.
pub open spec fn stock_kernel_weight(r: int, c: int) -> int {
    stock_cell(
        if r <= 3 {
            r
        } else {
            6 - r
        },
        if c <= 3 {
            c
        } else {
            6 - c
        },
    )
}

/// The library's stock blur kernel: a 7x7 Gaussian bell with a standard
/// deviation of two pixels, quantized to fixed-point weights that sum
/// to the denominator 214128, so that convolving a constant image
/// reproduces the constant away from the edges.
pub fn gaussian_kernel() -> (k: Kernel)
    ensures
        k.wf(),
        k.rows() == 7,
        k.cols() == 7,
        k.denom == 214128,
        forall|r: int, c: int|
            0 <= r < 7 && 0 <= c < 7 ==> #[trigger] k.weights@[r]@[c] == stock_kernel_weight(r, c),
{
    let mut weights: Vec<Vec<u64>> = Vec::new();
    weights.push(gaussian_kernel_row(0));
    weights.push(gaussian_kernel_row(1));
    weights.push(gaussian_kernel_row(2));
    weights.push(gaussian_kernel_row(3));
    weights.push(gaussian_kernel_row(2));
    weights.push(gaussian_kernel_row(1));
    weights.push(gaussian_kernel_row(0));
    let k = Kernel { weights, denom: 214128 };
    proof {
        assert forall|r: int, c: int|
            0 <= r < 7 && 0 <= c < 7 implies #[trigger] k.weights@[r]@[c] == stock_kernel_weight(
            r,
            c,
        ) by {
            assert(r == 0 || r == 1 || r == 2 || r == 3 || r == 4 || r == 5 || r == 6);
            assert(c == 0 || c == 1 || c == 2 || c == 3 || c == 4 || c == 5 || c == 6);
        }
    }
    k
}

/// One row of the stock Gaussian kernel, by its distance index from
/// the kernel edge.
fn gaussian_kernel_row(d: u32) -> (row: Vec<u64>)
    requires
        d <= 3,
    ensures
        row@.len() == 7,
        forall|c: int| 0 <= c < 7 ==> #[trigger] row@[c] <= 0x10_0000,
        forall|c: int|
            0 <= c < 7 ==> #[trigger] row@[c] == stock_cell(
                d as int,
                if c <= 3 {
                    c
                } else {
                    6 - c
                },
            ),
{
    let mut row: Vec<u64> = Vec::new();
    let (a, b, c, m): (u64, u64, u64, u64) = if d == 0 {
        (1054, 1969, 2865, 3247)
    } else if d == 1 {
        (1969, 3679, 5353, 6065)
    } else if d == 2 {
        (2865, 5353, 7788, 8825)
    } else {
        (3247, 6065, 8825, 10000)
    };
    row.push(a);
    row.push(b);
    row.push(c);
    row.push(m);
    row.push(c);
    row.push(b);
    row.push(a);
    proof {
        assert forall|q: int|
            0 <= q < 7 implies #[trigger] row@[q] == stock_cell(
            d as int,
            if q <= 3 {
                q
            } else {
                6 - q
            },
        ) by {
            assert(q == 0 || q == 1 || q == 2 || q == 3 || q == 4 || q == 5 || q == 6);
        }
    }
    row
}

/// The input blurred with the library's stock Gaussian kernel.
pub fn gaussian_blur(input: &PixelBuffer) -> (r: PixelBuffer)
    requires
        input.wf(),
    ensures
        r.wf(),
        r.width == input.width,
        r.height == input.height,
{
    let kernel = gaussian_kernel();
    gaussian_blur_with_kernel(input, &kernel)
}

/// Appends one pixel's four channel bytes to a raw data vector.
pub fn push_pixel(data: &mut Vec<u8>, r: u8, g: u8, b: u8, a: u8)
    ensures
        final(data)@ == old(data)@ + seq![r, g, b, a],
{
    data.push(r);
    data.push(g);
    data.push(b);
    data.push(a);
    proof {
        assert(data@ =~= old(data)@ + seq![r, g, b, a]);
    }
}

/// A discrete probability distribution over the pixel coordinates of a
/// canvas, stored as cumulative luma weights.  Sampling draws a uniform
/// value below the total weight and locates its bucket by binary
/// search, so a pixel is chosen proportionally to its grayscale weight.
pub struct GraylevelMask {
    pub cum: Vec<u64>,
    pub width: u32,
    pub height: u32,
}

/// The weight of pixel `i` under a mask: the step of the cumulative sum.
pub open spec fn mask_weight(m: GraylevelMask, i: int) -> int {
    if i == 0 {
        m.cum@[0] as int
    } else {
        m.cum@[i] - m.cum@[i - 1]
    }
}

impl GraylevelMask {
    /// Well-formedness: one cumulative entry per pixel, nondecreasing,
    /// with a positive total.
    pub open spec fn wf(self) -> bool {
        &&& 1 <= self.width <= 0x4000
        &&& 1 <= self.height <= 0x4000
        &&& self.cum@.len() == self.width * self.height
        &&& forall|i: int, j: int| 0 <= i <= j < self.cum@.len() ==> self.cum@[i] <= self.cum@[j]
        &&& self.cum@[self.cum@.len() - 1] > 0
    }

    /// Builds the distribution from a source image, weighting each
    /// pixel by its grayscale luma.  The source must not be all black:
    /// a zero total weight leaves no distribution to sample.
    pub fn from(src: &PixelBuffer) -> (m: GraylevelMask)
        requires
            src.wf(),
            total_luma(*src) > 0,
        ensures
            m.wf(),
            m.width == src.width,
            m.height == src.height,
            forall|i: int| 0 <= i < m.cum@.len()
                ==> #[trigger] mask_weight(m, i) == pixel_luma(*src, i),
    {
        let n = src.pixel_count();
        proof {
            lemma_dims_bounded(src.width as int, src.height as int);
        }
        let mut cum: Vec<u64> = Vec::new();
        let mut sum: u64 = 0;
        let mut i: usize = 0;
        while i < n
            invariant
                i <= n,
                n == src.spec_pixel_count(),
                n <= 0x1000_0000,
                src.wf(),
                cum@.len() == i,
                sum == luma_upto(*src, i as int),
                sum <= 255 * i,
                forall|j: int| 0 <= j < i ==> #[trigger] cum@[j] == luma_upto(*src, j + 1),
            decreases n - i,
        {
            sum = sum + pixel_luma_at(src, i) as u64;
            cum.push(sum);
            i = i + 1;
        }
        let m = GraylevelMask { cum, width: src.width, height: src.height };
        proof {
            assert forall|i: int, j: int|
                0 <= i <= j < m.cum@.len() implies m.cum@[i] <= m.cum@[j] by {
                lemma_luma_monotone(*src, i + 1, j + 1);
            }
            assert forall|i: int| 0 <= i < m.cum@.len()
                implies #[trigger] mask_weight(m, i) == pixel_luma(*src, i) by {
                assert(m.cum@[i] == luma_upto(*src, i + 1));
                assert(luma_upto(*src, i + 1) == luma_upto(*src, i) + pixel_luma(*src, i));
                if i > 0 {
                    assert(m.cum@[i - 1] == luma_upto(*src, i));
                } else {
                    assert(luma_upto(*src, 0) == 0);
                }
            }
        }
        m
    }

    /// Draws one flat pixel index, with probability proportional to the
    /// pixel's weight; only pixels of positive weight can come out.
    pub fn sample_random_i(&self) -> (i: u32)
        requires
            self.wf(),
        ensures
            i < self.width * self.height,
            mask_weight(*self, i as int) > 0,
    {
        proof {
            lemma_dims_bounded(self.width as int, self.height as int);
        }
        let len = self.cum.len();
        let total = self.cum[len - 1];
        let x = crate::util::random_u64_below(total);
        let b = cumulative_bucket(&self.cum, x);
        proof {
            if b > 0 {
                assert(self.cum@[b as int - 1] <= x);
                assert(mask_weight(*self, b as int) > 0);
            } else {
                assert(mask_weight(*self, 0) == self.cum@[0]);
                assert(self.cum@[0] > x);
            }
        }
        b as u32
    }

    /// Draws one pixel coordinate `(x, y)`: the flat index is split by
    /// modulo and integer division by the canvas width.
    pub fn sample_random_xy(&self) -> (p: (u32, u32))
        requires
            self.wf(),
        ensures
            p.0 < self.width,
            p.1 < self.height,
            mask_weight(*self, p.1 as int * self.width + p.0) > 0,
    {
        let i = self.sample_random_i();
        let x = i % self.width;
        let y = i / self.width;
        proof {
            assert(y * self.width + x == i) by (nonlinear_arith)
                requires
                    self.width > 0,
                    x == i % self.width,
                    y == i / self.width,
            ;
            assert(y < self.height) by (nonlinear_arith)
                requires
                    self.width > 0,
                    i < self.width * self.height,
                    y == i / self.width,
            ;
        }
        (x, y)
    }

    /// The canvas dimensions of the mask.
    pub fn dim(&self) -> (d: (u32, u32))
        ensures
            d.0 == self.width,
            d.1 == self.height,
    {
        (self.width, self.height)
    }
}

/// Luma partial sums are monotone in the pixel count.
pub proof fn lemma_luma_monotone(buf: PixelBuffer, m: int, n: int)
    requires
        m <= n,
    ensures
        luma_upto(buf, m) <= luma_upto(buf, n),
    decreases n - m,
{
    if m < n {
        lemma_luma_monotone(buf, m, n - 1);
        lemma_pixel_luma_bound(buf, n - 1);
    }
}

/// Locates the bucket of a cumulative weight table that a uniform draw
/// falls into: the least index whose cumulative weight exceeds the
/// draw.  This is the deterministic half of weighted sampling.
pub fn cumulative_bucket(cum: &Vec<u64>, x: u64) -> (i: usize)
    requires
        cum@.len() >= 1,
        forall|p: int, q: int| 0 <= p <= q < cum@.len() ==> cum@[p] <= cum@[q],
        x < cum@[cum@.len() - 1],
    ensures
        i < cum@.len(),
        x < cum@[i as int],
        i > 0 ==> cum@[i as int - 1] <= x,
{
    let mut lo: usize = 0;
    let mut hi: usize = cum.len() - 1;
    while lo < hi
        invariant
            hi < cum@.len(),
            lo <= hi,
            x < cum@[hi as int],
            lo > 0 ==> cum@[lo as int - 1] <= x,
        decreases hi - lo,
    {
        let mid = lo + (hi - lo) / 2;
        if cum[mid] > x {
            hi = mid;
        } else {
            lo = mid + 1;
        }
    }
    lo
}

} // verus!
