use vstd::prelude::*;

pub mod image;
pub mod text;

verus! {

use crate::util::image::PixelBuffer;

/// The clamp of `v` into `[lo, hi]` (for `lo <= hi`); mirrors the
/// executable `clamp` below.
pub open spec fn clamp_spec(v: int, lo: int, hi: int) -> int {
    if v < lo {
        lo
    } else if v > hi {
        hi
    } else {
        v
    }
}

/// Clamps `value` into the interval `[min, max]`.
pub fn clamp(value: i64, min: i64, max: i64) -> (r: i64)
    requires
        min <= max,
    ensures
        r == clamp_spec(value as int, min as int, max as int),
{
    if value < min {
        min
    } else if value > max {
        max
    } else {
        value
    }
}

/// Saturating addition of a signed delta to an 8-bit channel value:
/// the result is `a + b` clamped into `[0, 255]`, never wrapped.
pub fn bounded_add(a: u8, b: i64) -> (r: u8)
    ensures
        r as int == clamp_spec(a as int + b as int, 0, 255),
{
    if b >= 0 {
        if b > 255 || a as i64 + b > 255 {
            255u8
        } else {
            (a as i64 + b) as u8
        }
    } else {
        if b < -255 || a as i64 + b < 0 {
            0u8
        } else {
            (a as i64 + b) as u8
        }
    }
}

/// Integer square root: the greatest `r` with `r * r <= n`.
pub fn isqrt(n: u64) -> (r: u64)
    ensures
        r * r <= n < (r + 1) * (r + 1),
{
    let mut lo: u64 = 0;
    let mut hi: u64 = 0x1_0000_0000;
    while lo + 1 < hi
        invariant
            lo < hi <= 0x1_0000_0000,
            lo * lo <= n,
            n < hi * hi,
        decreases hi - lo,
    {
        let mid: u64 = lo + (hi - lo) / 2;
        proof {
            assert(mid * mid <= 0xFFFF_FFFF * 0xFFFF_FFFF) by (nonlinear_arith)
                requires
                    mid <= 0xFFFF_FFFF,
            ;
        }
        if mid * mid <= n {
            lo = mid;
        } else {
            hi = mid;
        }
    }
    lo
}

/// The squared channel distance between pixel `i` of `a` and pixel `i`
/// of `b`: the squared Euclidean norm of the four-channel difference.
pub open spec fn pixel_dist(a: PixelBuffer, b: PixelBuffer, i: int) -> int {
    let dr = a.chan(i, 0) - b.chan(i, 0);
    let dg = a.chan(i, 1) - b.chan(i, 1);
    let db = a.chan(i, 2) - b.chan(i, 2);
    let da = a.chan(i, 3) - b.chan(i, 3);
    dr * dr + dg * dg + db * db + da * da
}

/// The sum of `pixel_dist` over the first `n` pixels.
pub open spec fn dist_upto(a: PixelBuffer, b: PixelBuffer, n: int) -> int
    decreases n,
{
    if n <= 0 {
        0
    } else {
        dist_upto(a, b, n - 1) + pixel_dist(a, b, n - 1)
    }
}

/// The fitness of a candidate against a target: the sum over all pixels
/// of the squared per-channel differences.  Lower is better; the square
/// root taken by a distance presentation is monotone, so comparisons of
/// this sum order candidates exactly as the rooted distance would.
pub open spec fn spec_distance(a: PixelBuffer, b: PixelBuffer) -> int {
    dist_upto(a, b, a.spec_pixel_count())
}

/// The square of a value bounded by `m` in magnitude is bounded by `m * m`.
pub proof fn lemma_sq_bound(x: int, m: int)
    requires
        -m <= x <= m,
    ensures
        0 <= x * x <= m * m,
{
    assert(0 <= x * x <= m * m) by (nonlinear_arith)
        requires
            -m <= x <= m,
    ;
}

/// Each per-pixel distance lies in `[0, 260100]` (four channels, each
/// differing by at most 255).
pub proof fn lemma_pixel_dist_bound(a: PixelBuffer, b: PixelBuffer, i: int)
    ensures
        0 <= pixel_dist(a, b, i) <= 260100,
{
    lemma_sq_bound(a.chan(i, 0) - b.chan(i, 0), 255);
    lemma_sq_bound(a.chan(i, 1) - b.chan(i, 1), 255);
    lemma_sq_bound(a.chan(i, 2) - b.chan(i, 2), 255);
    lemma_sq_bound(a.chan(i, 3) - b.chan(i, 3), 255);
}

/// The partial sums of per-pixel distances lie in `[0, 260100 * n]`.
pub proof fn lemma_dist_upto_bound(a: PixelBuffer, b: PixelBuffer, n: int)
    ensures
        0 <= dist_upto(a, b, n) <= if n <= 0 { 0int } else { 260100 * n },
    decreases n,
{
    if n > 0 {
        lemma_dist_upto_bound(a, b, n - 1);
        lemma_pixel_dist_bound(a, b, n - 1);
    }
}

/// The distance is symmetric in its two arguments.
pub proof fn lemma_dist_upto_symmetric(a: PixelBuffer, b: PixelBuffer, n: int)
    ensures
        dist_upto(a, b, n) == dist_upto(b, a, n),
    decreases n,
{
    if n > 0 {
        lemma_dist_upto_symmetric(a, b, n - 1);
        let i = n - 1;
        lemma_sq_symmetric(a.chan(i, 0) as int, b.chan(i, 0) as int);
        lemma_sq_symmetric(a.chan(i, 1) as int, b.chan(i, 1) as int);
        lemma_sq_symmetric(a.chan(i, 2) as int, b.chan(i, 2) as int);
        lemma_sq_symmetric(a.chan(i, 3) as int, b.chan(i, 3) as int);
    }
}

/// Squared differences do not depend on the order of the operands.
proof fn lemma_sq_symmetric(x: int, y: int)
    ensures
        (x - y) * (x - y) == (y - x) * (y - x),
{
    assert((x - y) * (x - y) == (y - x) * (y - x)) by (nonlinear_arith);
}

/// A zero squared difference forces the operands to be equal.
proof fn lemma_sq_zero(x: int, y: int)
    requires
        (x - y) * (x - y) == 0,
    ensures
        x == y,
{
    if x != y {
        assert((x - y) * (x - y) > 0) by (nonlinear_arith)
            requires
                x != y,
        ;
    }
}

/// Fitness is symmetric: comparing `a` against `b` gives the same value
/// as comparing `b` against `a`, for buffers of equal dimensions.
pub proof fn lemma_distance_symmetric(a: PixelBuffer, b: PixelBuffer)
    requires
        a.width == b.width,
        a.height == b.height,
    ensures
        spec_distance(a, b) == spec_distance(b, a),
{
    lemma_dist_upto_symmetric(a, b, a.spec_pixel_count());
}

/// A zero partial sum forces every covered pixel to match exactly.
proof fn lemma_dist_upto_zero(a: PixelBuffer, b: PixelBuffer, n: int)
    requires
        dist_upto(a, b, n) == 0,
    ensures
        forall|i: int, c: int| 0 <= i < n && 0 <= c < 4 ==> a.chan(i, c) == b.chan(i, c),
    decreases n,
{
    if n > 0 {
        lemma_dist_upto_bound(a, b, n - 1);
        lemma_pixel_dist_bound(a, b, n - 1);
        lemma_dist_upto_zero(a, b, n - 1);
        let i = n - 1;
        assert(pixel_dist(a, b, i) == 0);
        lemma_sq_bound(a.chan(i, 0) - b.chan(i, 0), 255);
        lemma_sq_bound(a.chan(i, 1) - b.chan(i, 1), 255);
        lemma_sq_bound(a.chan(i, 2) - b.chan(i, 2), 255);
        lemma_sq_bound(a.chan(i, 3) - b.chan(i, 3), 255);
        lemma_sq_zero(a.chan(i, 0) as int, b.chan(i, 0) as int);
        lemma_sq_zero(a.chan(i, 1) as int, b.chan(i, 1) as int);
        lemma_sq_zero(a.chan(i, 2) as int, b.chan(i, 2) as int);
        lemma_sq_zero(a.chan(i, 3) as int, b.chan(i, 3) as int);
        assert forall|c: int| 0 <= c < 4 implies a.chan(i, c) == b.chan(i, c) by {
            assert(c == 0 || c == 1 || c == 2 || c == 3);
        }
    }
}

/// Fitness is zero exactly on pixel-identical buffers of equal
/// dimensions.
pub proof fn lemma_distance_zero_iff(a: PixelBuffer, b: PixelBuffer)
    requires
        a.wf(),
        b.wf(),
        a.width == b.width,
        a.height == b.height,
    ensures
        spec_distance(a, b) == 0 <==> a.data@ == b.data@,
{
    let n = a.spec_pixel_count();
    if spec_distance(a, b) == 0 {
        lemma_dist_upto_zero(a, b, n);
        assert forall|j: int| 0 <= j < a.data@.len() implies a.data@[j] == b.data@[j] by {
            let i = j / 4;
            let c = j % 4;
            assert(j == 4 * i + c);
            assert(0 <= i < n);
            assert(a.chan(i, c) == b.chan(i, c));
        }
        assert(a.data@ =~= b.data@);
    }
    if a.data@ == b.data@ {
        lemma_dist_upto_is_zero(a, b, n);
    }
}

/// On identical pixel data every partial distance sum is zero.
proof fn lemma_dist_upto_is_zero(a: PixelBuffer, b: PixelBuffer, n: int)
    requires
        a.data@ == b.data@,
    ensures
        dist_upto(a, b, n) == 0,
    decreases n,
{
    if n > 0 {
        lemma_dist_upto_is_zero(a, b, n - 1);
        let i = n - 1;
        assert(a.chan(i, 0) == b.chan(i, 0));
        assert(a.chan(i, 1) == b.chan(i, 1));
        assert(a.chan(i, 2) == b.chan(i, 2));
        assert(a.chan(i, 3) == b.chan(i, 3));
        assert(pixel_dist(a, b, i) == 0) by (nonlinear_arith)
            requires
                a.chan(i, 0) == b.chan(i, 0),
                a.chan(i, 1) == b.chan(i, 1),
                a.chan(i, 2) == b.chan(i, 2),
                a.chan(i, 3) == b.chan(i, 3),
        ;
    }
}

/// The pixel-wise fitness of a candidate image against a target image:
/// the sum over all pixels of the squared per-channel differences.  The
/// two buffers must have equal dimensions; zero means pixel-identical.
pub fn pixmap_distance(d1: &PixelBuffer, d2: &PixelBuffer) -> (r: u64)
    requires
        d1.wf(),
        d2.wf(),
        d1.width == d2.width,
        d1.height == d2.height,
    ensures
        r == spec_distance(*d1, *d2),
        r <= 260100 * d1.spec_pixel_count(),
{
    let n = d1.pixel_count();
    proof {
        crate::util::image::lemma_dims_bounded(d1.width as int, d1.height as int);
    }
    let mut sum: u64 = 0;
    let mut i: usize = 0;
    while i < n
        invariant
            i <= n,
            n == d1.spec_pixel_count(),
            n <= 0x1000_0000,
            d1.wf(),
            d2.wf(),
            d1.width == d2.width,
            d1.height == d2.height,
            sum == dist_upto(*d1, *d2, i as int),
            sum <= 260100 * i,
        decreases n - i,
    {
        let dr = d1.get(i, 0) as i64 - d2.get(i, 0) as i64;
        let dg = d1.get(i, 1) as i64 - d2.get(i, 1) as i64;
        let db = d1.get(i, 2) as i64 - d2.get(i, 2) as i64;
        let da = d1.get(i, 3) as i64 - d2.get(i, 3) as i64;
        proof {
            lemma_sq_bound(dr as int, 255);
            lemma_sq_bound(dg as int, 255);
            lemma_sq_bound(db as int, 255);
            lemma_sq_bound(da as int, 255);
        }
        let p = (dr * dr + dg * dg + db * db + da * da) as u64;
        assert(p == pixel_dist(*d1, *d2, i as int));
        sum = sum + p;
        i = i + 1;
    }
    proof {
        lemma_dist_upto_bound(*d1, *d2, n as int);
    }
    sum
}

/// Strictly ascending: each element is greater than the one before it.
pub open spec fn sorted_distinct(s: Seq<u64>) -> bool {
    forall|i: int, j: int| 0 <= i < j < s.len() ==> s[i] < s[j]
}

/// Draws a sorted set of distinct sample points from `[start, end]`.
///
/// When the range holds at most `n` values the whole range `start..end`
/// is returned.  Otherwise the result holds `start`, `end`, and enough
/// values strictly between them to reach `max(2, n)` points in total;
/// the interior points are chosen by selection sampling, so every
/// candidate is considered once and the scan always terminates.
pub fn random_points_in_range(n: u64, start: u64, end: u64) -> (points: Vec<u64>)
    requires
        start <= end,
        n <= 0x1000_0000,
        end - start <= 0x1000_0000,
    ensures
        sorted_distinct(points@),
        forall|i: int| 0 <= i < points@.len() ==> start <= #[trigger] points@[i] <= end,
        end - start <= n ==> points@.len() == end - start
            && (forall|i: int| 0 <= i < points@.len() ==> points@[i] == start + i),
        end - start > n ==> points@.len() == (if n < 2 { 2int } else { n as int })
            && points@[0] == start
            && points@[points@.len() - 1] == end,
{
    let span = end - start;
    if span <= n {
        let mut points: Vec<u64> = Vec::new();
        let mut c = start;
        while c < end
            invariant
                start <= c <= end,
                points@.len() == c - start,
                forall|i: int| 0 <= i < points@.len() ==> points@[i] == start + i,
            decreases end - c,
        {
            points.push(c);
            c = c + 1;
        }
        points
    } else {
        let target: u64 = if n < 2 { 2 } else { n };
        let mut needed: u64 = target - 2;
        let mut points: Vec<u64> = Vec::new();
        points.push(start);
        let mut c = start + 1;
        while c < end
            invariant
                start + 1 <= c <= end,
                needed <= end - c,
                needed <= target - 2,
                points@.len() == 1 + (target - 2 - needed),
                sorted_distinct(points@),
                points@[0] == start,
                forall|i: int| 0 <= i < points@.len() ==> start <= #[trigger] points@[i] < c,
            decreases end - c,
        {
            if needed > 0 {
                let r = random_u64_below(end - c);
                if r < needed {
                    points.push(c);
                    needed = needed - 1;
                }
            }
            c = c + 1;
        }
        points.push(end);
        points
    }
}

/// Relies on usvg::Tree::from_str and resvg::render: parses SVG markup
/// and rasterizes it onto a transparent canvas of the given size, whose
/// premultiplied RGBA bytes are returned.  `None` when the parser
/// rejects the markup or the canvas cannot be made.
#[verifier::external_body]
pub fn render_svg_into_pixmap(svg_data: &str, width: u32, height: u32) -> (r: Option<PixelBuffer>)
    requires
        1 <= width <= 0x4000,
        1 <= height <= 0x4000,
    ensures
        r matches Some(b) ==> b.wf() && b.width == width && b.height == height,
{
    let opt = usvg::Options::default();
    let tree = match usvg::Tree::from_str(svg_data, &opt) {
        Ok(t) => t,
        Err(_) => return None,
    };
    let mut pm = tiny_skia::Pixmap::new(width, height)?;
    resvg::render(&tree, tiny_skia::Transform::identity(), &mut pm.as_mut());
    Some(PixelBuffer { width, height, data: pm.take() })
}

/// Relies on tiny_skia::Pixmap::draw_pixmap: alpha-composites `above`
/// over `below`; both buffers hold premultiplied RGBA bytes, as does
/// the result.
#[verifier::external_body]
pub fn composite_over(below: &PixelBuffer, above: &PixelBuffer) -> (r: PixelBuffer)
    requires
        below.wf(),
        above.wf(),
        below.width == above.width,
        below.height == above.height,
    ensures
        r.wf(),
        r.width == below.width,
        r.height == below.height,
{
    let size = tiny_skia::IntSize::from_wh(below.width, below.height).unwrap();
    let mut dst = tiny_skia::Pixmap::from_vec(below.data.clone(), size).unwrap();
    let src = tiny_skia::Pixmap::from_vec(above.data.clone(), size).unwrap();
    let paint = tiny_skia::PixmapPaint::default();
    dst.draw_pixmap(0, 0, src.as_ref(), &paint, tiny_skia::Transform::identity(), None);
    PixelBuffer { width: below.width, height: below.height, data: dst.take() }
}

/// Relies on rand::random_range over `0..n`: a value drawn from the
/// thread-local generator, always below `n`.
#[verifier::external_body]
pub(crate) fn random_u64_below(n: u64) -> (r: u64)
    requires
        n > 0,
    ensures
        r < n,
{
    rand::random_range(0..n)
}

/// Relies on rand::random_range over `lo..hi`: a value drawn from the
/// thread-local generator, within the half-open interval.
#[verifier::external_body]
pub(crate) fn random_i64_in(lo: i64, hi: i64) -> (r: i64)
    requires
        lo < hi,
    ensures
        lo <= r < hi,
{
    rand::random_range(lo..hi)
}

} // verus!
