use vstd::prelude::*;

pub mod base;
pub mod color;
pub mod genome;
pub mod population;
pub mod svg;

verus! {

use crate::genetic::base::{StrokeBase, approx_point, stroke_defs, stroke_defs_markup,
    stroke_markup};
use crate::genetic::color::Rgba;
use crate::util::image::{PixelBuffer, abs_diff_graylevel_heatmap, heat_gray, is_heat_of,
    lemma_dims_bounded, lemma_rc_index, lemma_uniform_gray_luma, luma_upto};
use crate::util::text::{dec_seq, decimal_u64};
use crate::util::{composite_over, pixmap_distance, random_u64_below, render_svg_into_pixmap,
    spec_distance};

/// The artifact kinds a finished approximation can be exported as.
pub enum FileType {
    SVG,
    PNG,
}

/// The markup of a sequence of strokes, one per line.
pub open spec fn strokes_body(s: Seq<StrokeBase>) -> Seq<char>
    decreases s.len(),
{
    if s.len() == 0 {
        Seq::empty()
    } else {
        strokes_body(s.drop_last()) + stroke_markup(s.last()) + "\n"@
    }
}

/// The opening of an approximation's SVG document: the canvas-sized
/// `svg` element, the stroke template definitions, and a white
/// background.
pub open spec fn approx_doc_open(width: int, height: int) -> Seq<char> {
    "<svg width=\""@ + dec_seq(width) + "\" height=\""@ + dec_seq(height)
        + "\" xmlns=\"http://www.w3.org/2000/svg\">\n<def>\n"@ + stroke_defs_markup()
        + "\n</def>\n<rect width=\"100%\" height=\"100%\" fill=\"white\"/>\n"@
}

/// The full SVG document of an approximation: every accepted stroke
/// over a white background.
pub open spec fn approx_markup(a: ImageApproximation) -> Seq<char> {
    approx_doc_open(a.target.width as int, a.target.height as int) + strokes_body(a.strokes@)
        + "</svg>"@
}

/// A canvas-sized SVG document holding one single stroke and no
/// background; rendering it gives the stroke's own pixels.
pub open spec fn single_stroke_markup(width: int, height: int, s: StrokeBase) -> Seq<char> {
    "<svg width=\""@ + dec_seq(width) + "\" height=\""@ + dec_seq(height)
        + "\" xmlns=\"http://www.w3.org/2000/svg\">\n<def>\n"@ + stroke_defs_markup()
        + "\n</def>\n"@ + stroke_markup(s) + "\n</svg>"@
}

/// How many pixels of the first `n` are visible (positive alpha) in the
/// mask.
pub open spec fn masked_count(m: PixelBuffer, n: int) -> int
    decreases n,
{
    if n <= 0 {
        0
    } else {
        masked_count(m, n - 1) + if m.chan(n - 1, 3) > 0 {
            1int
        } else {
            0int
        }
    }
}

/// The sum of channel `c` of the target over the first `n` pixels that
/// are visible in the mask.
pub open spec fn masked_sum(t: PixelBuffer, m: PixelBuffer, c: int, n: int) -> int
    decreases n,
{
    if n <= 0 {
        0
    } else {
        masked_sum(t, m, c, n - 1) + if m.chan(n - 1, 3) > 0 {
            t.chan(n - 1, c) as int
        } else {
            0int
        }
    }
}

/// The average color of the target under a mask: the mean of each
/// color channel over the pixels where the mask is visible, with full
/// alpha; opaque black when the mask covers nothing.
pub open spec fn spec_average_masked(t: PixelBuffer, m: PixelBuffer) -> Rgba {
    let n = t.spec_pixel_count();
    let cnt = masked_count(m, n);
    if cnt == 0 {
        Rgba { r: 0, g: 0, b: 0, a: 255 }
    } else {
        Rgba {
            r: (masked_sum(t, m, 0, n) / cnt) as u8,
            g: (masked_sum(t, m, 1, n) / cnt) as u8,
            b: (masked_sum(t, m, 2, n) / cnt) as u8,
            a: 255,
        }
    }
}

/// The mean target color over the pixels a rendered mask covers.
pub fn average_color_masked(target: &PixelBuffer, mask: &PixelBuffer) -> (c: Rgba)
    requires
        target.wf(),
        mask.wf(),
        target.width == mask.width,
        target.height == mask.height,
    ensures
        c == spec_average_masked(*target, *mask),
{
    let n = target.pixel_count();
    proof {
        lemma_dims_bounded(target.width as int, target.height as int);
    }
    let mut count: u64 = 0;
    let mut sum_r: u64 = 0;
    let mut sum_g: u64 = 0;
    let mut sum_b: u64 = 0;
    let mut i: usize = 0;
    while i < n
        invariant
            i <= n,
            n == target.spec_pixel_count(),
            n <= 0x1000_0000,
            target.wf(),
            mask.wf(),
            target.width == mask.width,
            target.height == mask.height,
            count == masked_count(*mask, i as int),
            sum_r == masked_sum(*target, *mask, 0, i as int),
            sum_g == masked_sum(*target, *mask, 1, i as int),
            sum_b == masked_sum(*target, *mask, 2, i as int),
            count <= i,
            sum_r <= 255 * count,
            sum_g <= 255 * count,
            sum_b <= 255 * count,
        decreases n - i,
    {
        if mask.get(i, 3) > 0 {
            sum_r = sum_r + target.get(i, 0) as u64;
            sum_g = sum_g + target.get(i, 1) as u64;
            sum_b = sum_b + target.get(i, 2) as u64;
            count = count + 1;
        }
        i = i + 1;
    }
    if count == 0 {
        Rgba::new(0, 0, 0, 255)
    } else {
        proof {
            assert((sum_r / count) <= 255 && (sum_g / count) <= 255 && (sum_b / count) <= 255)
                by (nonlinear_arith)
                requires
                    count >= 1,
                    sum_r <= 255 * count,
                    sum_g <= 255 * count,
                    sum_b <= 255 * count,
            ;
        }
        Rgba::new((sum_r / count) as u8, (sum_g / count) as u8, (sum_b / count) as u8, 255)
    }
}

/// `c` is the masked average of `t` under a well-formed, canvas-sized
/// mask `m`.
pub open spec fn masked_average_of(t: PixelBuffer, m: PixelBuffer, c: Rgba) -> bool {
    &&& m.wf()
    &&& m.width == t.width
    &&& m.height == t.height
    &&& c == spec_average_masked(t, m)
}

/// Whether a sample point lies on the canvas of a buffer.
pub open spec fn pt_in_canvas(t: PixelBuffer, p: (i64, i64)) -> bool {
    0 <= p.0 < t.width && 0 <= p.1 < t.height
}

/// How many of the first `n` sample points lie on the canvas.
pub open spec fn points_count(t: PixelBuffer, ps: Seq<(i64, i64)>, n: int) -> int
    decreases n,
{
    if n <= 0 {
        0
    } else {
        points_count(t, ps, n - 1) + if pt_in_canvas(t, ps[n - 1]) {
            1int
        } else {
            0int
        }
    }
}

/// The sum of channel `c` of the target over the first `n` sample
/// points that lie on the canvas.
pub open spec fn points_sum(t: PixelBuffer, ps: Seq<(i64, i64)>, c: int, n: int) -> int
    decreases n,
{
    if n <= 0 {
        0
    } else {
        points_sum(t, ps, c, n - 1) + if pt_in_canvas(t, ps[n - 1]) {
            t.chan(ps[n - 1].1 as int * t.width + ps[n - 1].0 as int, c) as int
        } else {
            0int
        }
    }
}

/// The average target color at a set of sample points: `None` when no
/// point lies on the canvas, else the mean of each color channel over
/// the points that do, with full alpha.
pub open spec fn spec_average_at_points(t: PixelBuffer, ps: Seq<(i64, i64)>) -> Option<Rgba> {
    let n = ps.len() as int;
    let cnt = points_count(t, ps, n);
    if cnt == 0 {
        None
    } else {
        Some(
            Rgba {
                r: (points_sum(t, ps, 0, n) / cnt) as u8,
                g: (points_sum(t, ps, 1, n) / cnt) as u8,
                b: (points_sum(t, ps, 2, n) / cnt) as u8,
                a: 255,
            },
        )
    }
}

/// The mean target color over the in-canvas members of a set of sample
/// points.
pub fn average_color_at_points(target: &PixelBuffer, points: &Vec<(i64, i64)>) -> (c: Option<
    Rgba,
>)
    requires
        target.wf(),
        points@.len() <= 0x1000_0000,
    ensures
        c == spec_average_at_points(*target, points@),
{
    let n = points.len();
    let mut count: u64 = 0;
    let mut sum_r: u64 = 0;
    let mut sum_g: u64 = 0;
    let mut sum_b: u64 = 0;
    let mut i: usize = 0;
    while i < n
        invariant
            i <= n,
            n == points@.len(),
            n <= 0x1000_0000,
            target.wf(),
            count == points_count(*target, points@, i as int),
            sum_r == points_sum(*target, points@, 0, i as int),
            sum_g == points_sum(*target, points@, 1, i as int),
            sum_b == points_sum(*target, points@, 2, i as int),
            count <= i,
            sum_r <= 255 * count,
            sum_g <= 255 * count,
            sum_b <= 255 * count,
        decreases n - i,
    {
        let p = points[i];
        if p.0 >= 0 && p.1 >= 0 && p.0 < target.width as i64 && p.1 < target.height as i64 {
            proof {
                lemma_rc_index(target.width as int, target.height as int, p.0 as int, p.1 as int);
                lemma_dims_bounded(target.width as int, target.height as int);
            }
            let idx = (p.1 as usize) * (target.width as usize) + (p.0 as usize);
            sum_r = sum_r + target.get(idx, 0) as u64;
            sum_g = sum_g + target.get(idx, 1) as u64;
            sum_b = sum_b + target.get(idx, 2) as u64;
            count = count + 1;
        }
        i = i + 1;
    }
    if count == 0 {
        None
    } else {
        proof {
            assert((sum_r / count) <= 255 && (sum_g / count) <= 255 && (sum_b / count) <= 255)
                by (nonlinear_arith)
                requires
                    count >= 1,
                    sum_r <= 255 * count,
                    sum_g <= 255 * count,
                    sum_b <= 255 * count,
            ;
        }
        Some(Rgba::new((sum_r / count) as u8, (sum_g / count) as u8, (sum_b / count) as u8, 255))
    }
}

/// The sum of the per-pixel grayscale error between an approximation's
/// target and its render, over the first `n` pixels.
pub open spec fn error_upto(a: ImageApproximation, n: int) -> int
    decreases n,
{
    if n <= 0 {
        0
    } else {
        error_upto(a, n - 1) + heat_gray(a.target, a.pixmap_render, n - 1)
    }
}

/// The total grayscale error between an approximation's target and its
/// render; the importance mask can only be rebuilt while this is
/// positive.
pub open spec fn total_error(a: ImageApproximation) -> int {
    error_upto(a, a.target.spec_pixel_count())
}

/// `heat` holds, pixel for pixel, the grayscale error between an
/// approximation's target and its render, in all three color channels
/// and with full alpha.
pub open spec fn is_error_heatmap(a: ImageApproximation, heat: PixelBuffer) -> bool {
    is_heat_of(a.target, a.pixmap_render, heat)
}

/// The error heatmap's luma is exactly the per-pixel grayscale error,
/// so its total luma is the approximation's total error.
pub proof fn lemma_heatmap_luma(a: ImageApproximation, heat: PixelBuffer, n: int)
    requires
        is_error_heatmap(a, heat),
        n <= heat.spec_pixel_count(),
    ensures
        luma_upto(heat, n) == error_upto(a, n),
    decreases n,
{
    if n > 0 {
        lemma_heatmap_luma(a, heat, n - 1);
        lemma_uniform_gray_luma(heat, n - 1);
    }
}

/// A single-lineage greedy approximation of a target image: an ordered
/// list of accepted strokes, the composited render of those strokes,
/// and the render's fitness against the target.
pub struct ImageApproximation {
    pub target: PixelBuffer,
    pub strokes: Vec<StrokeBase>,
    pub pixmap_render: PixelBuffer,
    pub fitness: u64,
}

impl ImageApproximation {
    /// Well-formedness: target and render share the canvas, every
    /// stroke is well-formed, and the stored fitness is either the
    /// starting sentinel (nothing rendered yet) or exactly the render's
    /// distance from the target.
    pub open spec fn wf(self) -> bool {
        &&& self.target.wf()
        &&& self.pixmap_render.wf()
        &&& self.pixmap_render.width == self.target.width
        &&& self.pixmap_render.height == self.target.height
        &&& forall|i: int| 0 <= i < self.strokes@.len() ==> (#[trigger] self.strokes@[i]).wf()
        &&& (self.fitness == u64::MAX || self.fitness as int == spec_distance(
            self.pixmap_render,
            self.target,
        ))
    }

    /// A fresh approximation of the given target: no strokes, an empty
    /// render, and the worst possible fitness.
    pub fn new(target: PixelBuffer) -> (a: ImageApproximation)
        requires
            target.wf(),
        ensures
            a.wf(),
            a.target == target,
            a.strokes@.len() == 0,
            a.fitness == u64::MAX,
            forall|i: int, c: int|
                0 <= i < a.pixmap_render.spec_pixel_count() && 0 <= c < 4
                    ==> a.pixmap_render.chan(i, c) == 0,
    {
        let pixmap_render = PixelBuffer::blank(target.width, target.height);
        ImageApproximation { target, strokes: Vec::new(), pixmap_render, fitness: u64::MAX }
    }

    /// The approximation's full SVG document: every accepted stroke, in
    /// acceptance order, over a white background.
    pub fn express(&self) -> (s: String)
        requires
            self.wf(),
        ensures
            s@ == approx_markup(*self),
    {
        let mut s = String::new();
        s.append("<svg width=\"");
        let w = decimal_u64(self.target.width as u64);
        s.append(w.as_str());
        s.append("\" height=\"");
        let h = decimal_u64(self.target.height as u64);
        s.append(h.as_str());
        s.append("\" xmlns=\"http://www.w3.org/2000/svg\">\n<def>\n");
        let defs = stroke_defs();
        s.append(defs.as_str());
        s.append("\n</def>\n<rect width=\"100%\" height=\"100%\" fill=\"white\"/>\n");
        let ghost opening = approx_doc_open(self.target.width as int, self.target.height as int);
        proof {
            assert(s@ =~= opening);
        }
        let n = self.strokes.len();
        let mut i: usize = 0;
        while i < n
            invariant
                i <= n,
                n == self.strokes@.len(),
                self.wf(),
                opening == approx_doc_open(self.target.width as int, self.target.height as int),
                s@ == opening + strokes_body(self.strokes@.take(i as int)),
            decreases n - i,
        {
            let e = self.strokes[i].express();
            s.append(e.as_str());
            s.append("\n");
            proof {
                let pre = self.strokes@.take(i as int);
                let cur = self.strokes@.take(i + 1);
                assert(cur.drop_last() =~= pre);
                assert(cur.last() == self.strokes@[i as int]);
                assert(s@ =~= opening + strokes_body(cur));
            }
            i = i + 1;
        }
        s.append("</svg>");
        proof {
            assert(self.strokes@.take(n as int) =~= self.strokes@);
            assert(s@ =~= approx_markup(*self));
        }
        s
    }

    /// A canvas-sized SVG document holding one single stroke and no
    /// background, used to render a stroke alone (for compositing or
    /// for masking).
    pub fn express_stroke(&self, stroke: &StrokeBase) -> (s: String)
        requires
            self.wf(),
            stroke.wf(),
        ensures
            s@ == single_stroke_markup(
                self.target.width as int,
                self.target.height as int,
                *stroke,
            ),
    {
        let mut s = String::new();
        s.append("<svg width=\"");
        let w = decimal_u64(self.target.width as u64);
        s.append(w.as_str());
        s.append("\" height=\"");
        let h = decimal_u64(self.target.height as u64);
        s.append(h.as_str());
        s.append("\" xmlns=\"http://www.w3.org/2000/svg\">\n<def>\n");
        let defs = stroke_defs();
        s.append(defs.as_str());
        s.append("\n</def>\n");
        let e = stroke.express();
        s.append(e.as_str());
        s.append("\n</svg>");
        proof {
            assert(s@ =~= single_stroke_markup(
                self.target.width as int,
                self.target.height as int,
                *stroke,
            ));
        }
        s
    }

    /// The current render with one extra stroke composited on top: the
    /// stroke is rasterized alone and alpha-composited over the
    /// accepted render.  `None` when the rasterizer rejects the
    /// stroke's markup.
    pub fn get_render_with_stroke(&mut self, stroke: &StrokeBase) -> (r: Option<PixelBuffer>)
        requires
            old(self).wf(),
            stroke.wf(),
        ensures
            *final(self) == *old(self),
            r matches Some(b) ==> b.wf() && b.width == old(self).target.width && b.height == old(
                self,
            ).target.height,
    {
        let svg = self.express_stroke(stroke);
        match render_svg_into_pixmap(svg.as_str(), self.target.width, self.target.height) {
            Some(stroke_render) => Some(composite_over(&self.pixmap_render, &stroke_render)),
            None => None,
        }
    }

    /// The exact mean target color under a stroke: the stroke is
    /// rasterized alone as a mask, and the target is averaged over the
    /// pixels the mask covers.  Opaque black when the rasterizer
    /// rejects the markup (or, via the average itself, when the stroke
    /// covers nothing).
    pub fn average_color_in_stroke(&self, stroke: &StrokeBase) -> (c: Rgba)
        requires
            self.wf(),
            stroke.wf(),
        ensures
            c == (Rgba { r: 0, g: 0, b: 0, a: 255 }) || exists|m: PixelBuffer|
                #[trigger] masked_average_of(self.target, m, c),
    {
        let svg = self.express_stroke(stroke);
        match render_svg_into_pixmap(svg.as_str(), self.target.width, self.target.height) {
            Some(mask) => {
                let c = average_color_masked(&self.target, &mask);
                proof {
                    assert(masked_average_of(self.target, mask, c));
                }
                c
            },
            None => Rgba::new(0, 0, 0, 255),
        }
    }

    /// The approximate mean target color under a stroke, from the
    /// stroke's sixteen footprint sample points instead of a render:
    /// `None` when no sample point lies on the canvas.
    pub fn approximate_average_color_in_stroke(&self, stroke: &StrokeBase) -> (c: Option<Rgba>)
        requires
            self.wf(),
            stroke.wf(),
        ensures
            c == spec_average_at_points(
                self.target,
                Seq::new(16, |k: int| approx_point(*stroke, k)),
            ),
    {
        let points = stroke.approximate_pixels();
        let c = average_color_at_points(&self.target, &points);
        proof {
            assert(points@ =~= Seq::new(16, |k: int| approx_point(*stroke, k)));
        }
        c
    }

    /// One greedy insertion attempt: propose a stroke placed by the
    /// controller's importance mask, color it by the approximate
    /// average target color under it, then hill-climb by mutating it
    /// while that strictly improves fitness, giving up after the
    /// controller's attempt bound of consecutive failures.  The locally
    /// best stroke is committed only if it strictly improves the
    /// lineage's fitness; otherwise nothing changes.
    pub fn add_stroke(&mut self, controller: &crate::Controller) -> (success: bool)
        requires
            old(self).wf(),
            controller.wf(),
        ensures
            final(self).wf(),
            final(self).target == old(self).target,
            final(self).fitness <= old(self).fitness,
            success ==> final(self).fitness < old(self).fitness && final(self).strokes@.len()
                == old(self).strokes@.len() + 1 && final(self).strokes@.take(
                old(self).strokes@.len() as int,
            ) == old(self).strokes@,
            !success ==> *final(self) == *old(self),
    {
        let mut top_stroke = StrokeBase::new();
        let xy = controller.get_xy();
        top_stroke.set_xy((xy.0 as i64, xy.1 as i64));
        top_stroke.set_rotation(random_u64_below(360) as i64);
        top_stroke.set_scale(controller.get_scale());

        match self.approximate_average_color_in_stroke(&top_stroke) {
            Some(c) => top_stroke.set_color(c),
            None => {
                return false;
            },
        }

        let mut top_render = match self.get_render_with_stroke(&top_stroke) {
            Some(r) => r,
            None => {
                return false;
            },
        };
        let mut top_fitness = pixmap_distance(&top_render, &self.target);

        let max_attempts = controller.get_max_attempts();
        let mut attempts: u32 = 0;
        while attempts < max_attempts
            invariant
                attempts <= max_attempts,
                self.wf(),
                *self == *old(self),
                controller.wf(),
                top_stroke.wf(),
                top_render.wf(),
                top_render.width == self.target.width,
                top_render.height == self.target.height,
                top_fitness as int == spec_distance(top_render, self.target),
            decreases top_fitness, max_attempts - attempts,
        {
            let mut new_stroke = top_stroke;
            new_stroke.mutate(controller);

            match self.approximate_average_color_in_stroke(&new_stroke) {
                Some(c) => new_stroke.set_color(c),
                None => {
                    attempts = attempts + 1;
                    continue;
                },
            }

            let new_render = match self.get_render_with_stroke(&new_stroke) {
                Some(r) => r,
                None => {
                    attempts = attempts + 1;
                    continue;
                },
            };
            let new_fitness = pixmap_distance(&new_render, &self.target);

            if new_fitness < top_fitness {
                top_stroke = new_stroke;
                top_render = new_render;
                top_fitness = new_fitness;
                attempts = 0;
            } else {
                attempts = attempts + 1;
            }
        }

        if top_fitness < self.fitness {
            self.strokes.push(top_stroke);
            self.pixmap_render = top_render;
            self.fitness = top_fitness;
            proof {
                assert(self.strokes@.take(old(self).strokes@.len() as int) =~= old(self).strokes@);
            }
            true
        } else {
            false
        }
    }

    /// The grayscale heatmap of where the current render still differs
    /// from the target; rebuilding the importance mask from it biases
    /// the next placements toward the largest remaining mismatch.
    pub fn target_approximation_diffmap(&self) -> (r: PixelBuffer)
        requires
            self.wf(),
        ensures
            r.wf(),
            r.width == self.target.width,
            r.height == self.target.height,
            is_error_heatmap(*self, r),
    {
        abs_diff_graylevel_heatmap(&self.target, &self.pixmap_render)
    }
}

} // verus!
