use vstd::prelude::*;

pub mod genetic;
pub mod util;

verus! {

use crate::util::image::{GraylevelMask, PixelBuffer, heat_gray, mask_weight, pixel_luma,
    total_luma};

/// Shared placement state for the greedy optimizer: an importance mask
/// that biases where new strokes are placed, and the current stroke
/// scale, held in thousandths.
pub struct Controller {
    pub mask: GraylevelMask,
    pub scale_x_milli: i64,
    pub scale_y_milli: i64,
}

impl Controller {
    pub open spec fn wf(self) -> bool {
        &&& self.mask.wf()
        &&& 0 <= self.scale_x_milli <= 1_000_000_000
        &&& 0 <= self.scale_y_milli <= 1_000_000_000
    }

    /// A controller whose mask weights pixels by the grayscale luma of
    /// the given image; the scale starts at 1 (1000 thousandths).
    pub fn new(src_image: &PixelBuffer) -> (c: Controller)
        requires
            src_image.wf(),
            total_luma(*src_image) > 0,
        ensures
            c.wf(),
            c.mask.width == src_image.width,
            c.mask.height == src_image.height,
            c.scale_x_milli == 1000,
            c.scale_y_milli == 1000,
    {
        Controller {
            mask: GraylevelMask::from(src_image),
            scale_x_milli: 1000,
            scale_y_milli: 1000,
        }
    }

    /// Replaces the importance mask with one built from a new source
    /// image (typically the current error heatmap).
    pub fn set_mask_from_pixmap(&mut self, pixmap: &PixelBuffer)
        requires
            old(self).wf(),
            pixmap.wf(),
            total_luma(*pixmap) > 0,
        ensures
            final(self).wf(),
            final(self).mask.width == pixmap.width,
            final(self).mask.height == pixmap.height,
            final(self).scale_x_milli == old(self).scale_x_milli,
            final(self).scale_y_milli == old(self).scale_y_milli,
            forall|i: int|
                0 <= i < final(self).mask.cum@.len() ==> #[trigger] mask_weight(
                    final(self).mask,
                    i,
                ) == pixel_luma(*pixmap, i),
    {
        self.mask = GraylevelMask::from(pixmap);
    }

    /// Draws a canvas position from the importance mask; only positions
    /// of positive mask weight can come out.
    pub fn get_xy(&self) -> (p: (i32, i32))
        requires
            self.wf(),
        ensures
            0 <= p.0 < self.mask.width,
            0 <= p.1 < self.mask.height,
            mask_weight(self.mask, p.1 as int * self.mask.width + p.0) > 0,
    {
        let xy = self.mask.sample_random_xy();
        (xy.0 as i32, xy.1 as i32)
    }

    pub fn set_scale(&mut self, scale: (i64, i64))
        requires
            old(self).wf(),
            0 <= scale.0 <= 1_000_000_000,
            0 <= scale.1 <= 1_000_000_000,
        ensures
            final(self).wf(),
            final(self).mask == old(self).mask,
            final(self).scale_x_milli == scale.0,
            final(self).scale_y_milli == scale.1,
    {
        self.scale_x_milli = scale.0;
        self.scale_y_milli = scale.1;
    }

    pub fn get_scale(&self) -> (s: (i64, i64))
        ensures
            s.0 == self.scale_x_milli,
            s.1 == self.scale_y_milli,
    {
        (self.scale_x_milli, self.scale_y_milli)
    }

    /// How far a mutation may move a stroke: the stroke template size
    /// scaled by the current scale, and at least one pixel.
    pub fn get_mutation_movement(&self) -> (m: (i64, i64))
        requires
            self.wf(),
        ensures
            m.0 == spec_movement(self.scale_x_milli as int),
            m.1 == spec_movement(self.scale_y_milli as int),
    {
        let scale = self.get_scale();
        let mx = crate::genetic::base::STROKE_WIDTH as i64 * scale.0 / 1000;
        let my = crate::genetic::base::STROKE_HEIGHT as i64 * scale.1 / 1000;
        (if mx < 1 { 1 } else { mx }, if my < 1 { 1 } else { my })
    }

    /// How many consecutive non-improving local-search attempts the
    /// optimizer tolerates before it gives up on a stroke.
    pub fn get_max_attempts(&self) -> (n: u32)
        ensures
            n == 25,
    {
        25
    }
}

/// The mutation movement for a scale in thousandths: the stroke
/// template dimension (100) scaled, floored at one pixel.
pub open spec fn spec_movement(scale_milli: int) -> int {
    let m = 100 * scale_milli / 1000;
    if m < 1 {
        1
    } else {
        m
    }
}

/// The larger of a buffer's two canvas dimensions.
pub open spec fn spec_max_dim(t: PixelBuffer) -> int {
    if t.width >= t.height {
        t.width as int
    } else {
        t.height as int
    }
}

/// The importance mask weights every pixel by the grayscale error
/// between the approximation's target and its current render.
pub open spec fn mask_tracks_error(m: GraylevelMask, a: crate::genetic::ImageApproximation) -> bool {
    &&& m.width == a.target.width
    &&& m.height == a.target.height
    &&& forall|i: int|
        0 <= i < m.cum@.len() ==> #[trigger] mask_weight(m, i) == heat_gray(
            a.target,
            a.pixmap_render,
            i,
        )
}

/// The stroke scale for a given annealing stage, in thousandths: the
/// larger canvas dimension divided by eight stroke widths, shrinking as
/// the stage rises but never below one thousandth, so the scale stays
/// strictly positive at every stage.
pub open spec fn spec_stage_scale(max_dim: int, stage: int) -> int {
    let s = max_dim * 1000 / (800 * stage);
    if s < 1 {
        1
    } else {
        s
    }
}

/// One step of the greedy optimization loop: try to add one stroke.
/// On success the failure counter resets and the importance mask is
/// rebuilt from the remaining error (when any error remains to weight
/// it; a perfect match leaves the controller alone).  On a failure
/// below the threshold only the counter rises; the twentieth
/// consecutive failure resets it, advances the stage and shrinks the
/// stroke scale to the stage formula.  The approximation's fitness
/// never worsens.
pub fn run_step(
    approx: &mut crate::genetic::ImageApproximation,
    controller: &mut Controller,
    stage: &mut u32,
    failed_insertions: &mut u32,
) -> (success: bool)
    requires
        old(approx).wf(),
        old(controller).wf(),
        *old(stage) >= 1,
        *old(failed_insertions) < 20,
    ensures
        final(approx).wf(),
        final(controller).wf(),
        *final(stage) >= 1,
        *final(failed_insertions) < 20,
        final(approx).target == old(approx).target,
        final(approx).fitness <= old(approx).fitness,
        success ==> final(approx).fitness < old(approx).fitness
            && *final(failed_insertions) == 0
            && *final(stage) == *old(stage)
            && final(controller).scale_x_milli == old(controller).scale_x_milli
            && final(controller).scale_y_milli == old(controller).scale_y_milli
            && (if crate::genetic::total_error(*final(approx)) > 0 {
                mask_tracks_error(final(controller).mask, *final(approx))
            } else {
                *final(controller) == *old(controller)
            }),
        !success && *old(failed_insertions) < 19 ==> *final(approx) == *old(approx)
            && *final(failed_insertions) == *old(failed_insertions) + 1
            && *final(stage) == *old(stage)
            && *final(controller) == *old(controller),
        !success && *old(failed_insertions) == 19 ==> *final(approx) == *old(approx)
            && *final(failed_insertions) == 0
            && *final(stage) == (if *old(stage) < u32::MAX {
                (*old(stage) + 1) as u32
            } else {
                *old(stage)
            })
            && final(controller).mask == old(controller).mask
            && final(controller).scale_x_milli as int == spec_stage_scale(
                spec_max_dim(old(approx).target),
                *final(stage) as int,
            )
            && final(controller).scale_y_milli == final(controller).scale_x_milli,
{
    let success = approx.add_stroke(controller);
    if success {
        *failed_insertions = 0;
        let new_mask = approx.target_approximation_diffmap();
        proof {
            crate::genetic::lemma_heatmap_luma(*approx, new_mask, new_mask.spec_pixel_count());
            assert(new_mask.spec_pixel_count() == approx.target.spec_pixel_count());
            assert(total_luma(new_mask) == crate::genetic::total_error(*approx));
        }
        if crate::util::image::total_gray(&new_mask) > 0 {
            controller.set_mask_from_pixmap(&new_mask);
            proof {
                assert forall|i: int| 0 <= i < controller.mask.cum@.len()
                    implies #[trigger] mask_weight(controller.mask, i) == heat_gray(
                    approx.target,
                    approx.pixmap_render,
                    i,
                ) by {
                    assert(0 <= i < new_mask.spec_pixel_count());
                    assert(mask_weight(controller.mask, i) == pixel_luma(new_mask, i));
                    assert(new_mask.chan(i, 0) == heat_gray(approx.target, approx.pixmap_render, i));
                    crate::util::image::lemma_uniform_gray_luma(new_mask, i);
                }
                assert(mask_tracks_error(controller.mask, *approx));
            }
        }
    } else {
        *failed_insertions = *failed_insertions + 1;
        if *failed_insertions == 20 {
            *failed_insertions = 0;
            if *stage < u32::MAX {
                *stage = *stage + 1;
            }
            controller.set_scale(calc_scale(&approx.target, *stage));
        }
    }
    success
}

/// The coarse-to-fine stroke scale for a target image and stage.
pub fn calc_scale(target: &PixelBuffer, stage: u32) -> (s: (i64, i64))
    requires
        target.wf(),
        stage >= 1,
    ensures
        s.0 == spec_stage_scale(spec_max_dim(*target), stage as int),
        s.1 == s.0,
        1 <= s.0 <= 20480,
{
    let max_dim: i64 = if target.width >= target.height {
        target.width as i64
    } else {
        target.height as i64
    };
    let raw = max_dim * 1000 / (800 * stage as i64);
    proof {
        assert(0 <= max_dim * 1000 / (800 * stage as i64) <= 20480) by (nonlinear_arith)
            requires
                1 <= max_dim <= 0x4000,
                stage >= 1,
        ;
    }
    let s = if raw < 1 {
        1
    } else {
        raw
    };
    (s, s)
}

} // verus!
