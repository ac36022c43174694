use vstd::prelude::*;

verus! {

pub use crate::genetic::base::StrokeBase;
pub use crate::genetic::genome::SvgElementGenome;
use crate::genetic::base::norm360;
use crate::genetic::color::{Rgba, hex_of, lemma_perturbed_weaken, mag_clamp, perturbed_within};
use crate::util::text::{alpha_fraction, alpha_fraction_seq, dec_seq, dec_seq_signed, milli_seq,
    decimal_u64, decimal_i64, decimal_milli};
use crate::util::{clamp, clamp_spec, random_i64_in, random_u64_below};

/// One drawable primitive kind: something that can be created at
/// random within a canvas, expressed as SVG markup, and mutated in
/// place.  Mutation and expression never change the primitive's kind.
pub trait Base: Sized + Copy {
    /// The primitive's internal bounds invariant.
    spec fn wf(self) -> bool;

    /// The primitive's markup, as a mathematical string.
    spec fn markup(self) -> Seq<char>;

    /// Where a freshly created primitive may lie on a canvas of the
    /// given size.
    spec fn placed_within(self, max_x: int, max_y: int) -> bool;

    /// How far one mutation may move the primitive: the kind-specific
    /// bounded-jitter relation between the value before and after.
    spec fn mutation_step(self, after: Self) -> bool;

    /// A randomized primitive within a canvas of the given size.
    fn new(max_x: u32, max_y: u32) -> (s: Self)
        requires
            1 <= max_x <= 0x4000,
            1 <= max_y <= 0x4000,
        ensures
            s.wf(),
            s.placed_within(max_x as int, max_y as int),
    ;

    /// The primitive's markup, as a string.
    fn express(&self) -> (s: String)
        requires
            self.wf(),
        ensures
            s@ == self.markup(),
    ;

    /// Perturbs the primitive's numeric or color fields in place, by at
    /// most the kind's mutation step.
    fn mutate(&mut self)
        requires
            old(self).wf(),
        ensures
            final(self).wf(),
            old(self).mutation_step(*final(self)),
    ;
}

/// A plain fill color, used as the drawing's background primitive.
#[derive(Clone, Copy, PartialEq, Eq, Structural, Debug)]
pub struct RgbBase {
    pub color: Rgba,
}

impl Base for RgbBase {
    open spec fn wf(self) -> bool {
        true
    }

    open spec fn markup(self) -> Seq<char> {
        hex_of(self.color)
    }

    open spec fn placed_within(self, max_x: int, max_y: int) -> bool {
        true
    }

    open spec fn mutation_step(self, after: Self) -> bool {
        perturbed_within(self.color, after.color, 19)
    }

    fn new(max_x: u32, max_y: u32) -> (s: Self) {
        RgbBase { color: Rgba::new_rand() }
    }

    fn express(&self) -> (s: String) {
        self.color.as_hex()
    }

    fn mutate(&mut self) {
        let magnitude = random_i64_in(0, 20);
        self.color.mutate(magnitude);
        proof {
            lemma_perturbed_weaken(
                old(self).color,
                self.color,
                mag_clamp(magnitude as int),
                19,
            );
        }
    }
}

/// A filled circle.
#[derive(Clone, Copy, PartialEq, Eq, Structural, Debug)]
pub struct CircleBase {
    pub x: i64,
    pub y: i64,
    pub r: i64,
    pub color: Rgba,
    pub max_r: u64,
}

/// The radius bound of a fresh circle on a canvas: a sixteenth of the
/// average canvas dimension, and at least two (so a radius of one is
/// always available).
pub open spec fn spec_max_radius(max_x: int, max_y: int) -> int {
    let mr = ((max_x + max_y) / 2) / 16;
    if mr < 2 {
        2
    } else {
        mr
    }
}

/// `after` arises from `before` by center deltas and a radius delta,
/// each under five units (the center saturating at the placement
/// bounds, the radius never dropping below one), plus a bounded color
/// perturbation; the radius bound never changes.
pub open spec fn circle_step(
    before: CircleBase,
    after: CircleBase,
    dx: int,
    dy: int,
    dr: int,
) -> bool {
    &&& -5 <= dx < 5
    &&& -5 <= dy < 5
    &&& -5 <= dr < 5
    &&& after.x as int == clamp_spec(before.x + dx, -1_000_000_000, 1_000_000_000)
    &&& after.y as int == clamp_spec(before.y + dy, -1_000_000_000, 1_000_000_000)
    &&& after.r as int == clamp_spec(before.r + dr, 1, 1_000_000_000)
    &&& after.max_r == before.max_r
    &&& perturbed_within(before.color, after.color, 19)
}

/// The markup of a circle primitive.
pub open spec fn circle_markup(c: CircleBase) -> Seq<char> {
    "<circle cx=\""@ + dec_seq_signed(c.x as int) + "\" cy=\""@ + dec_seq_signed(c.y as int)
        + "\" r=\""@ + dec_seq_signed(c.r as int) + "\" fill-opacity=\""@ + alpha_fraction_seq(
        c.color.a as int,
    ) + "\" fill=\""@ + hex_of(c.color) + "\"/>"@
}

impl Base for CircleBase {
    open spec fn wf(self) -> bool {
        &&& -1_000_000_000 <= self.x <= 1_000_000_000
        &&& -1_000_000_000 <= self.y <= 1_000_000_000
        &&& 1 <= self.r <= 1_000_000_000
        &&& 2 <= self.max_r <= 0x4000
    }

    open spec fn markup(self) -> Seq<char> {
        circle_markup(self)
    }

    open spec fn placed_within(self, max_x: int, max_y: int) -> bool {
        &&& 0 <= self.x < max_x
        &&& 0 <= self.y < max_y
        &&& 1 <= self.r < spec_max_radius(max_x, max_y)
        &&& self.max_r == spec_max_radius(max_x, max_y)
    }

    open spec fn mutation_step(self, after: Self) -> bool {
        exists|dx: int, dy: int, dr: int| #[trigger] circle_step(self, after, dx, dy, dr)
    }

    /// A random circle within the canvas; the radius is bounded by a
    /// sixteenth of the average canvas dimension, and at least 1.
    fn new(max_x: u32, max_y: u32) -> (s: Self) {
        let mr = ((max_x as u64) + (max_y as u64)) / 2 / 16;
        let max_r: u64 = if mr < 2 {
            2
        } else {
            mr
        };
        CircleBase {
            x: random_u64_below(max_x as u64) as i64,
            y: random_u64_below(max_y as u64) as i64,
            r: (1 + random_u64_below(max_r - 1)) as i64,
            color: Rgba::new_rand(),
            max_r,
        }
    }

    fn express(&self) -> (s: String) {
        let mut s = String::new();
        s.append("<circle cx=\"");
        let x = decimal_i64(self.x);
        s.append(x.as_str());
        s.append("\" cy=\"");
        let y = decimal_i64(self.y);
        s.append(y.as_str());
        s.append("\" r=\"");
        let r = decimal_i64(self.r);
        s.append(r.as_str());
        s.append("\" fill-opacity=\"");
        let o = alpha_fraction(self.color.a);
        s.append(o.as_str());
        s.append("\" fill=\"");
        let hex = self.color.as_hex();
        s.append(hex.as_str());
        s.append("\"/>");
        proof {
            assert(s@ =~= circle_markup(*self));
        }
        s
    }

    /// Jitters the center and radius by at most five units each and
    /// perturbs the color; the radius never drops below 1.
    fn mutate(&mut self) {
        let dx = random_i64_in(-5, 5);
        let dy = random_i64_in(-5, 5);
        let dr = random_i64_in(-5, 5);
        self.x = clamp(self.x + dx, -1_000_000_000, 1_000_000_000);
        self.y = clamp(self.y + dy, -1_000_000_000, 1_000_000_000);
        self.r = clamp(self.r + dr, 1, 1_000_000_000);
        let magnitude = random_i64_in(0, 20);
        self.color.mutate(magnitude);
        proof {
            lemma_perturbed_weaken(
                old(self).color,
                self.color,
                mag_clamp(magnitude as int),
                19,
            );
            assert(circle_step(*old(self), *self, dx as int, dy as int, dr as int));
        }
    }
}

/// A filled triangle given by its three corner points.
#[derive(Clone, Copy, PartialEq, Eq, Structural, Debug)]
pub struct TriangleBase {
    pub x1: i64,
    pub y1: i64,
    pub x2: i64,
    pub y2: i64,
    pub x3: i64,
    pub y3: i64,
    pub color: Rgba,
}

/// `after` arises from `before` by per-coordinate deltas, each under
/// five units (saturating at the placement bounds), plus a bounded
/// color perturbation.
pub open spec fn triangle_step(
    before: TriangleBase,
    after: TriangleBase,
    d1: int,
    d2: int,
    d3: int,
    d4: int,
    d5: int,
    d6: int,
) -> bool {
    &&& -5 <= d1 < 5 && -5 <= d2 < 5 && -5 <= d3 < 5
    &&& -5 <= d4 < 5 && -5 <= d5 < 5 && -5 <= d6 < 5
    &&& after.x1 as int == clamp_spec(before.x1 + d1, -1_000_000_000, 1_000_000_000)
    &&& after.y1 as int == clamp_spec(before.y1 + d2, -1_000_000_000, 1_000_000_000)
    &&& after.x2 as int == clamp_spec(before.x2 + d3, -1_000_000_000, 1_000_000_000)
    &&& after.y2 as int == clamp_spec(before.y2 + d4, -1_000_000_000, 1_000_000_000)
    &&& after.x3 as int == clamp_spec(before.x3 + d5, -1_000_000_000, 1_000_000_000)
    &&& after.y3 as int == clamp_spec(before.y3 + d6, -1_000_000_000, 1_000_000_000)
    &&& perturbed_within(before.color, after.color, 19)
}

/// The markup of a triangle primitive.
pub open spec fn triangle_markup(t: TriangleBase) -> Seq<char> {
    "<polygon points=\""@ + dec_seq_signed(t.x1 as int) + ","@ + dec_seq_signed(t.y1 as int)
        + " "@ + dec_seq_signed(t.x2 as int) + ","@ + dec_seq_signed(t.y2 as int) + " "@
        + dec_seq_signed(t.x3 as int) + ","@ + dec_seq_signed(t.y3 as int)
        + "\" fill-opacity=\""@ + alpha_fraction_seq(t.color.a as int) + "\" fill=\""@ + hex_of(
        t.color,
    ) + "\"/>"@
}

impl Base for TriangleBase {
    open spec fn wf(self) -> bool {
        &&& -1_000_000_000 <= self.x1 <= 1_000_000_000
        &&& -1_000_000_000 <= self.y1 <= 1_000_000_000
        &&& -1_000_000_000 <= self.x2 <= 1_000_000_000
        &&& -1_000_000_000 <= self.y2 <= 1_000_000_000
        &&& -1_000_000_000 <= self.x3 <= 1_000_000_000
        &&& -1_000_000_000 <= self.y3 <= 1_000_000_000
    }

    open spec fn markup(self) -> Seq<char> {
        triangle_markup(self)
    }

    open spec fn placed_within(self, max_x: int, max_y: int) -> bool {
        &&& 0 <= self.x1 < max_x && 0 <= self.y1 < max_y
        &&& 0 <= self.x2 < max_x && 0 <= self.y2 < max_y
        &&& 0 <= self.x3 < max_x && 0 <= self.y3 < max_y
    }

    open spec fn mutation_step(self, after: Self) -> bool {
        exists|d1: int, d2: int, d3: int, d4: int, d5: int, d6: int|
            #[trigger] triangle_step(self, after, d1, d2, d3, d4, d5, d6)
    }

    fn new(max_x: u32, max_y: u32) -> (s: Self) {
        TriangleBase {
            x1: random_u64_below(max_x as u64) as i64,
            y1: random_u64_below(max_y as u64) as i64,
            x2: random_u64_below(max_x as u64) as i64,
            y2: random_u64_below(max_y as u64) as i64,
            x3: random_u64_below(max_x as u64) as i64,
            y3: random_u64_below(max_y as u64) as i64,
            color: Rgba::new_rand(),
        }
    }

    fn express(&self) -> (s: String) {
        let mut s = String::new();
        s.append("<polygon points=\"");
        let x1 = decimal_i64(self.x1);
        s.append(x1.as_str());
        s.append(",");
        let y1 = decimal_i64(self.y1);
        s.append(y1.as_str());
        s.append(" ");
        let x2 = decimal_i64(self.x2);
        s.append(x2.as_str());
        s.append(",");
        let y2 = decimal_i64(self.y2);
        s.append(y2.as_str());
        s.append(" ");
        let x3 = decimal_i64(self.x3);
        s.append(x3.as_str());
        s.append(",");
        let y3 = decimal_i64(self.y3);
        s.append(y3.as_str());
        s.append("\" fill-opacity=\"");
        let o = alpha_fraction(self.color.a);
        s.append(o.as_str());
        s.append("\" fill=\"");
        let hex = self.color.as_hex();
        s.append(hex.as_str());
        s.append("\"/>");
        proof {
            assert(s@ =~= triangle_markup(*self));
        }
        s
    }

    /// Jitters every corner by at most five units on each axis and
    /// perturbs the color.
    fn mutate(&mut self) {
        let d1 = random_i64_in(-5, 5);
        let d2 = random_i64_in(-5, 5);
        let d3 = random_i64_in(-5, 5);
        let d4 = random_i64_in(-5, 5);
        let d5 = random_i64_in(-5, 5);
        let d6 = random_i64_in(-5, 5);
        self.x1 = clamp(self.x1 + d1, -1_000_000_000, 1_000_000_000);
        self.y1 = clamp(self.y1 + d2, -1_000_000_000, 1_000_000_000);
        self.x2 = clamp(self.x2 + d3, -1_000_000_000, 1_000_000_000);
        self.y2 = clamp(self.y2 + d4, -1_000_000_000, 1_000_000_000);
        self.x3 = clamp(self.x3 + d5, -1_000_000_000, 1_000_000_000);
        self.y3 = clamp(self.y3 + d6, -1_000_000_000, 1_000_000_000);
        let magnitude = random_i64_in(0, 20);
        self.color.mutate(magnitude);
        proof {
            lemma_perturbed_weaken(
                old(self).color,
                self.color,
                mag_clamp(magnitude as int),
                19,
            );
            assert(triangle_step(
                *old(self),
                *self,
                d1 as int,
                d2 as int,
                d3 as int,
                d4 as int,
                d5 as int,
                d6 as int,
            ));
        }
    }
}

/// The markup of a placed stroke whose opacity follows its color's
/// alpha channel (the genome-family rendering of a stroke).
pub open spec fn stroke_markup_alpha(s: StrokeBase) -> Seq<char> {
    "<g fill-opacity=\""@ + alpha_fraction_seq(s.color.a as int) + "\" fill=\""@ + hex_of(s.color)
        + "\" transform=\"translate("@ + dec_seq_signed(s.x as int) + " "@ + dec_seq_signed(
        s.y as int,
    ) + ") rotate("@ + dec_seq_signed(s.rotation as int) + ") scale("@ + milli_seq(
        s.scale_x_milli as int,
    ) + " "@ + milli_seq(s.scale_y_milli as int) + ")\"><use href=\"#stroke-"@ + dec_seq(
        s.stroke_idx as int,
    ) + "\"/></g>"@
}

/// `after` arises from `before` by position deltas under five units,
/// a rotation delta under five degrees (renormalized), per-axis scale
/// deltas under three tenths (saturating at the placement bounds), and
/// a bounded color perturbation; the template id never changes.
pub open spec fn stroke_step(
    before: StrokeBase,
    after: StrokeBase,
    dx: int,
    dy: int,
    drot: int,
    dsx: int,
    dsy: int,
) -> bool {
    &&& -5 <= dx < 5 && -5 <= dy < 5 && -5 <= drot < 5
    &&& -300 <= dsx < 300 && -300 <= dsy < 300
    &&& after.x as int == clamp_spec(before.x + dx, -1_000_000_000, 1_000_000_000)
    &&& after.y as int == clamp_spec(before.y + dy, -1_000_000_000, 1_000_000_000)
    &&& after.rotation as int == norm360(before.rotation + drot)
    &&& after.scale_x_milli as int == clamp_spec(
        before.scale_x_milli + dsx,
        -1_000_000_000,
        1_000_000_000,
    )
    &&& after.scale_y_milli as int == clamp_spec(
        before.scale_y_milli + dsy,
        -1_000_000_000,
        1_000_000_000,
    )
    &&& after.stroke_idx == before.stroke_idx
    &&& perturbed_within(before.color, after.color, 19)
}

impl Base for StrokeBase {
    open spec fn wf(self) -> bool {
        StrokeBase::wf(self)
    }

    open spec fn markup(self) -> Seq<char> {
        stroke_markup_alpha(self)
    }

    open spec fn placed_within(self, max_x: int, max_y: int) -> bool {
        &&& 0 <= self.x < max_x
        &&& 0 <= self.y < max_y
        &&& 500 <= self.scale_x_milli < 2000
        &&& self.scale_y_milli == self.scale_x_milli
    }

    open spec fn mutation_step(self, after: Self) -> bool {
        exists|dx: int, dy: int, drot: int, dsx: int, dsy: int|
            #[trigger] stroke_step(self, after, dx, dy, drot, dsx, dsy)
    }

    /// A stroke with random template, placement, rotation, a shared
    /// random scale between one half and two, and a random color.
    fn new(max_x: u32, max_y: u32) -> (s: Self) {
        let scale = (500 + random_u64_below(1500)) as i64;
        StrokeBase {
            stroke_idx: random_u64_below(crate::genetic::base::STROKE_COUNT),
            x: random_u64_below(max_x as u64) as i64,
            y: random_u64_below(max_y as u64) as i64,
            rotation: random_u64_below(360) as i64,
            scale_x_milli: scale,
            scale_y_milli: scale,
            color: Rgba::new_rand(),
        }
    }

    fn express(&self) -> (s: String) {
        let mut s = String::new();
        s.append("<g fill-opacity=\"");
        let o = alpha_fraction(self.color.a);
        s.append(o.as_str());
        s.append("\" fill=\"");
        let hex = self.color.as_hex();
        s.append(hex.as_str());
        s.append("\" transform=\"translate(");
        let x = decimal_i64(self.x);
        s.append(x.as_str());
        s.append(" ");
        let y = decimal_i64(self.y);
        s.append(y.as_str());
        s.append(") rotate(");
        let rot = decimal_i64(self.rotation);
        s.append(rot.as_str());
        s.append(") scale(");
        let sx = decimal_milli(self.scale_x_milli);
        s.append(sx.as_str());
        s.append(" ");
        let sy = decimal_milli(self.scale_y_milli);
        s.append(sy.as_str());
        s.append(")\"><use href=\"#stroke-");
        let idx = decimal_u64(self.stroke_idx);
        s.append(idx.as_str());
        s.append("\"/></g>");
        proof {
            assert(s@ =~= stroke_markup_alpha(*self));
        }
        s
    }

    /// Jitters the placement by at most five units, the rotation by at
    /// most five degrees, each scale axis by at most three tenths, and
    /// perturbs the color.  The template id never changes.
    fn mutate(&mut self) {
        let dx = random_i64_in(-5, 5);
        let dy = random_i64_in(-5, 5);
        let drot = random_i64_in(-5, 5);
        let dsx = random_i64_in(-300, 300);
        let dsy = random_i64_in(-300, 300);
        self.x = clamp(self.x + dx, -1_000_000_000, 1_000_000_000);
        self.y = clamp(self.y + dy, -1_000_000_000, 1_000_000_000);
        let mut rot = self.rotation + drot;
        if rot < 0 {
            rot = rot + 360;
        }
        if rot >= 360 {
            rot = rot - 360;
        }
        self.rotation = rot;
        self.scale_x_milli = clamp(self.scale_x_milli + dsx, -1_000_000_000, 1_000_000_000);
        self.scale_y_milli = clamp(self.scale_y_milli + dsy, -1_000_000_000, 1_000_000_000);
        let magnitude = random_i64_in(0, 20);
        self.color.mutate(magnitude);
        proof {
            lemma_perturbed_weaken(
                old(self).color,
                self.color,
                mag_clamp(magnitude as int),
                19,
            );
            assert(stroke_step(
                *old(self),
                *self,
                dx as int,
                dy as int,
                drot as int,
                dsx as int,
                dsy as int,
            ));
        }
    }
}

} // verus!
