use vstd::prelude::*;

verus! {

use crate::Controller;
use crate::genetic::color::{Rgba, hex_of};
use crate::util::text::{dec_seq, dec_seq_signed, milli_seq, decimal_u64, decimal_i64,
    decimal_milli};
use crate::util::{clamp, random_i64_in, random_u64_below};

/// The width of the reusable stroke template, in canvas units.
pub const STROKE_WIDTH: u64 = 100;

/// The height of the tallest reusable stroke template, in canvas units.
pub const STROKE_HEIGHT: u64 = 100;

/// How many stroke templates the library defines.
pub const STROKE_COUNT: u64 = 4;

/// The reusable stroke template definitions, one `<rect>` per template,
/// joined by newlines; strokes reference them by id.
pub open spec fn stroke_defs_markup() -> Seq<char> {
    "<rect id=\"stroke-0\" width=\"100\" height=\"100\"/>"@ + "\n"@
        + "<rect id=\"stroke-1\" width=\"100\" height=\"75\"/>"@ + "\n"@
        + "<rect id=\"stroke-2\" width=\"100\" height=\"50\"/>"@ + "\n"@
        + "<rect id=\"stroke-3\" width=\"100\" height=\"25\"/>"@
}

/// The stroke template definitions as one string.
pub fn stroke_defs() -> (s: String)
    ensures
        s@ == stroke_defs_markup(),
{
    let mut s = String::new();
    s.append("<rect id=\"stroke-0\" width=\"100\" height=\"100\"/>");
    s.append("\n");
    s.append("<rect id=\"stroke-1\" width=\"100\" height=\"75\"/>");
    s.append("\n");
    s.append("<rect id=\"stroke-2\" width=\"100\" height=\"50\"/>");
    s.append("\n");
    s.append("<rect id=\"stroke-3\" width=\"100\" height=\"25\"/>");
    proof {
        assert(s@ =~= stroke_defs_markup());
    }
    s
}

/// One placed instance of a stroke template: a template id plus a
/// translation, rotation, per-axis scale (in thousandths) and a fill
/// color.
#[derive(Clone, Copy, PartialEq, Eq, Structural, Debug)]
pub struct StrokeBase {
    pub stroke_idx: u64,
    pub x: i64,
    pub y: i64,
    pub rotation: i64,
    pub scale_x_milli: i64,
    pub scale_y_milli: i64,
    pub color: Rgba,
}

/// The SVG markup of one placed stroke: a group that sets the fill and
/// the transform and references the stroke template by id.
pub open spec fn stroke_markup(s: StrokeBase) -> Seq<char> {
    "<g fill-opacity=\"0.900\" fill=\""@ + hex_of(s.color) + "\" transform=\"translate("@
        + dec_seq_signed(s.x as int) + " "@ + dec_seq_signed(s.y as int) + ") rotate("@
        + dec_seq_signed(s.rotation as int) + ") scale("@ + milli_seq(s.scale_x_milli as int)
        + " "@ + milli_seq(s.scale_y_milli as int) + ")\"><use href=\"#stroke-"@
        + dec_seq(s.stroke_idx as int) + "\"/></g>"@
}

/// The extent of the axis-aligned box of a scaled stroke template on
/// one axis: the template dimension scaled by the given thousandths
/// (by magnitude), and at least one canvas unit.
pub open spec fn spec_box_extent(scale_milli: int) -> int {
    let m = if scale_milli < 0 {
        -scale_milli
    } else {
        scale_milli
    };
    let e = 100 * m / 1000;
    if e < 1 {
        1
    } else {
        e
    }
}

/// The box extent of a scale given in thousandths.
pub fn box_extent(scale_milli: i64) -> (e: i64)
    requires
        -1_000_000_000 <= scale_milli <= 1_000_000_000,
    ensures
        e == spec_box_extent(scale_milli as int),
        1 <= e <= 100_000_000,
{
    let m = if scale_milli < 0 {
        -scale_milli
    } else {
        scale_milli
    };
    let e = 100 * m / 1000;
    if e < 1 {
        1
    } else {
        e
    }
}

/// A rotation value folded back into `[0, 360)` after a bounded shift.
pub open spec fn norm360(r: int) -> int {
    if r < 0 {
        r + 360
    } else if r >= 360 {
        r - 360
    } else {
        r
    }
}

/// `after` arises from `before` by moving the position by the given
/// deltas, each under 16 units in magnitude (saturating at the
/// placement bounds), with everything else untouched.
pub open spec fn stroke_moved(before: StrokeBase, after: StrokeBase, dx: int, dy: int) -> bool {
    &&& -16 <= dx < 16
    &&& -16 <= dy < 16
    &&& after.x as int == crate::util::clamp_spec(
        before.x + dx,
        -1_000_000_000,
        1_000_000_000,
    )
    &&& after.y as int == crate::util::clamp_spec(
        before.y + dy,
        -1_000_000_000,
        1_000_000_000,
    )
    &&& after == (StrokeBase { x: after.x, y: after.y, ..before })
}

/// `after` arises from `before` by turning the rotation by the given
/// delta, under 90 degrees in magnitude and renormalized, with
/// everything else untouched.
pub open spec fn stroke_turned(before: StrokeBase, after: StrokeBase, d: int) -> bool {
    &&& -90 <= d < 90
    &&& after.rotation as int == norm360(before.rotation + d)
    &&& after == (StrokeBase { rotation: after.rotation, ..before })
}

/// Sample point `k` (of sixteen) of a stroke's approximate footprint.
pub open spec fn approx_point(s: StrokeBase, k: int) -> (i64, i64) {
    let bw = spec_box_extent(s.scale_x_milli as int);
    let bh = spec_box_extent(s.scale_y_milli as int);
    (((s.x + bw * (k / 4) / 3) as i64), ((s.y + bh * (k % 4) / 3) as i64))
}

impl StrokeBase {
    /// Well-formedness: a known template id, a normalized rotation and
    /// bounded placement numbers.
    pub open spec fn wf(self) -> bool {
        &&& self.stroke_idx < STROKE_COUNT
        &&& 0 <= self.rotation < 360
        &&& -1_000_000_000 <= self.x <= 1_000_000_000
        &&& -1_000_000_000 <= self.y <= 1_000_000_000
        &&& -1_000_000_000 <= self.scale_x_milli <= 1_000_000_000
        &&& -1_000_000_000 <= self.scale_y_milli <= 1_000_000_000
    }

    /// A stroke with a randomly chosen template, placed at the origin
    /// with no rotation, unit scale and an opaque black fill.
    pub fn new() -> (s: StrokeBase)
        ensures
            s.wf(),
            s.x == 0 && s.y == 0 && s.rotation == 0,
            s.scale_x_milli == 1000 && s.scale_y_milli == 1000,
            s.color == (Rgba { r: 0, g: 0, b: 0, a: 255 }),
    {
        StrokeBase {
            stroke_idx: random_u64_below(STROKE_COUNT),
            x: 0,
            y: 0,
            rotation: 0,
            scale_x_milli: 1000,
            scale_y_milli: 1000,
            color: Rgba::new(0, 0, 0, 255),
        }
    }

    pub fn set_xy(&mut self, xy: (i64, i64))
        requires
            -1_000_000_000 <= xy.0 <= 1_000_000_000,
            -1_000_000_000 <= xy.1 <= 1_000_000_000,
        ensures
            *final(self) == (StrokeBase { x: xy.0, y: xy.1, ..*old(self) }),
    {
        self.x = xy.0;
        self.y = xy.1;
    }

    pub fn set_scale(&mut self, scale: (i64, i64))
        requires
            -1_000_000_000 <= scale.0 <= 1_000_000_000,
            -1_000_000_000 <= scale.1 <= 1_000_000_000,
        ensures
            *final(self) == (StrokeBase {
                scale_x_milli: scale.0,
                scale_y_milli: scale.1,
                ..*old(self)
            }),
    {
        self.scale_x_milli = scale.0;
        self.scale_y_milli = scale.1;
    }

    pub fn set_rotation(&mut self, rotation: i64)
        requires
            0 <= rotation < 360,
        ensures
            *final(self) == (StrokeBase { rotation, ..*old(self) }),
    {
        self.rotation = rotation;
    }

    pub fn set_color(&mut self, color: Rgba)
        ensures
            *final(self) == (StrokeBase { color, ..*old(self) }),
    {
        self.color = color;
    }

    /// The stroke's SVG markup.
    pub fn express(&self) -> (s: String)
        requires
            self.wf(),
        ensures
            s@ == stroke_markup(*self),
    {
        let mut s = String::new();
        s.append("<g fill-opacity=\"0.900\" fill=\"");
        let hex = self.color.as_hex();
        s.append(hex.as_str());
        s.append("\" transform=\"translate(");
        let x = decimal_i64(self.x);
        s.append(x.as_str());
        s.append(" ");
        let y = decimal_i64(self.y);
        s.append(y.as_str());
        s.append(") rotate(");
        let rot = decimal_i64(self.rotation);
        s.append(rot.as_str());
        s.append(") scale(");
        let sx = decimal_milli(self.scale_x_milli);
        s.append(sx.as_str());
        s.append(" ");
        let sy = decimal_milli(self.scale_y_milli);
        s.append(sy.as_str());
        s.append(")\"><use href=\"#stroke-");
        let idx = decimal_u64(self.stroke_idx);
        s.append(idx.as_str());
        s.append("\"/></g>");
        proof {
            assert(s@ =~= stroke_markup(*self));
        }
        s
    }

    /// A bounded set of representative points of the stroke's
    /// footprint: a four-by-four grid over the axis-aligned box of the
    /// scaled template, anchored at the stroke's position.  Sampling
    /// these instead of rendering approximates the covered area.
    pub fn approximate_pixels(&self) -> (pts: Vec<(i64, i64)>)
        requires
            self.wf(),
        ensures
            pts@.len() == 16,
            forall|k: int| 0 <= k < 16 ==> #[trigger] pts@[k] == approx_point(*self, k),
    {
        let bw = box_extent(self.scale_x_milli);
        let bh = box_extent(self.scale_y_milli);
        let mut pts: Vec<(i64, i64)> = Vec::new();
        let mut k: usize = 0;
        while k < 16
            invariant
                k <= 16,
                self.wf(),
                bw == spec_box_extent(self.scale_x_milli as int),
                bh == spec_box_extent(self.scale_y_milli as int),
                pts@.len() == k,
                forall|q: int| 0 <= q < k ==> #[trigger] pts@[q] == approx_point(*self, q),
            decreases 16 - k,
        {
            let i = (k / 4) as i64;
            let j = (k % 4) as i64;
            proof {
                assert(0 <= bw * i <= 300_000_000 && 0 <= bh * j <= 300_000_000)
                    by (nonlinear_arith)
                    requires
                        1 <= bw <= 100_000_000,
                        1 <= bh <= 100_000_000,
                        0 <= i <= 3,
                        0 <= j <= 3,
                ;
            }
            pts.push((self.x + bw * i / 3, self.y + bh * j / 3));
            k = k + 1;
        }
        pts
    }

    /// Jitters one randomly chosen aspect of the placement: either the
    /// position (by less than 16 canvas units on each axis, saturating
    /// at the placement bounds) or the rotation (by less than 90
    /// degrees, kept normalized).  The template id, scale and color
    /// never change.
    pub fn mutate(&mut self, _controller: &Controller)
        requires
            old(self).wf(),
        ensures
            final(self).wf(),
            (exists|dx: int, dy: int| #[trigger] stroke_moved(*old(self), *final(self), dx, dy))
                || (exists|d: int| #[trigger] stroke_turned(*old(self), *final(self), d)),
    {
        let choice = random_u64_below(2);
        if choice == 0 {
            let dx = random_i64_in(-16, 16);
            let dy = random_i64_in(-16, 16);
            self.x = clamp(self.x + dx, -1_000_000_000, 1_000_000_000);
            self.y = clamp(self.y + dy, -1_000_000_000, 1_000_000_000);
            proof {
                assert(stroke_moved(*old(self), *self, dx as int, dy as int));
            }
        } else {
            let d = random_i64_in(-90, 90);
            let mut rot = self.rotation + d;
            if rot < 0 {
                rot = rot + 360;
            }
            if rot >= 360 {
                rot = rot - 360;
            }
            self.rotation = rot;
            proof {
                assert(stroke_turned(*old(self), *self, d as int));
            }
        }
    }
}

} // verus!
