use vstd::prelude::*;

verus! {

use crate::util::{bounded_add, clamp_spec, isqrt, lemma_sq_bound, random_u64_below};
use crate::util::text::{append_hex2, hex_seq2};

/// An RGBA color with one byte per channel.
#[derive(Clone, Copy, PartialEq, Eq, Structural, Debug)]
pub struct Rgba {
    pub r: u8,
    pub g: u8,
    pub b: u8,
    pub a: u8,
}

/// The hex form of a color: `#` followed by two upper-case hex digits
/// for each of red, green and blue.
pub open spec fn hex_of(c: Rgba) -> Seq<char> {
    seq!['#'] + hex_seq2(c.r as int) + hex_seq2(c.g as int) + hex_seq2(c.b as int)
}

/// Every character after the leading `#` of the hex form is one of the
/// sixteen upper-case hexadecimal digit characters.
pub open spec fn is_hex_digit_char(c: char) -> bool {
    c == '0' || c == '1' || c == '2' || c == '3' || c == '4' || c == '5' || c == '6' || c == '7'
        || c == '8' || c == '9' || c == 'A' || c == 'B' || c == 'C' || c == 'D' || c == 'E'
        || c == 'F'
}

/// The hex form of any color is a `#` followed by exactly six
/// hexadecimal digits.
pub proof fn lemma_hex_of_shape(c: Rgba)
    ensures
        hex_of(c).len() == 7,
        hex_of(c)[0] == '#',
        forall|i: int| 1 <= i < 7 ==> is_hex_digit_char(#[trigger] hex_of(c)[i]),
{
    assert forall|i: int| 1 <= i < 7 implies is_hex_digit_char(#[trigger] hex_of(c)[i]) by {
        assert(i == 1 || i == 2 || i == 3 || i == 4 || i == 5 || i == 6);
    }
}

impl Rgba {
    pub fn new(r: u8, g: u8, b: u8, a: u8) -> (c: Rgba)
        ensures
            c == (Rgba { r, g, b, a }),
    {
        Rgba { r, g, b, a }
    }

    /// A color with each channel drawn at random from `0..255`.
    pub fn new_rand() -> (c: Rgba)
        ensures
            c.r < 255 && c.g < 255 && c.b < 255 && c.a < 255,
    {
        Rgba::new(
            random_u64_below(255) as u8,
            random_u64_below(255) as u8,
            random_u64_below(255) as u8,
            random_u64_below(255) as u8,
        )
    }

    /// The `#RRGGBB` hex string of the color, each channel zero-padded
    /// to two digits; always one `#` and exactly six hex digits.
    pub fn as_hex(&self) -> (s: String)
        ensures
            s@ == hex_of(*self),
    {
        let mut s = String::new();
        proof {
            reveal_strlit("#");
        }
        s.append("#");
        append_hex2(&mut s, self.r);
        append_hex2(&mut s, self.g);
        append_hex2(&mut s, self.b);
        proof {
            assert(s@ =~= hex_of(*self));
        }
        s
    }

    /// Shifts every channel by a signed delta, saturating at 0 and 255.
    pub fn shifted(&self, dr: i64, dg: i64, db: i64, da: i64) -> (c: Rgba)
        ensures
            c.r as int == clamp_spec(self.r as int + dr as int, 0, 255),
            c.g as int == clamp_spec(self.g as int + dg as int, 0, 255),
            c.b as int == clamp_spec(self.b as int + db as int, 0, 255),
            c.a as int == clamp_spec(self.a as int + da as int, 0, 255),
    {
        Rgba {
            r: bounded_add(self.r, dr),
            g: bounded_add(self.g, dg),
            b: bounded_add(self.b, db),
            a: bounded_add(self.a, da),
        }
    }

    /// Perturbs all four channels jointly: a random direction vector is
    /// drawn, normalized in integer arithmetic, and scaled by the given
    /// magnitude, so the channel changes are correlated rather than
    /// independent.  Each channel moves by at most the magnitude and
    /// saturates at 0 and 255, whatever the magnitude's sign or size.
    pub fn mutate(&mut self, magnitude: i64)
        ensures
            perturbed_within(*old(self), *final(self), mag_clamp(magnitude as int)),
    {
        let mag: u64 = if magnitude < -1_000_000 {
            1_000_000
        } else if magnitude > 1_000_000 {
            1_000_000
        } else if magnitude < 0 {
            (-magnitude) as u64
        } else {
            magnitude as u64
        };
        let v0 = random_i64_unit();
        let v1 = random_i64_unit();
        let v2 = random_i64_unit();
        let v3 = random_i64_unit();
        proof {
            lemma_sq_bound(v0 as int, 1000);
            lemma_sq_bound(v1 as int, 1000);
            lemma_sq_bound(v2 as int, 1000);
            lemma_sq_bound(v3 as int, 1000);
        }
        let norm = isqrt((v0 * v0 + v1 * v1 + v2 * v2 + v3 * v3) as u64);
        let d0 = scaled_component(v0, mag, norm);
        let d1 = scaled_component(v1, mag, norm);
        let d2 = scaled_component(v2, mag, norm);
        let d3 = scaled_component(v3, mag, norm);
        let c = self.shifted(d0, d1, d2, d3);
        *self = c;
        proof {
            assert(perturbed(
                *old(self),
                *self,
                d0 as int,
                d1 as int,
                d2 as int,
                d3 as int,
                mag_clamp(magnitude as int),
            ));
        }
    }
}

/// The clamp of a requested mutation magnitude into the supported
/// range: its absolute value, at most one million.
pub open spec fn mag_clamp(m: int) -> int {
    if m < -1_000_000 || m > 1_000_000 {
        1_000_000
    } else if m < 0 {
        -m
    } else {
        m
    }
}

/// `after` arises from `before` by channel shifts whose magnitudes all
/// stay within `bound`, each saturating at 0 and 255.
pub open spec fn perturbed_within(before: Rgba, after: Rgba, bound: int) -> bool {
    exists|d0: int, d1: int, d2: int, d3: int|
        #[trigger] perturbed(before, after, d0, d1, d2, d3, bound)
}

/// A perturbation within some bound is also within every larger bound.
pub proof fn lemma_perturbed_weaken(before: Rgba, after: Rgba, b1: int, b2: int)
    requires
        perturbed_within(before, after, b1),
        b1 <= b2,
    ensures
        perturbed_within(before, after, b2),
{
    let (d0, d1, d2, d3) = choose|d0: int, d1: int, d2: int, d3: int|
        perturbed(before, after, d0, d1, d2, d3, b1);
    assert(perturbed(before, after, d0, d1, d2, d3, b2));
}

/// `after` arises from `before` by shifting each channel by the given
/// delta, each bounded by `bound` in magnitude, saturating at 0 and
/// 255.
pub open spec fn perturbed(
    before: Rgba,
    after: Rgba,
    d0: int,
    d1: int,
    d2: int,
    d3: int,
    bound: int,
) -> bool {
    &&& -bound <= d0 <= bound
    &&& -bound <= d1 <= bound
    &&& -bound <= d2 <= bound
    &&& -bound <= d3 <= bound
    &&& after.r as int == clamp_spec(before.r as int + d0, 0, 255)
    &&& after.g as int == clamp_spec(before.g as int + d1, 0, 255)
    &&& after.b as int == clamp_spec(before.b as int + d2, 0, 255)
    &&& after.a as int == clamp_spec(before.a as int + d3, 0, 255)
}

/// One coordinate of a random direction vector, in `[-1000, 1000]`.
fn random_i64_unit() -> (v: i64)
    ensures
        -1000 <= v <= 1000,
{
    crate::util::random_i64_in(-1000, 1001)
}

/// One channel delta: the direction component scaled by the magnitude
/// and divided by the vector norm, so its size never exceeds the
/// magnitude (and so never exceeds 1 000 000).
fn scaled_component(v: i64, mag: u64, norm: u64) -> (d: i64)
    requires
        -1000 <= v <= 1000,
        mag <= 1_000_000,
    ensures
        -(mag as int) <= d as int <= mag as int,
{
    if norm == 0 {
        0
    } else {
        let vabs: u64 = if v < 0 {
            (-v) as u64
        } else {
            v as u64
        };
        if vabs >= norm {
            // The component fills the whole norm: scale by 1.
            if v < 0 {
                -(mag as i64)
            } else {
                mag as i64
            }
        } else {
            proof {
                assert(vabs * mag <= 1000 * 1_000_000) by (nonlinear_arith)
                    requires
                        vabs <= 1000,
                        mag <= 1_000_000,
                ;
            }
            let scaled = vabs * mag / norm;
            proof {
                lemma_div_scale(vabs as int, mag as int, norm as int);
            }
            if v < 0 {
                -(scaled as i64)
            } else {
                scaled as i64
            }
        }
    }
}

/// Scaling by `a / n` with `a < n` shrinks: `a * m / n <= m`.
proof fn lemma_div_scale(a: int, m: int, n: int)
    requires
        0 <= a < n,
        0 <= m,
    ensures
        0 <= (a * m) / n <= m,
{
    assert(0 <= (a * m) / n <= m) by (nonlinear_arith)
        requires
            0 <= a < n,
            0 <= m,
    ;
}

} // verus!
