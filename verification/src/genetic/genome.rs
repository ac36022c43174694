use vstd::prelude::*;

verus! {

use crate::genetic::base::stroke_defs_markup;
use crate::genetic::base::stroke_defs;
use crate::genetic::svg::{Base, RgbBase};
use crate::util::text::dec_seq;
use crate::util::text::decimal_u64;
use crate::util::random_u64_below;

/// The markup of a sequence of primitives: each element's markup in
/// order, each followed by a newline.
pub open spec fn genome_body<T: Base>(s: Seq<T>) -> Seq<char>
    decreases s.len(),
{
    if s.len() == 0 {
        Seq::empty()
    } else {
        genome_body(s.drop_last()) + s.last().markup() + "\n"@
    }
}

/// The opening of a genome's SVG document: the canvas-sized `svg`
/// element, the stroke template definitions, and a full-canvas
/// background rectangle filled with the background color.
pub open spec fn svg_open(width: int, height: int, bg: RgbBase) -> Seq<char> {
    "<svg width=\""@ + dec_seq(width) + "\" height=\""@ + dec_seq(height)
        + "\" xmlns=\"http://www.w3.org/2000/svg\">\n<def>\n"@ + stroke_defs_markup()
        + "\n</def>\n<rect width=\"100%\" height=\"100%\" fill=\""@ + bg.markup() + "\"/>\n"@
}

/// The full SVG document of a genome: the opening, the markup of every
/// primitive (fixed prefix first, then the mutable sequence), and the
/// closing tag.
pub open spec fn genome_markup<T: Base>(width: int, height: int, bg: RgbBase, all: Seq<T>) -> Seq<
    char,
> {
    svg_open(width, height, bg) + genome_body(all) + "</svg>"@
}

/// `child` arises from `a` and `b` by a single-point crossover: up to
/// the cut the child follows the shorter parent, after it the longer,
/// so the child's length is always the longer parent's.
pub open spec fn crossed<T: Base>(a: Seq<T>, b: Seq<T>, child: Seq<T>, cp: int) -> bool {
    let short = if a.len() <= b.len() {
        a
    } else {
        b
    };
    let long = if a.len() <= b.len() {
        b
    } else {
        a
    };
    &&& 0 <= cp <= short.len()
    &&& child == short.subrange(0, cp) + long.subrange(cp, long.len() as int)
}

/// An ordered, variable-length sequence of drawable primitives of one
/// kind, with canvas bounds, a background color, and a fixed prefix of
/// primitives that are still drawn but no longer mutated.
pub struct SvgElementGenome<T: Base> {
    pub sequence: Vec<T>,
    pub sequence_fixed: Vec<T>,
    pub bg_base: RgbBase,
    pub width: u32,
    pub height: u32,
}

impl<T: Base> SvgElementGenome<T> {
    /// Well-formedness: bounded canvas dimensions and well-formed
    /// primitives throughout.
    pub open spec fn wf(self) -> bool {
        &&& 1 <= self.width <= 0x4000
        &&& 1 <= self.height <= 0x4000
        &&& forall|i: int| 0 <= i < self.sequence@.len() ==> (#[trigger] self.sequence@[i]).wf()
        &&& forall|i: int|
            0 <= i < self.sequence_fixed@.len() ==> (#[trigger] self.sequence_fixed@[i]).wf()
    }

    /// A genome of `genome_size` independently randomized primitives on
    /// the given canvas, with a random background color.
    pub fn new(genome_size: u32, width: u32, height: u32) -> (g: Self)
        requires
            1 <= width <= 0x4000,
            1 <= height <= 0x4000,
        ensures
            g.wf(),
            g.width == width,
            g.height == height,
            g.sequence@.len() == genome_size,
            g.sequence_fixed@.len() == 0,
    {
        let mut sequence: Vec<T> = Vec::new();
        let mut i: u32 = 0;
        while i < genome_size
            invariant
                i <= genome_size,
                1 <= width <= 0x4000,
                1 <= height <= 0x4000,
                sequence@.len() == i,
                forall|j: int| 0 <= j < sequence@.len() ==> (#[trigger] sequence@[j]).wf(),
            decreases genome_size - i,
        {
            sequence.push(T::new(width, height));
            i = i + 1;
        }
        SvgElementGenome {
            sequence,
            sequence_fixed: Vec::new(),
            bg_base: RgbBase::new(width, height),
            width,
            height,
        }
    }

    /// The number of mutable primitives in the genome.
    pub fn len(&self) -> (n: usize)
        ensures
            n == self.sequence@.len(),
    {
        self.sequence.len()
    }

    /// The genome's full SVG document: canvas-sized, with the stroke
    /// template definitions, the background fill, and every primitive's
    /// markup in render order (fixed prefix first).
    pub fn express(&self) -> (s: String)
        requires
            self.wf(),
        ensures
            s@ == genome_markup(
                self.width as int,
                self.height as int,
                self.bg_base,
                self.sequence_fixed@ + self.sequence@,
            ),
    {
        let mut s = String::new();
        s.append("<svg width=\"");
        let w = decimal_u64(self.width as u64);
        s.append(w.as_str());
        s.append("\" height=\"");
        let h = decimal_u64(self.height as u64);
        s.append(h.as_str());
        s.append("\" xmlns=\"http://www.w3.org/2000/svg\">\n<def>\n");
        let defs = stroke_defs();
        s.append(defs.as_str());
        s.append("\n</def>\n<rect width=\"100%\" height=\"100%\" fill=\"");
        let bg = self.bg_base.express();
        s.append(bg.as_str());
        s.append("\"/>\n");
        let ghost opening = svg_open(self.width as int, self.height as int, self.bg_base);
        proof {
            assert(s@ =~= opening);
        }
        let nf = self.sequence_fixed.len();
        let mut i: usize = 0;
        while i < nf
            invariant
                i <= nf,
                nf == self.sequence_fixed@.len(),
                self.wf(),
                opening == svg_open(self.width as int, self.height as int, self.bg_base),
                s@ == opening + genome_body(self.sequence_fixed@.take(i as int)),
            decreases nf - i,
        {
            let e = self.sequence_fixed[i];
            let m = e.express();
            s.append(m.as_str());
            s.append("\n");
            proof {
                let pre = self.sequence_fixed@.take(i as int);
                let cur = self.sequence_fixed@.take(i + 1);
                assert(cur.drop_last() =~= pre);
                assert(cur.last() == self.sequence_fixed@[i as int]);
                assert(s@ =~= opening + genome_body(cur));
            }
            i = i + 1;
        }
        proof {
            assert(self.sequence_fixed@.take(nf as int) =~= self.sequence_fixed@);
        }
        let n = self.sequence.len();
        let mut j: usize = 0;
        while j < n
            invariant
                j <= n,
                n == self.sequence@.len(),
                self.wf(),
                opening == svg_open(self.width as int, self.height as int, self.bg_base),
                s@ == opening + genome_body(self.sequence_fixed@ + self.sequence@.take(j as int)),
            decreases n - j,
        {
            let e = self.sequence[j];
            let m = e.express();
            s.append(m.as_str());
            s.append("\n");
            proof {
                let pre = self.sequence_fixed@ + self.sequence@.take(j as int);
                let cur = self.sequence_fixed@ + self.sequence@.take(j + 1);
                assert(cur.drop_last() =~= pre);
                assert(cur.last() == self.sequence@[j as int]);
                assert(s@ =~= opening + genome_body(cur));
            }
            j = j + 1;
        }
        s.append("</svg>");
        proof {
            assert(self.sequence_fixed@ + self.sequence@.take(n as int) =~= self.sequence_fixed@
                + self.sequence@);
            assert(s@ =~= genome_markup(
                self.width as int,
                self.height as int,
                self.bg_base,
                self.sequence_fixed@ + self.sequence@,
            ));
        }
        s
    }

    /// Mutates the genome in place: usually perturbs the background,
    /// mutates about one in twenty primitives (at least one), and then
    /// applies rare per-primitive insertion and deletion events, so the
    /// genome's length varies over time while never reaching zero.
    pub fn mutate(&mut self)
        requires
            old(self).wf(),
            old(self).sequence@.len() > 0,
        ensures
            final(self).wf(),
            final(self).width == old(self).width,
            final(self).height == old(self).height,
            final(self).sequence_fixed@ == old(self).sequence_fixed@,
            1 <= final(self).sequence@.len() <= 2 * old(self).sequence@.len(),
    {
        if random_u64_below(10) < 9 {
            Base::mutate(&mut self.bg_base);
        }
        let len = self.sequence.len();
        let count: usize = if len / 20 < 1 {
            1
        } else {
            len / 20
        };
        let mut k: usize = 0;
        while k < count
            invariant
                self.wf(),
                self.sequence@.len() == len,
                len > 0,
                self.width == old(self).width,
                self.height == old(self).height,
                self.sequence_fixed@ == old(self).sequence_fixed@,
            decreases count - k,
        {
            let idx = random_u64_below(len as u64) as usize;
            let mut e = self.sequence[idx];
            Base::mutate(&mut e);
            self.sequence[idx] = e;
            k = k + 1;
        }
        self.sequence_edits();
    }

    /// One pass of stochastic sequence edits: each primitive is dropped
    /// with a small probability, and with a small probability appends a
    /// mutated clone of itself; at least one primitive always survives.
    fn sequence_edits(&mut self)
        requires
            old(self).wf(),
            old(self).sequence@.len() > 0,
        ensures
            final(self).wf(),
            final(self).width == old(self).width,
            final(self).height == old(self).height,
            final(self).sequence_fixed@ == old(self).sequence_fixed@,
            final(self).bg_base == old(self).bg_base,
            1 <= final(self).sequence@.len() <= 2 * old(self).sequence@.len(),
    {
        let len = self.sequence.len();
        let mut out: Vec<T> = Vec::new();
        let mut i: usize = 0;
        while i < len
            invariant
                i <= len,
                len == self.sequence@.len(),
                len > 0,
                self.wf(),
                out@.len() <= 2 * i,
                i == len ==> out@.len() >= 1,
                forall|j: int| 0 <= j < out@.len() ==> (#[trigger] out@[j]).wf(),
            decreases len - i,
        {
            let e = self.sequence[i];
            let del = random_u64_below(100);
            if del >= 2 || (out.len() == 0 && i == len - 1) {
                out.push(e);
            }
            let ins = random_u64_below(100);
            if ins < 2 {
                let mut m = e;
                Base::mutate(&mut m);
                out.push(m);
            }
            i = i + 1;
        }
        self.sequence = out;
    }

    /// A child genome built by single-point crossover: a cut index is
    /// drawn within the shorter parent; the child copies the shorter
    /// parent up to the cut and the longer parent from the cut onward,
    /// so its length is exactly the longer parent's length (and so lies
    /// between the two parents' lengths).  Canvas, background and fixed
    /// prefix come from `self`.
    pub fn cross_with(&self, other: &SvgElementGenome<T>) -> (child: SvgElementGenome<T>)
        requires
            self.wf(),
            other.wf(),
        ensures
            child.wf(),
            child.width == self.width,
            child.height == self.height,
            child.bg_base == self.bg_base,
            child.sequence_fixed@ == self.sequence_fixed@,
            child.sequence@.len() == if self.sequence@.len() >= other.sequence@.len() {
                self.sequence@.len()
            } else {
                other.sequence@.len()
            },
            exists|cp: int| #[trigger] crossed(self.sequence@, other.sequence@, child.sequence@, cp),
    {
        let min_len: usize = if self.sequence.len() <= other.sequence.len() {
            self.sequence.len()
        } else {
            other.sequence.len()
        };
        let cp: usize = if min_len == 0 {
            0
        } else {
            random_u64_below(min_len as u64) as usize
        };
        let new_sequence: Vec<T> = if self.sequence.len() <= other.sequence.len() {
            cross_sequences(&self.sequence, &other.sequence, cp)
        } else {
            cross_sequences(&other.sequence, &self.sequence, cp)
        };
        let child = SvgElementGenome {
            sequence: new_sequence,
            sequence_fixed: duplicate_vec(&self.sequence_fixed),
            bg_base: self.bg_base,
            width: self.width,
            height: self.height,
        };
        proof {
            assert(crossed(self.sequence@, other.sequence@, child.sequence@, cp as int));
        }
        child
    }

    /// Appends `n` freshly randomized primitives, growing the genome's
    /// expressive power.
    pub fn insertion(&mut self, n: u64)
        requires
            old(self).wf(),
            old(self).sequence@.len() + n <= usize::MAX,
        ensures
            final(self).wf(),
            final(self).width == old(self).width,
            final(self).height == old(self).height,
            final(self).sequence_fixed@ == old(self).sequence_fixed@,
            final(self).bg_base == old(self).bg_base,
            final(self).sequence@.len() == old(self).sequence@.len() + n,
            final(self).sequence@.subrange(0, old(self).sequence@.len() as int) == old(
                self,
            ).sequence@,
    {
        let mut k: u64 = 0;
        while k < n
            invariant
                k <= n,
                self.wf(),
                self.width == old(self).width,
                self.height == old(self).height,
                self.sequence_fixed@ == old(self).sequence_fixed@,
                self.bg_base == old(self).bg_base,
                old(self).sequence@.len() + n <= usize::MAX,
                self.sequence@.len() == old(self).sequence@.len() + k,
                self.sequence@.subrange(0, old(self).sequence@.len() as int) == old(
                    self,
                ).sequence@,
            decreases n - k,
        {
            self.sequence.push(T::new(self.width, self.height));
            proof {
                assert(self.sequence@.subrange(0, old(self).sequence@.len() as int) =~= old(
                    self,
                ).sequence@);
            }
            k = k + 1;
        }
    }

    /// Merges the fixed prefix back into the mutable sequence, leaving
    /// the fixed prefix empty: every primitive becomes mutable again.
    pub fn fixate(&mut self)
        requires
            old(self).wf(),
            old(self).sequence@.len() + old(self).sequence_fixed@.len() <= usize::MAX,
        ensures
            final(self).wf(),
            final(self).width == old(self).width,
            final(self).height == old(self).height,
            final(self).bg_base == old(self).bg_base,
            final(self).sequence@ == old(self).sequence@ + old(self).sequence_fixed@,
            final(self).sequence_fixed@.len() == 0,
    {
        self.sequence.append(&mut self.sequence_fixed);
    }

    /// A deep copy: the duplicate has the same canvas, background and
    /// primitive sequences as the source genome.
    pub fn duplicate(&self) -> (g: SvgElementGenome<T>)
        ensures
            g.width == self.width,
            g.height == self.height,
            g.bg_base == self.bg_base,
            g.sequence@ == self.sequence@,
            g.sequence_fixed@ == self.sequence_fixed@,
    {
        SvgElementGenome {
            sequence: duplicate_vec(&self.sequence),
            sequence_fixed: duplicate_vec(&self.sequence_fixed),
            bg_base: self.bg_base,
            width: self.width,
            height: self.height,
        }
    }
}

/// An element-for-element copy of a vector of primitives.
fn duplicate_vec<T: Base>(v: &Vec<T>) -> (r: Vec<T>)
    ensures
        r@ == v@,
{
    let mut r: Vec<T> = Vec::new();
    let n = v.len();
    let mut i: usize = 0;
    while i < n
        invariant
            i <= n,
            n == v@.len(),
            r@ == v@.take(i as int),
        decreases n - i,
    {
        r.push(v[i]);
        proof {
            assert(r@ =~= v@.take(i + 1));
        }
        i = i + 1;
    }
    proof {
        assert(v@.take(n as int) =~= v@);
    }
    r
}

/// The concatenation of the shorter parent's prefix (up to the cut)
/// with the longer parent's suffix (from the cut on).
fn cross_sequences<T: Base>(short: &Vec<T>, long: &Vec<T>, cp: usize) -> (r: Vec<T>)
    requires
        cp <= short@.len() <= long@.len(),
        forall|i: int| 0 <= i < short@.len() ==> (#[trigger] short@[i]).wf(),
        forall|i: int| 0 <= i < long@.len() ==> (#[trigger] long@[i]).wf(),
    ensures
        r@ == short@.subrange(0, cp as int) + long@.subrange(cp as int, long@.len() as int),
        forall|i: int| 0 <= i < r@.len() ==> (#[trigger] r@[i]).wf(),
{
    let mut r: Vec<T> = Vec::new();
    let mut i: usize = 0;
    while i < cp
        invariant
            i <= cp,
            cp <= short@.len(),
            r@ == short@.take(i as int),
        decreases cp - i,
    {
        r.push(short[i]);
        proof {
            assert(r@ =~= short@.take(i + 1));
        }
        i = i + 1;
    }
    let n = long.len();
    let mut j: usize = cp;
    while j < n
        invariant
            cp <= j <= n,
            n == long@.len(),
            cp <= short@.len(),
            r@ == short@.take(cp as int) + long@.subrange(cp as int, j as int),
        decreases n - j,
    {
        r.push(long[j]);
        proof {
            assert(r@ =~= short@.take(cp as int) + long@.subrange(cp as int, j + 1));
        }
        j = j + 1;
    }
    proof {
        assert(r@ =~= short@.subrange(0, cp as int) + long@.subrange(
            cp as int,
            long@.len() as int,
        ));
    }
    r
}

} // verus!
