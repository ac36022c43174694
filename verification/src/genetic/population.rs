use vstd::prelude::*;

verus! {

use vstd::seq_lib::group_to_multiset_ensures;
use crate::genetic::genome::SvgElementGenome;
use crate::genetic::svg::Base;
use crate::util::image::PixelBuffer;
use crate::util::image::cumulative_bucket;
use crate::util::{pixmap_distance, random_u64_below, render_svg_into_pixmap};

/// One member of a population: a genome together with its fitness,
/// once evaluated.  A freshly bred genome carries no fitness yet.
pub struct Individual<T: Base> {
    pub genome: SvgElementGenome<T>,
    pub fitness: Option<u64>,
}

/// The sort key of an individual: its fitness; an unevaluated
/// individual sorts after every evaluated one.
pub open spec fn fit<T: Base>(ind: Individual<T>) -> int {
    match ind.fitness {
        Option::Some(f) => f as int,
        Option::None => 0x1_0000_0000_0000_0000,
    }
}

/// Two genomes that draw the same picture: equal canvas, background
/// and primitive sequences.
pub open spec fn genome_like<T: Base>(a: SvgElementGenome<T>, b: SvgElementGenome<T>) -> bool {
    &&& a.width == b.width
    &&& a.height == b.height
    &&& a.bg_base == b.bg_base
    &&& a.sequence@ == b.sequence@
    &&& a.sequence_fixed@ == b.sequence_fixed@
}

/// Ascending by fitness.
pub open spec fn sorted_by_fitness<T: Base>(s: Seq<Individual<T>>) -> bool {
    forall|i: int, j: int| 0 <= i <= j < s.len() ==> fit(s[i]) <= fit(s[j])
}

/// Every individual carries a fitness.
pub open spec fn all_evaluated<T: Base>(s: Seq<Individual<T>>) -> bool {
    forall|i: int| 0 <= i < s.len() ==> (#[trigger] s[i]).fitness is Some
}

/// A population of candidate genomes for one target canvas, evolved
/// generation by generation: evaluate, sort ascending by fitness,
/// reproduce.  After sorting, index 0 is the best individual.
pub struct Population<T: Base> {
    pub individuals: Vec<Individual<T>>,
    pub width: u32,
    pub height: u32,
}

impl<T: Base> Population<T> {
    /// Well-formedness: bounded canvas dimensions, at least one
    /// individual, and every genome well-formed, non-empty and drawn
    /// on this population's canvas.
    pub open spec fn wf(self) -> bool {
        &&& 1 <= self.width <= 0x4000
        &&& 1 <= self.height <= 0x4000
        &&& 1 <= self.individuals@.len() <= 0x1000_0000
        &&& forall|i: int| 0 <= i < self.individuals@.len() ==> {
            let g = (#[trigger] self.individuals@[i]).genome;
            g.wf() && g.width == self.width && g.height == self.height && g.sequence@.len() >= 1
        }
    }

    /// A population of `size` random genomes of `genome_size`
    /// primitives each, none evaluated yet.
    pub fn new(size: u32, genome_size: u32, width: u32, height: u32) -> (p: Population<T>)
        requires
            1 <= size <= 0x1000_0000,
            genome_size >= 1,
            1 <= width <= 0x4000,
            1 <= height <= 0x4000,
        ensures
            p.wf(),
            p.width == width,
            p.height == height,
            p.individuals@.len() == size,
    {
        let mut individuals: Vec<Individual<T>> = Vec::new();
        let mut i: u32 = 0;
        while i < size
            invariant
                i <= size,
                genome_size >= 1,
                1 <= width <= 0x4000,
                1 <= height <= 0x4000,
                individuals@.len() == i,
                forall|j: int| 0 <= j < individuals@.len() ==> {
                    let g = (#[trigger] individuals@[j]).genome;
                    g.wf() && g.width == width && g.height == height && g.sequence@.len() >= 1
                },
            decreases size - i,
        {
            individuals.push(
                Individual { genome: SvgElementGenome::<T>::new(genome_size, width, height), fitness: None },
            );
            i = i + 1;
        }
        Population { individuals, width, height }
    }

    /// Renders and scores every individual that has no fitness yet;
    /// already evaluated individuals keep their score, and no genome
    /// changes.  An individual whose markup the rasterizer rejects
    /// scores the worst possible fitness.
    pub fn evaluate(&mut self, target: &PixelBuffer)
        requires
            old(self).wf(),
            target.wf(),
            target.width == old(self).width,
            target.height == old(self).height,
        ensures
            final(self).wf(),
            final(self).width == old(self).width,
            final(self).height == old(self).height,
            final(self).individuals@.len() == old(self).individuals@.len(),
            all_evaluated(final(self).individuals@),
            forall|i: int| 0 <= i < final(self).individuals@.len() ==> genome_like(
                (#[trigger] final(self).individuals@[i]).genome,
                old(self).individuals@[i].genome,
            ),
            forall|i: int| 0 <= i < final(self).individuals@.len()
                ==> ((#[trigger] old(self).individuals@[i]).fitness is Some
                ==> final(self).individuals@[i].fitness == old(self).individuals@[i].fitness),
    {
        let n = self.individuals.len();
        let mut out: Vec<Individual<T>> = Vec::new();
        let mut i: usize = 0;
        while i < n
            invariant
                i <= n,
                n == self.individuals@.len(),
                self.wf(),
                target.wf(),
                target.width == self.width,
                target.height == self.height,
                out@.len() == i,
                forall|j: int| 0 <= j < i ==> (#[trigger] out@[j]).fitness is Some,
                forall|j: int| 0 <= j < i ==> genome_like(
                    (#[trigger] out@[j]).genome,
                    self.individuals@[j].genome,
                ),
                forall|j: int| 0 <= j < i ==> ((#[trigger] self.individuals@[j]).fitness is Some
                    ==> out@[j].fitness == self.individuals@[j].fitness),
            decreases n - i,
        {
            let ind = &self.individuals[i];
            let fitness: Option<u64> = match ind.fitness {
                Some(f) => Some(f),
                None => {
                    let svg = ind.genome.express();
                    match render_svg_into_pixmap(svg.as_str(), self.width, self.height) {
                        Some(render) => Some(pixmap_distance(&render, target)),
                        None => Some(u64::MAX),
                    }
                },
            };
            out.push(Individual { genome: ind.genome.duplicate(), fitness });
            i = i + 1;
        }
        self.individuals = out;
    }

    /// Sorts the population ascending by fitness, so the best-scoring
    /// individual stands at index 0; the population is a permutation
    /// of what it was.
    pub fn sort(&mut self)
        requires
            old(self).wf(),
        ensures
            final(self).wf(),
            final(self).width == old(self).width,
            final(self).height == old(self).height,
            final(self).individuals@.len() == old(self).individuals@.len(),
            sorted_by_fitness(final(self).individuals@),
            final(self).individuals@.to_multiset() == old(self).individuals@.to_multiset(),
    {
        broadcast use group_to_multiset_ensures;

        let ghost orig = self.individuals@;
        let mut out: Vec<Individual<T>> = Vec::new();
        while self.individuals.len() > 0
            invariant
                1 <= self.width <= 0x4000,
                1 <= self.height <= 0x4000,
                self.width == old(self).width,
                self.height == old(self).height,
                out@.to_multiset().add(self.individuals@.to_multiset()) =~= orig.to_multiset(),
                out@.len() + self.individuals@.len() == orig.len(),
                sorted_by_fitness(out@),
                forall|i: int, j: int|
                    0 <= i < out@.len() && 0 <= j < self.individuals@.len() ==> fit(out@[i]) <= fit(
                        self.individuals@[j],
                    ),
                forall|i: int| 0 <= i < out@.len() ==> {
                    let g = (#[trigger] out@[i]).genome;
                    g.wf() && g.width == self.width && g.height == self.height && g.sequence@.len()
                        >= 1
                },
                forall|i: int| 0 <= i < self.individuals@.len() ==> {
                    let g = (#[trigger] self.individuals@[i]).genome;
                    g.wf() && g.width == self.width && g.height == self.height && g.sequence@.len()
                        >= 1
                },
            decreases self.individuals@.len(),
        {
            let mut best: usize = 0;
            let mut j: usize = 1;
            while j < self.individuals.len()
                invariant
                    best < j <= self.individuals@.len(),
                    self.individuals@.len() > 0,
                    forall|q: int| 0 <= q < j ==> fit(self.individuals@[best as int]) <= fit(
                        #[trigger] self.individuals@[q],
                    ),
                decreases self.individuals@.len() - j,
            {
                if fitness_lt(&self.individuals[j], &self.individuals[best]) {
                    best = j;
                }
                j = j + 1;
            }
            let ghost pre_out = out@;
            let ghost pre_inds = self.individuals@;
            let x = self.individuals.remove(best);
            out.push(x);
            proof {
                broadcast use vstd::multiset::group_multiset_axioms;

                pre_inds.to_multiset_ensures();
                pre_out.to_multiset_ensures();
                assert(x == pre_inds[best as int]);
                assert(self.individuals@ == pre_inds.remove(best as int));
                assert(pre_inds.remove(best as int).to_multiset() =~= pre_inds.to_multiset().remove(
                    x,
                ));
                assert(self.individuals@.to_multiset() =~= pre_inds.to_multiset().remove(x));
                assert(out@ == pre_out.push(x));
                assert(pre_out.push(x).to_multiset() =~= pre_out.to_multiset().insert(x));
                assert(out@.to_multiset() =~= pre_out.to_multiset().insert(x));
                assert(out@.to_multiset().add(self.individuals@.to_multiset())
                    =~= orig.to_multiset());
            }
        }
        self.individuals = out;
        proof {
            assert(self.individuals@.to_multiset() =~= orig.to_multiset());
        }
    }

    /// Elitist-uniform reproduction: the top `k` individuals are kept
    /// verbatim (scores included), and every remaining slot is filled
    /// with a mutated, unevaluated clone of one of those elites, taken
    /// in round-robin order.  Population size never changes.
    pub fn reproduce_elitist(&mut self, k: usize)
        requires
            old(self).wf(),
            1 <= k <= old(self).individuals@.len(),
        ensures
            final(self).wf(),
            final(self).width == old(self).width,
            final(self).height == old(self).height,
            final(self).individuals@.len() == old(self).individuals@.len(),
            forall|i: int| 0 <= i < k ==> genome_like(
                (#[trigger] final(self).individuals@[i]).genome,
                old(self).individuals@[i].genome,
            ),
            forall|i: int| 0 <= i < k ==> (#[trigger] final(self).individuals@[i]).fitness == old(
                self,
            ).individuals@[i].fitness,
            forall|i: int| k <= i < final(self).individuals@.len()
                ==> (#[trigger] final(self).individuals@[i]).fitness is None,
    {
        let n = self.individuals.len();
        let mut out: Vec<Individual<T>> = Vec::new();
        let mut i: usize = 0;
        while i < k
            invariant
                i <= k,
                k <= n,
                n == self.individuals@.len(),
                self.wf(),
                out@.len() == i,
                forall|j: int| 0 <= j < i ==> genome_like(
                    (#[trigger] out@[j]).genome,
                    self.individuals@[j].genome,
                ),
                forall|j: int| 0 <= j < i ==> (#[trigger] out@[j]).fitness
                    == self.individuals@[j].fitness,
                forall|j: int| 0 <= j < i ==> {
                    let g = (#[trigger] out@[j]).genome;
                    g.wf() && g.width == self.width && g.height == self.height && g.sequence@.len()
                        >= 1
                },
            decreases k - i,
        {
            let ind = &self.individuals[i];
            out.push(Individual { genome: ind.genome.duplicate(), fitness: ind.fitness });
            i = i + 1;
        }
        let mut slot: usize = k;
        let mut parent: usize = 0;
        while slot < n
            invariant
                k <= slot <= n,
                parent < k,
                k <= n,
                n == self.individuals@.len(),
                self.wf(),
                out@.len() == slot,
                forall|j: int| 0 <= j < k ==> genome_like(
                    (#[trigger] out@[j]).genome,
                    self.individuals@[j].genome,
                ),
                forall|j: int| 0 <= j < k ==> (#[trigger] out@[j]).fitness
                    == self.individuals@[j].fitness,
                forall|j: int| k <= j < out@.len() ==> (#[trigger] out@[j]).fitness is None,
                forall|j: int| 0 <= j < out@.len() ==> {
                    let g = (#[trigger] out@[j]).genome;
                    g.wf() && g.width == self.width && g.height == self.height && g.sequence@.len()
                        >= 1
                },
            decreases n - slot,
        {
            let mut child = self.individuals[parent].genome.duplicate();
            child.mutate();
            out.push(Individual { genome: child, fitness: None });
            parent = parent + 1;
            if parent == k {
                parent = 0;
            }
            slot = slot + 1;
        }
        self.individuals = out;
    }

    /// Fitness-proportionate reproduction: the single best individual
    /// is kept unconditionally (score included); every other slot is
    /// bred by crossing two parents drawn with probability
    /// proportional to `max_fitness - fitness + 1` — worse individuals
    /// keep a smaller but positive chance — and mutating the child.
    /// Population size never changes.
    pub fn reproduce(&mut self)
        requires
            old(self).wf(),
            all_evaluated(old(self).individuals@),
        ensures
            final(self).wf(),
            final(self).width == old(self).width,
            final(self).height == old(self).height,
            final(self).individuals@.len() == old(self).individuals@.len(),
            genome_like(
                final(self).individuals@[0].genome,
                old(self).individuals@[0].genome,
            ),
            final(self).individuals@[0].fitness == old(self).individuals@[0].fitness,
            forall|i: int| 1 <= i < final(self).individuals@.len()
                ==> (#[trigger] final(self).individuals@[i]).fitness is None,
    {
        let n = self.individuals.len();
        // Selection weights: worse fitness, smaller weight, never zero.
        let mut max_f: u64 = 0;
        let mut i: usize = 0;
        while i < n
            invariant
                i <= n,
                n == self.individuals@.len(),
                self.wf(),
            decreases n - i,
        {
            match self.individuals[i].fitness {
                Some(f) => {
                    if f > max_f {
                        max_f = f;
                    }
                },
                None => {},
            }
            i = i + 1;
        }
        let mut cum: Vec<u64> = Vec::new();
        let mut total: u64 = 0;
        let mut i: usize = 0;
        while i < n
            invariant
                i <= n,
                n == self.individuals@.len(),
                self.wf(),
                cum@.len() == i,
                total <= 0x1_0000_0001 * i,
                forall|p: int, q: int| 0 <= p <= q < cum@.len() ==> cum@[p] <= cum@[q],
                i > 0 ==> total == cum@[i - 1] && total >= i,
            decreases n - i,
        {
            let f: u64 = match self.individuals[i].fitness {
                Some(f) => f,
                None => max_f,
            };
            let gap = if f <= max_f {
                max_f - f
            } else {
                0
            };
            let w: u64 = if gap > 0xFFFF_FFFF {
                0x1_0000_0000
            } else {
                gap + 1
            };
            total = total + w;
            cum.push(total);
            i = i + 1;
        }
        let mut out: Vec<Individual<T>> = Vec::new();
        let ind0 = &self.individuals[0];
        out.push(Individual { genome: ind0.genome.duplicate(), fitness: ind0.fitness });
        let mut slot: usize = 1;
        while slot < n
            invariant
                1 <= slot <= n,
                n == self.individuals@.len(),
                self.wf(),
                out@.len() == slot,
                cum@.len() == n,
                n > 0 ==> cum@[n - 1] >= 1,
                forall|p: int, q: int| 0 <= p <= q < cum@.len() ==> cum@[p] <= cum@[q],
                genome_like((#[trigger] out@[0]).genome, self.individuals@[0].genome),
                out@[0].fitness == self.individuals@[0].fitness,
                forall|j: int| 1 <= j < out@.len() ==> (#[trigger] out@[j]).fitness is None,
                forall|j: int| 0 <= j < out@.len() ==> {
                    let g = (#[trigger] out@[j]).genome;
                    g.wf() && g.width == self.width && g.height == self.height && g.sequence@.len()
                        >= 1
                },
            decreases n - slot,
        {
            let pa = self.sample_parent(&cum);
            let pb = self.sample_parent(&cum);
            let mut child = self.individuals[pa].genome.cross_with(&self.individuals[pb].genome);
            if child.len() > 0 {
                child.mutate();
            } else {
                child.insertion(1);
            }
            out.push(Individual { genome: child, fitness: None });
            slot = slot + 1;
        }
        self.individuals = out;
    }

    /// One full generation under elitist-uniform reproduction with
    /// `k` retained elites: reproduce, evaluate the offspring, and
    /// sort.  The retained best individual keeps its score, so the
    /// best fitness never worsens from one generation to the next.
    pub fn next_generation_elitist(&mut self, target: &PixelBuffer, k: usize)
        requires
            old(self).wf(),
            all_evaluated(old(self).individuals@),
            sorted_by_fitness(old(self).individuals@),
            1 <= k <= old(self).individuals@.len(),
            target.wf(),
            target.width == old(self).width,
            target.height == old(self).height,
        ensures
            final(self).wf(),
            final(self).width == old(self).width,
            final(self).height == old(self).height,
            final(self).individuals@.len() == old(self).individuals@.len(),
            all_evaluated(final(self).individuals@),
            sorted_by_fitness(final(self).individuals@),
            fit(final(self).individuals@[0]) <= fit(old(self).individuals@[0]),
    {
        broadcast use group_to_multiset_ensures;

        self.reproduce_elitist(k);
        self.evaluate(target);
        let ghost evaluated = self.individuals@;
        proof {
            assert(evaluated[0].fitness == old(self).individuals@[0].fitness);
            assert(fit(evaluated[0]) == fit(old(self).individuals@[0]));
        }
        self.sort();
        proof {
            assert forall|i: int| 0 <= i < self.individuals@.len()
                implies (#[trigger] self.individuals@[i]).fitness is Some by {
                let x = self.individuals@[i];
                assert(self.individuals@.contains(x));
                assert(self.individuals@.to_multiset().count(x) > 0);
                assert(evaluated.to_multiset().count(x) > 0);
                assert(evaluated.contains(x));
                let j = choose|j: int| 0 <= j < evaluated.len() && evaluated[j] == x;
                assert(evaluated[j].fitness is Some);
            }
            let elite = evaluated[0];
            assert(evaluated[0] == elite);
            assert(evaluated.contains(elite));
            assert(evaluated.to_multiset().count(elite) > 0);
            assert(self.individuals@.to_multiset().count(elite) > 0);
            assert(self.individuals@.contains(elite));
            let q = choose|q: int| 0 <= q < self.individuals@.len() && self.individuals@[q]
                == elite;
            assert(self.individuals@[q] == elite);
            assert(fit(self.individuals@[0]) <= fit(self.individuals@[q]));
            assert(fit(elite) == fit(old(self).individuals@[0]));
        }
    }

    /// Draws one parent index from the cumulative selection weights.
    fn sample_parent(&self, cum: &Vec<u64>) -> (i: usize)
        requires
            self.wf(),
            cum@.len() == self.individuals@.len(),
            cum@[cum@.len() - 1] >= 1,
            forall|p: int, q: int| 0 <= p <= q < cum@.len() ==> cum@[p] <= cum@[q],
        ensures
            i < self.individuals@.len(),
    {
        let total = cum[cum.len() - 1];
        let x = random_u64_below(total);
        cumulative_bucket(cum, x)
    }

    /// One full generation under fitness-proportionate reproduction:
    /// reproduce, evaluate the offspring, and sort.  Because the best
    /// individual is kept with its score and sorting puts the minimum
    /// first, the best fitness never worsens from one generation to
    /// the next.
    pub fn next_generation(&mut self, target: &PixelBuffer)
        requires
            old(self).wf(),
            all_evaluated(old(self).individuals@),
            sorted_by_fitness(old(self).individuals@),
            target.wf(),
            target.width == old(self).width,
            target.height == old(self).height,
        ensures
            final(self).wf(),
            final(self).width == old(self).width,
            final(self).height == old(self).height,
            final(self).individuals@.len() == old(self).individuals@.len(),
            all_evaluated(final(self).individuals@),
            sorted_by_fitness(final(self).individuals@),
            fit(final(self).individuals@[0]) <= fit(old(self).individuals@[0]),
    {
        broadcast use group_to_multiset_ensures;

        self.reproduce();
        let ghost bred = self.individuals@;
        self.evaluate(target);
        let ghost evaluated = self.individuals@;
        proof {
            assert(evaluated[0].fitness == old(self).individuals@[0].fitness);
            assert(fit(evaluated[0]) == fit(old(self).individuals@[0]));
        }
        self.sort();
        proof {
            assert forall|i: int| 0 <= i < self.individuals@.len()
                implies (#[trigger] self.individuals@[i]).fitness is Some by {
                let x = self.individuals@[i];
                assert(self.individuals@.contains(x));
                assert(self.individuals@.to_multiset().count(x) > 0);
                assert(evaluated.to_multiset().count(x) > 0);
                assert(evaluated.contains(x));
                let j = choose|j: int| 0 <= j < evaluated.len() && evaluated[j] == x;
                assert(evaluated[j].fitness is Some);
            }
            let elite = evaluated[0];
            assert(evaluated[0] == elite);
            assert(evaluated.contains(elite));
            assert(evaluated.to_multiset().count(elite) > 0);
            assert(self.individuals@.to_multiset().count(elite) > 0);
            assert(self.individuals@.contains(elite));
            let k = choose|k: int| 0 <= k < self.individuals@.len() && self.individuals@[k]
                == elite;
            assert(self.individuals@[k] == elite);
            assert(fit(self.individuals@[0]) <= fit(self.individuals@[k]));
            assert(fit(elite) == fit(old(self).individuals@[0]));
        }
    }
}

/// The sum of the first `n` individuals' fitness values.
pub open spec fn fit_sum<T: Base>(s: Seq<Individual<T>>, n: int) -> int
    decreases n,
{
    if n <= 0 {
        0
    } else {
        fit_sum(s, n - 1) + fit(s[n - 1])
    }
}

/// Fitness sums of evaluated individuals stay within `u64` bounds per
/// element.
proof fn lemma_fit_sum_bound<T: Base>(s: Seq<Individual<T>>, n: int)
    requires
        all_evaluated(s),
        n <= s.len(),
    ensures
        0 <= fit_sum(s, n) <= if n <= 0 { 0int } else { 0xFFFF_FFFF_FFFF_FFFF * n },
    decreases n,
{
    if n > 0 {
        lemma_fit_sum_bound(s, n - 1);
        assert(s[n - 1].fitness is Some);
    }
}

impl<T: Base> Population<T> {
    /// The mean fitness of the top `k` individuals (meaningful after a
    /// sort), used by the convergence check.
    pub fn average_top_fitness(&self, k: usize) -> (a: u64)
        requires
            self.wf(),
            all_evaluated(self.individuals@),
            1 <= k <= self.individuals@.len(),
        ensures
            a == fit_sum(self.individuals@, k as int) / k as int,
    {
        let mut sum: u128 = 0;
        let mut i: usize = 0;
        while i < k
            invariant
                i <= k,
                k <= self.individuals@.len(),
                self.wf(),
                all_evaluated(self.individuals@),
                sum == fit_sum(self.individuals@, i as int),
                sum <= 0xFFFF_FFFF_FFFF_FFFF * (i as int),
            decreases k - i,
        {
            let f: u64 = match self.individuals[i].fitness {
                Some(f) => f,
                None => u64::MAX,
            };
            sum = sum + f as u128;
            i = i + 1;
        }
        proof {
            lemma_fit_sum_bound(self.individuals@, k as int);
            assert(sum / (k as u128) <= 0xFFFF_FFFF_FFFF_FFFF) by (nonlinear_arith)
                requires
                    k >= 1,
                    sum <= 0xFFFF_FFFF_FFFF_FFFF * (k as int),
            ;
            assert(sum as int / k as int == fit_sum(self.individuals@, k as int) / k as int);
        }
        (sum / (k as u128)) as u64
    }
}

/// Whether a fitness history has plateaued: the latest average differs
/// from each of the previous `window` averages by less than the given
/// threshold.  A history shorter than the window cannot have converged.
pub open spec fn spec_converged(h: Seq<u64>, window: int, threshold: int) -> bool {
    &&& h.len() > window
    &&& forall|i: int|
        h.len() - 1 - window <= i < h.len() - 1 ==> crate::util::image::abs_diff(
            h[h.len() - 1] as int,
            #[trigger] h[i] as int,
        ) < threshold
}

/// The convergence check on a history of per-generation fitness
/// averages: true when the newest entry differs from each of the
/// previous `window` entries by less than `threshold`.
pub fn converged(history: &Vec<u64>, window: usize, threshold: u64) -> (r: bool)
    requires
        window >= 1,
    ensures
        r == spec_converged(history@, window as int, threshold as int),
{
    let n = history.len();
    if n <= window {
        return false;
    }
    let last = history[n - 1];
    let mut i: usize = n - 1 - window;
    while i < n - 1
        invariant
            n == history@.len(),
            n > window >= 1,
            n - 1 - window <= i <= n - 1,
            last == history@[n - 1],
            forall|j: int|
                n - 1 - window <= j < i ==> crate::util::image::abs_diff(
                    last as int,
                    #[trigger] history@[j] as int,
                ) < threshold,
        decreases n - 1 - i,
    {
        let h = history[i];
        let d = if last >= h {
            last - h
        } else {
            h - last
        };
        if d >= threshold {
            return false;
        }
        i = i + 1;
    }
    true
}

/// Compares two individuals by fitness; an unevaluated individual
/// never sorts before an evaluated one.
fn fitness_lt<T: Base>(a: &Individual<T>, b: &Individual<T>) -> (r: bool)
    ensures
        r == (fit(*a) < fit(*b)),
{
    match (&a.fitness, &b.fitness) {
        (Some(fa), Some(fb)) => *fa < *fb,
        (Some(_), None) => true,
        (None, _) => false,
    }
}

} // verus!
