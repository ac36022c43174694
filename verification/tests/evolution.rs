use svg_painter::Controller;
use svg_painter::calc_scale;
use svg_painter::genetic::ImageApproximation;
use svg_painter::genetic::average_color_at_points;
use svg_painter::genetic::average_color_masked;
use svg_painter::genetic::base::StrokeBase;
use svg_painter::genetic::color::Rgba;
use svg_painter::genetic::genome::SvgElementGenome;
use svg_painter::genetic::population::{Population, converged};
use svg_painter::genetic::svg::{Base, CircleBase, RgbBase, TriangleBase};
use svg_painter::util::image::PixelBuffer;

fn uniform(width: u32, height: u32, p: (u8, u8, u8, u8)) -> PixelBuffer {
    let mut data = Vec::new();
    for _ in 0..width * height {
        data.push(p.0);
        data.push(p.1);
        data.push(p.2);
        data.push(p.3);
    }
    PixelBuffer { width, height, data }
}

fn stroke_fixture() -> StrokeBase {
    StrokeBase {
        stroke_idx: 2,
        x: -5,
        y: 7,
        rotation: 90,
        scale_x_milli: 1500,
        scale_y_milli: 500,
        color: Rgba::new(1, 2, 3, 4),
    }
}

#[test]
fn stroke_express_is_exact() {
    let s = stroke_fixture();
    assert_eq!(
        s.express(),
        "<g fill-opacity=\"0.900\" fill=\"#010203\" transform=\"translate(-5 7) rotate(90) \
         scale(1.50000 0.50000)\"><use href=\"#stroke-2\"/></g>"
    );
}

#[test]
fn stroke_express_formats_negative_scales() {
    let mut s = stroke_fixture();
    s.scale_x_milli = -250;
    s.scale_y_milli = 2000;
    assert!(s.express().contains("scale(-0.25000 2.00000)"));
}

#[test]
fn circle_express_is_exact() {
    let c = CircleBase { x: 3, y: 4, r: 5, color: Rgba::new(255, 255, 255, 255), max_r: 10 };
    assert_eq!(
        c.express(),
        "<circle cx=\"3\" cy=\"4\" r=\"5\" fill-opacity=\"1.000\" fill=\"#FFFFFF\"/>"
    );
    let half = CircleBase { x: 0, y: 0, r: 1, color: Rgba::new(0, 0, 0, 128), max_r: 10 };
    assert_eq!(
        half.express(),
        "<circle cx=\"0\" cy=\"0\" r=\"1\" fill-opacity=\"0.502\" fill=\"#000000\"/>"
    );
}

#[test]
fn triangle_express_is_exact() {
    let t = TriangleBase {
        x1: 0,
        y1: 1,
        x2: -2,
        y2: 3,
        x3: 4,
        y3: 5,
        color: Rgba::new(16, 32, 64, 255),
    };
    assert_eq!(
        t.express(),
        "<polygon points=\"0,1 -2,3 4,5\" fill-opacity=\"1.000\" fill=\"#102040\"/>"
    );
}

#[test]
fn mutation_never_changes_the_primitive_kind_fields() {
    let mut c = CircleBase::new(64, 64);
    assert!(c.x >= 0 && c.x < 64 && c.y >= 0 && c.y < 64);
    assert!(c.r >= 1 && (c.r as u64) < c.max_r);
    for _ in 0..200 {
        let (px, py, pr) = (c.x, c.y, c.r);
        Base::mutate(&mut c);
        assert!((c.x - px).abs() <= 5 && (c.y - py).abs() <= 5);
        assert!((c.r - pr).abs() <= 5);
        assert!(c.r >= 1);
    }
    let mut s: StrokeBase = Base::new(64, 64);
    let idx = s.stroke_idx;
    for _ in 0..200 {
        Base::mutate(&mut s);
        assert_eq!(s.stroke_idx, idx);
        assert!(s.rotation >= 0 && s.rotation < 360);
    }
    let mut b = RgbBase::new(64, 64);
    for _ in 0..50 {
        Base::mutate(&mut b);
    }
}

#[test]
fn crossover_child_length_is_the_longer_parent() {
    let a: SvgElementGenome<CircleBase> = SvgElementGenome::new(3, 32, 32);
    let b: SvgElementGenome<CircleBase> = SvgElementGenome::new(5, 32, 32);
    assert_eq!(a.cross_with(&b).len(), 5);
    assert_eq!(b.cross_with(&a).len(), 5);
    let c: SvgElementGenome<CircleBase> = SvgElementGenome::new(4, 32, 32);
    let d: SvgElementGenome<CircleBase> = SvgElementGenome::new(4, 32, 32);
    assert_eq!(c.cross_with(&d).len(), 4);
}

#[test]
fn genome_mutation_keeps_length_in_bounds() {
    let mut g: SvgElementGenome<TriangleBase> = SvgElementGenome::new(10, 32, 32);
    for _ in 0..50 {
        let before = g.len();
        g.mutate();
        let after = g.len();
        assert!(after >= 1);
        assert!(after <= 2 * before);
    }
}

#[test]
fn genome_insertion_and_fixate() {
    let mut g: SvgElementGenome<CircleBase> = SvgElementGenome::new(2, 32, 32);
    g.insertion(3);
    assert_eq!(g.len(), 5);
    g.sequence_fixed.push(CircleBase::new(32, 32));
    g.fixate();
    assert_eq!(g.len(), 6);
    assert!(g.sequence_fixed.is_empty());
}

#[test]
fn genome_express_is_a_full_document() {
    let g: SvgElementGenome<StrokeBase> = SvgElementGenome::new(1, 32, 32);
    let doc = g.express();
    assert!(doc.starts_with("<svg width=\"32\" height=\"32\""));
    assert!(doc.contains("<rect id=\"stroke-0\""));
    assert!(doc.contains("#stroke-"));
    assert!(doc.ends_with("</svg>"));
}

#[test]
fn population_cycle_keeps_size_and_never_worsens_the_best() {
    let target = uniform(8, 8, (200, 60, 30, 255));
    let mut pop: Population<CircleBase> = Population::new(10, 5, 8, 8);
    pop.evaluate(&target);
    pop.sort();
    let pre_best = pop.individuals[0].fitness.unwrap();
    pop.reproduce_elitist(2);
    assert_eq!(pop.individuals.len(), 10);
    pop.evaluate(&target);
    pop.sort();
    assert_eq!(pop.individuals.len(), 10);
    assert!(pop.individuals[0].fitness.unwrap() <= pre_best);
    let best = pop.individuals[0].fitness.unwrap();
    pop.next_generation_elitist(&target, 2);
    assert_eq!(pop.individuals.len(), 10);
    assert!(pop.individuals[0].fitness.unwrap() <= best);
}

#[test]
fn generations_never_worsen_under_weighted_reproduction() {
    let target = uniform(8, 8, (10, 120, 240, 255));
    let mut pop: Population<TriangleBase> = Population::new(8, 4, 8, 8);
    pop.evaluate(&target);
    pop.sort();
    let mut best = pop.individuals[0].fitness.unwrap();
    for _ in 0..3 {
        pop.next_generation(&target);
        let new_best = pop.individuals[0].fitness.unwrap();
        assert!(new_best <= best);
        best = new_best;
    }
}

#[test]
fn convergence_needs_a_full_flat_window() {
    assert!(!converged(&vec![100, 100, 100], 3, 5));
    assert!(converged(&vec![100, 101, 99, 100], 3, 5));
    assert!(!converged(&vec![100, 120, 99, 100], 3, 5));
    assert!(converged(&vec![500, 100, 101, 99, 100], 3, 5));
}

#[test]
fn average_color_over_masked_pixels() {
    let target = uniform(2, 1, (10, 20, 30, 255));
    let mut t2 = target;
    t2.data[4] = 30;  // second pixel red 30
    let mask_first = PixelBuffer { width: 2, height: 1, data: vec![0, 0, 0, 255, 0, 0, 0, 0] };
    let c = average_color_masked(&t2, &mask_first);
    assert_eq!((c.r, c.g, c.b, c.a), (10, 20, 30, 255));
    let mask_both = uniform(2, 1, (0, 0, 0, 1));
    let c2 = average_color_masked(&t2, &mask_both);
    assert_eq!(c2.r, 20);
    let mask_none = uniform(2, 1, (0, 0, 0, 0));
    let c3 = average_color_masked(&t2, &mask_none);
    assert_eq!((c3.r, c3.g, c3.b, c3.a), (0, 0, 0, 255));
}

#[test]
fn average_color_at_sample_points() {
    let target = uniform(4, 4, (40, 50, 60, 255));
    let inside = vec![(0i64, 0i64), (3, 3)];
    let c = average_color_at_points(&target, &inside).unwrap();
    assert_eq!((c.r, c.g, c.b, c.a), (40, 50, 60, 255));
    let outside = vec![(-1i64, 0i64), (4, 0), (0, 99)];
    assert!(average_color_at_points(&target, &outside).is_none());
}

#[test]
fn stage_scale_shrinks_but_stays_positive() {
    let target = uniform(16, 9, (100, 100, 100, 255));
    assert_eq!(calc_scale(&target, 2), (10, 10));
    // Far beyond the useful range the scale floors at one thousandth
    // instead of collapsing to zero.
    assert_eq!(calc_scale(&target, 1000), (1, 1));
    assert_eq!(calc_scale(&target, u32::MAX), (1, 1));
}

#[test]
fn controller_scale_and_movement() {
    let target = uniform(16, 9, (100, 100, 100, 255));
    let s = calc_scale(&target, 1);
    assert_eq!(s, (20, 20));  // 16 * 1000 / 800
    let mask_src = uniform(4, 4, (100, 100, 100, 255));
    let mut ctl = Controller::new(&mask_src);
    assert_eq!(ctl.get_scale(), (1000, 1000));
    ctl.set_scale((2000, 500));
    assert_eq!(ctl.get_mutation_movement(), (200, 50));
    ctl.set_scale((0, 3));
    assert_eq!(ctl.get_mutation_movement(), (1, 1));
    assert_eq!(ctl.get_max_attempts(), 25);
    for _ in 0..100 {
        let (x, y) = ctl.get_xy();
        assert!(x >= 0 && x < 4 && y >= 0 && y < 4);
    }
}

#[test]
fn approximation_improves_fitness_on_success() {
    let target = uniform(16, 16, (220, 40, 40, 255));
    let mask_src = uniform(16, 16, (255, 255, 255, 255));
    let mut ctl = Controller::new(&mask_src);
    ctl.set_scale(calc_scale(&target, 1));
    let mut approx = ImageApproximation::new(target);
    let mut successes = 0;
    for _ in 0..20 {
        let before = approx.fitness;
        if approx.add_stroke(&ctl) {
            successes += 1;
            assert!(approx.fitness < before);
        } else {
            assert_eq!(approx.fitness, before);
        }
    }
    assert!(successes > 0);
    assert_eq!(approx.strokes.len(), successes);
    let doc = approx.express();
    assert!(doc.starts_with("<svg width=\"16\" height=\"16\""));
    assert!(doc.ends_with("</svg>"));
}

#[test]
fn diffmap_is_black_on_a_perfect_match() {
    let target = uniform(4, 4, (0, 0, 0, 0));
    let approx = ImageApproximation::new(target);
    // The fresh render is fully transparent, matching this target.
    let heat = approx.target_approximation_diffmap();
    for p in 0..16 {
        assert_eq!(heat.data[4 * p], 0);
        assert_eq!(heat.data[4 * p + 3], 255);
    }
}

#[test]
fn run_step_never_worsens_fitness_and_keeps_its_counters_in_range() {
    let target = uniform(8, 8, (0, 0, 0, 0));
    let mask_src = uniform(8, 8, (255, 255, 255, 255));
    let mut ctl = Controller::new(&mask_src);
    let mut approx = ImageApproximation::new(target);
    let mut stage: u32 = 1;
    let mut failed: u32 = 0;
    for _ in 0..60 {
        let before = approx.fitness;
        let stage_before = stage;
        svg_painter::run_step(&mut approx, &mut ctl, &mut stage, &mut failed);
        assert!(approx.fitness <= before);
        assert!(stage >= stage_before);
        assert!(stage >= 1);
        assert!(failed < 20);
    }
    // The first step always replaces the starting sentinel fitness; an
    // all-transparent target cannot be approached any further by
    // adding paint, so the repeated failures escalate the stage.
    assert!(stage >= 2);
}
