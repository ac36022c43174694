use svg_painter::util::image::{
    GraylevelMask, PixelBuffer, cumulative_bucket, gaussian_blur, sobel, total_gray,
};
use svg_painter::util::{composite_over, pixmap_distance, render_svg_into_pixmap};

fn buffer_from_pixels(width: u32, height: u32, pixels: &[(u8, u8, u8, u8)]) -> PixelBuffer {
    assert_eq!(pixels.len(), (width * height) as usize);
    let mut data = Vec::new();
    for &(r, g, b, a) in pixels {
        data.push(r);
        data.push(g);
        data.push(b);
        data.push(a);
    }
    PixelBuffer { width, height, data }
}

fn uniform(width: u32, height: u32, p: (u8, u8, u8, u8)) -> PixelBuffer {
    let pixels = vec![p; (width * height) as usize];
    buffer_from_pixels(width, height, &pixels)
}

#[test]
fn fitness_is_zero_on_identical_buffers() {
    let a = buffer_from_pixels(2, 1, &[(255, 0, 0, 255), (0, 255, 0, 255)]);
    let b = buffer_from_pixels(2, 1, &[(255, 0, 0, 255), (0, 255, 0, 255)]);
    assert_eq!(pixmap_distance(&a, &b), 0);
}

#[test]
fn fitness_matches_closed_form_against_black() {
    let target = buffer_from_pixels(2, 1, &[(255, 0, 0, 255), (0, 255, 0, 255)]);
    let black = uniform(2, 1, (0, 0, 0, 255));
    // Each pixel differs by 255 in exactly one color channel.
    assert_eq!(pixmap_distance(&target, &black), 255 * 255 + 255 * 255);
}

#[test]
fn fitness_is_symmetric() {
    let a = buffer_from_pixels(2, 2, &[(1, 2, 3, 4), (5, 6, 7, 8), (9, 10, 11, 12), (0, 0, 0, 0)]);
    let b = buffer_from_pixels(2, 2, &[(8, 7, 6, 5), (4, 3, 2, 1), (0, 0, 0, 0), (12, 11, 10, 9)]);
    assert_eq!(pixmap_distance(&a, &b), pixmap_distance(&b, &a));
}

#[test]
fn fitness_is_positive_on_differing_buffers() {
    let a = uniform(3, 3, (10, 10, 10, 255));
    let mut b = uniform(3, 3, (10, 10, 10, 255));
    b.data[0] = 11;
    assert!(pixmap_distance(&a, &b) > 0);
}

#[test]
fn cumulative_bucket_finds_exact_buckets() {
    let cum = vec![90u64, 100];
    for x in 0..90 {
        assert_eq!(cumulative_bucket(&cum, x), 0);
    }
    for x in 90..100 {
        assert_eq!(cumulative_bucket(&cum, x), 1);
    }
    let cum3 = vec![5u64, 5, 12];
    assert_eq!(cumulative_bucket(&cum3, 4), 0);
    assert_eq!(cumulative_bucket(&cum3, 5), 2);
    assert_eq!(cumulative_bucket(&cum3, 11), 2);
}

#[test]
fn mask_sampling_frequency_follows_weights() {
    // Pixels (v, v, v, 255) have luma exactly v: weights 90 and 10.
    let src = buffer_from_pixels(2, 1, &[(90, 90, 90, 255), (10, 10, 10, 255)]);
    assert_eq!(total_gray(&src), 100);
    let mask = GraylevelMask::from(&src);
    let draws = 100_000;
    let mut first: u64 = 0;
    for _ in 0..draws {
        if mask.sample_random_i() == 0 {
            first += 1;
        }
    }
    let share = first as f64 / draws as f64;
    assert!(share > 0.88 && share < 0.92, "observed share {share}");
}

#[test]
fn mask_xy_sampling_stays_on_canvas() {
    let src = uniform(5, 3, (100, 100, 100, 255));
    let mask = GraylevelMask::from(&src);
    assert_eq!(mask.dim(), (5, 3));
    for _ in 0..500 {
        let (x, y) = mask.sample_random_xy();
        assert!(x < 5 && y < 3);
    }
}

#[test]
fn sobel_is_flat_on_uniform_images() {
    let src = uniform(4, 4, (77, 77, 77, 255));
    let edges = sobel(&src);
    assert_eq!((edges.width, edges.height), (4, 4));
    for p in 0..16 {
        assert_eq!(edges.data[4 * p], 0);
        assert_eq!(edges.data[4 * p + 3], 255);
    }
}

#[test]
fn sobel_marks_a_vertical_edge() {
    let src = buffer_from_pixels(
        4,
        1,
        &[(0, 0, 0, 255), (0, 0, 0, 255), (255, 255, 255, 255), (255, 255, 255, 255)],
    );
    let edges = sobel(&src);
    // The two pixels astride the edge carry a strong gradient.
    assert!(edges.data[4] > 200);
    assert!(edges.data[8] > 200);
}

#[test]
fn gaussian_blur_keeps_interior_of_uniform_image() {
    let src = uniform(9, 9, (100, 100, 100, 255));
    let blurred = gaussian_blur(&src);
    assert_eq!((blurred.width, blurred.height), (9, 9));
    // The center pixel sees only uniform samples: the normalized
    // kernel reproduces the value exactly.
    let center = 4 * (4 * 9 + 4);
    assert_eq!(blurred.data[center], 100);
    assert_eq!(blurred.data[center + 1], 100);
    assert_eq!(blurred.data[center + 2], 100);
    assert_eq!(blurred.data[center + 3], 255);
}

#[test]
fn gaussian_blur_darkens_canvas_edges() {
    let src = uniform(9, 9, (200, 200, 200, 255));
    let blurred = gaussian_blur(&src);
    // A corner pixel mixes in out-of-canvas black samples.
    assert!(blurred.data[0] < 200);
}

#[test]
fn render_draws_a_red_square() {
    let svg = "<svg width=\"2\" height=\"2\" xmlns=\"http://www.w3.org/2000/svg\">\
               <rect width=\"2\" height=\"2\" fill=\"#FF0000\"/></svg>";
    let buf = render_svg_into_pixmap(svg, 2, 2).expect("well-formed markup must render");
    assert_eq!((buf.width, buf.height), (2, 2));
    assert_eq!(buf.data[0], 255);
    assert_eq!(buf.data[1], 0);
    assert_eq!(buf.data[2], 0);
    assert_eq!(buf.data[3], 255);
}

#[test]
fn render_rejects_malformed_markup() {
    assert!(render_svg_into_pixmap("<svg", 2, 2).is_none());
}

#[test]
fn composite_puts_opaque_pixels_on_top() {
    let below = uniform(2, 2, (0, 0, 255, 255));
    let above = uniform(2, 2, (255, 0, 0, 255));
    let out = composite_over(&below, &above);
    assert_eq!((out.width, out.height), (2, 2));
    assert_eq!(out.data[0], 255);
    assert_eq!(out.data[2], 0);
}

#[test]
fn composite_keeps_background_under_transparency() {
    let below = uniform(2, 2, (0, 0, 255, 255));
    let above = uniform(2, 2, (0, 0, 0, 0));
    let out = composite_over(&below, &above);
    assert_eq!(out.data[2], 255);
}
