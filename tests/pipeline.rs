use palette::{LinSrgb, Srgb};
use wallpalette::accel::{assign_with_hints, nearest_with_hint, separations};
use wallpalette::color::{distance_sq, hex_string, luma, LinearRgb, Rgb8};
use wallpalette::error::PaletteError;
use wallpalette::extremes::select_extremes;
use wallpalette::kmeans::{
    assign_all, nearest_centroid, quantize, update_centroids, DEFAULT_CONVERGENCE,
    DEFAULT_MAX_ITERATIONS,
};
use wallpalette::pipeline::extract_palette;
use wallpalette::reduce::{reduce_palette, PaletteEntry};
use wallpalette::rng::SeededRng;
use wallpalette::sampler::sample_pixels;
use wallpalette::theme::Context;

fn to_linear(c: &Rgb8) -> LinearRgb {
    let lin: LinSrgb<u16> = Srgb::new(c.r, c.g, c.b).into_linear::<f32>().into_format::<u16>();
    LinearRgb::new(lin.red, lin.green, lin.blue)
}

fn to_stored(c: &LinearRgb) -> Rgb8 {
    let lin: LinSrgb<f32> = LinSrgb::new(c.r, c.g, c.b).into_format::<f32>();
    let s: Srgb<u8> = Srgb::from_linear(lin);
    Rgb8 { r: s.red, g: s.green, b: s.blue }
}

fn rgba(pixels: &[[u8; 4]]) -> Vec<u8> {
    pixels.iter().flat_map(|p| p.iter().copied()).collect()
}

fn linear_samples(buf: &Vec<u8>) -> Vec<LinearRgb> {
    sample_pixels(buf).unwrap().iter().map(to_linear).collect()
}

const BLACK: [u8; 4] = [0, 0, 0, 255];
const WHITE: [u8; 4] = [255, 255, 255, 255];

fn lin(r: u16, g: u16, b: u16) -> LinearRgb {
    LinearRgb::new(r, g, b)
}

#[test]
fn hex_string_is_lowercase_two_digits_per_channel() {
    assert_eq!(hex_string(&Rgb8 { r: 0x12, g: 0xab, b: 0xff }), "#12abff");
    assert_eq!(hex_string(&Rgb8 { r: 0, g: 0, b: 0 }), "#000000");
    assert_eq!(hex_string(&Rgb8 { r: 255, g: 9, b: 160 }), "#ff09a0");
}

#[test]
fn luma_weights_channels() {
    assert_eq!(luma(&lin(0, 0, 0)), 0);
    assert_eq!(luma(&lin(1, 0, 0)), 2126);
    assert_eq!(luma(&lin(0, 1, 0)), 7152);
    assert_eq!(luma(&lin(0, 0, 1)), 722);
    assert_eq!(luma(&lin(65535, 65535, 65535)), 10000 * 65535);
}

#[test]
fn distance_is_squared_euclidean() {
    assert_eq!(distance_sq(&lin(1, 2, 3), &lin(4, 6, 3)), 25);
    assert_eq!(distance_sq(&lin(0, 0, 0), &lin(65535, 65535, 65535)), 3 * 65535 * 65535);
}

#[test]
fn generator_matches_splitmix64() {
    let mut g = SeededRng::new(0);
    assert_eq!(g.next_u64(), 0xe220a8397b1dcdaf);
    assert_eq!(g.next_u64(), 0x6e789e6aa1b965f4);
}

#[test]
fn sampler_keeps_opaque_pixels_in_scan_order() {
    let buf = rgba(&[[1, 2, 3, 255], [4, 5, 6, 254], [7, 8, 9, 0], [10, 11, 12, 255]]);
    let s = sample_pixels(&buf).unwrap();
    assert_eq!(s, vec![Rgb8 { r: 1, g: 2, b: 3 }, Rgb8 { r: 10, g: 11, b: 12 }]);
}

#[test]
fn sampler_fails_on_fully_transparent_image() {
    let buf = rgba(&[[0, 0, 0, 0], [255, 255, 255, 0], [10, 20, 30, 0], [1, 1, 1, 0]]);
    assert_eq!(sample_pixels(&buf), Err(PaletteError::EmptySampleSet));
}

#[test]
fn sampler_fails_on_empty_buffer() {
    assert_eq!(sample_pixels(&Vec::new()), Err(PaletteError::EmptySampleSet));
}

#[test]
fn transparent_image_stops_before_clustering() {
    let buf = rgba(&[[0, 0, 0, 0], [0, 0, 0, 0]]);
    let r = sample_pixels(&buf).map(|s| s.iter().map(to_linear).collect::<Vec<_>>());
    assert_eq!(r, Err(PaletteError::EmptySampleSet));
}

#[test]
fn quantize_rejects_zero_clusters() {
    let s = vec![lin(1, 2, 3)];
    assert_eq!(quantize(&s, 0, 20, 0, 0), Err(PaletteError::InvalidClusterCount));
    assert_eq!(quantize(&Vec::new(), 0, 20, 0, 0), Err(PaletteError::InvalidClusterCount));
}

#[test]
fn quantize_rejects_empty_samples() {
    assert_eq!(quantize(&Vec::new(), 3, 20, 0, 0), Err(PaletteError::EmptySampleSet));
}

#[test]
fn quantize_returns_k_centroids_and_one_assignment_per_sample() {
    let s: Vec<LinearRgb> = (0..50u16).map(|i| lin(i * 1000, 65535 - i * 700, i * 13)).collect();
    for k in [1usize, 3, 7, 64] {
        let c = quantize(&s, k, DEFAULT_MAX_ITERATIONS, DEFAULT_CONVERGENCE, 42).unwrap();
        assert_eq!(c.centroids.len(), k);
        assert_eq!(c.assignments.len(), s.len());
        assert!(c.assignments.iter().all(|&a| a < k));
    }
}

#[test]
fn quantize_is_deterministic() {
    let s: Vec<LinearRgb> = (0..40u16).map(|i| lin(i * 1500, i * 300, 60000 - i * 900)).collect();
    let a = quantize(&s, 5, DEFAULT_MAX_ITERATIONS, DEFAULT_CONVERGENCE, 7).unwrap();
    let b = quantize(&s, 5, DEFAULT_MAX_ITERATIONS, DEFAULT_CONVERGENCE, 7).unwrap();
    assert_eq!(a, b);
}

#[test]
fn quantize_with_zero_iterations_keeps_initial_centroids() {
    let s = vec![lin(0, 0, 0), lin(65535, 65535, 65535)];
    let c = quantize(&s, 2, 0, 0, 0).unwrap();
    // the seed-0 generator picks sample 1, then sample 0
    assert_eq!(c.centroids, vec![lin(65535, 65535, 65535), lin(0, 0, 0)]);
    assert_eq!(c.assignments, vec![1, 0]);
}

#[test]
fn nearest_centroid_prefers_lowest_index_on_ties() {
    let c = vec![lin(10, 0, 0), lin(0, 0, 0), lin(0, 0, 0)];
    assert_eq!(nearest_centroid(&lin(0, 0, 0), &c), 1);
    assert_eq!(nearest_centroid(&lin(5, 0, 0), &c), 0);
}

#[test]
fn empty_cluster_keeps_its_centroid() {
    let s = vec![lin(0, 0, 0), lin(10, 20, 30)];
    let c = vec![lin(0, 0, 0), lin(1000, 1000, 1000), lin(60000, 60000, 60000)];
    let a = assign_all(&s, &c);
    assert_eq!(a, vec![0, 0]);
    let next = update_centroids(&s, &a, &c);
    assert_eq!(next, vec![lin(5, 10, 15), lin(1000, 1000, 1000), lin(60000, 60000, 60000)]);
}

#[test]
fn reduce_sorts_by_population_then_index_and_drops_empty() {
    let c = vec![lin(1, 1, 1), lin(2, 2, 2), lin(3, 3, 3), lin(4, 4, 4)];
    let a = vec![2, 1, 2, 3, 1, 2];
    let e = reduce_palette(&c, &a);
    assert_eq!(
        e,
        vec![
            PaletteEntry { color: lin(3, 3, 3), cluster: 2, count: 3 },
            PaletteEntry { color: lin(2, 2, 2), cluster: 1, count: 2 },
            PaletteEntry { color: lin(4, 4, 4), cluster: 3, count: 1 },
        ]
    );
    let total: usize = e.iter().map(|x| x.count).sum();
    assert_eq!(total, a.len());
    let shares: f64 = e.iter().map(|x| x.count as f64 / a.len() as f64).sum();
    assert!((shares - 1.0).abs() < 1e-9);
}

#[test]
fn reduce_breaks_ties_by_ascending_cluster() {
    let c = vec![lin(1, 1, 1), lin(2, 2, 2), lin(3, 3, 3)];
    let a = vec![2, 0, 2, 0];
    let e = reduce_palette(&c, &a);
    assert_eq!(e.iter().map(|x| x.cluster).collect::<Vec<_>>(), vec![0, 2]);
}

#[test]
fn extremes_of_empty_palette_are_black_and_white() {
    let x = select_extremes(&Vec::new());
    assert_eq!(x.darkest, LinearRgb::black());
    assert_eq!(x.lightest, LinearRgb::white());
}

#[test]
fn extremes_pick_first_on_equal_luma() {
    let e = vec![
        PaletteEntry { color: lin(100, 100, 100), cluster: 0, count: 5 },
        PaletteEntry { color: lin(0, 10, 0), cluster: 3, count: 4 },
        PaletteEntry { color: lin(5000, 5000, 5000), cluster: 1, count: 3 },
        PaletteEntry { color: lin(0, 10, 0), cluster: 2, count: 2 },
        PaletteEntry { color: lin(5000, 5000, 5000), cluster: 4, count: 1 },
    ];
    let x = select_extremes(&e);
    assert_eq!(x.darkest, lin(0, 10, 0));
    assert_eq!(x.lightest, lin(5000, 5000, 5000));
    for p in &e {
        assert!(luma(&x.darkest) <= luma(&p.color) && luma(&p.color) <= luma(&x.lightest));
    }
}

#[test]
fn black_and_white_image_gives_two_even_clusters() {
    let buf = rgba(&[BLACK, BLACK, WHITE, WHITE]);
    let s = linear_samples(&buf);
    let e = extract_palette(&s, 2, DEFAULT_MAX_ITERATIONS, DEFAULT_CONVERGENCE, 0).unwrap();
    assert_eq!(e.len(), 2);
    let mut colors: Vec<LinearRgb> = e.iter().map(|x| x.color).collect();
    colors.sort_by_key(|c| c.r);
    assert_eq!(colors, vec![LinearRgb::black(), LinearRgb::white()]);
    for x in &e {
        assert_eq!(x.count * 2, s.len());
    }
    let x = select_extremes(&e);
    assert_eq!(x.darkest, LinearRgb::black());
    assert_eq!(x.lightest, LinearRgb::white());
    assert_eq!(hex_string(&to_stored(&x.darkest)), "#000000");
    assert_eq!(hex_string(&to_stored(&x.lightest)), "#ffffff");
}

#[test]
fn more_clusters_than_colors_drops_empty_clusters() {
    let red = [200, 10, 10, 255];
    let blue = [10, 10, 200, 255];
    let buf = rgba(&[red, blue, red, blue, red, red, blue, red, red]);
    let s = linear_samples(&buf);
    let e = extract_palette(&s, 16, DEFAULT_MAX_ITERATIONS, DEFAULT_CONVERGENCE, 0).unwrap();
    assert!(e.len() <= 2);
    assert!(!e.is_empty());
    assert!(e.iter().all(|x| x.count > 0));
    assert_eq!(e.iter().map(|x| x.count).sum::<usize>(), s.len());
    for w in e.windows(2) {
        assert!(w[0].count > w[1].count || (w[0].count == w[1].count && w[0].cluster < w[1].cluster));
    }
}

#[test]
fn extract_palette_reports_errors() {
    assert_eq!(
        extract_palette(&vec![lin(1, 1, 1)], 0, 20, 0, 0),
        Err(PaletteError::InvalidClusterCount)
    );
    assert_eq!(extract_palette(&Vec::new(), 4, 20, 0, 0), Err(PaletteError::EmptySampleSet));
}

#[test]
fn stored_to_linear_round_trip_within_one() {
    for v in 0..=255u8 {
        let c = Rgb8 { r: v, g: 255 - v, b: v / 2 };
        let back = to_stored(&to_linear(&c));
        assert!((back.r as i32 - c.r as i32).abs() <= 1);
        assert!((back.g as i32 - c.g as i32).abs() <= 1);
        assert!((back.b as i32 - c.b as i32).abs() <= 1);
    }
}

#[test]
fn default_context_has_black_background_and_white_roles() {
    let c = Context::default();
    assert_eq!(c.background, "#000000");
    assert_eq!(c.foreground, "#ffffff");
    assert_eq!(c.cursor, "#ffffff");
    assert_eq!(c.color0, "#ffffff");
    assert_eq!(c.color15, "#ffffff");
}

#[test]
fn context_with_background_keeps_other_defaults() {
    let c = Context::with_background(String::from("#102030"));
    assert_eq!(c.background, "#102030");
    assert_eq!(c.color7, "#ffffff");
}

#[test]
fn separations_are_nearest_other_centroid_distances() {
    let c = vec![lin(0, 0, 0), lin(3, 4, 0), lin(100, 0, 0)];
    assert_eq!(separations(&c), vec![25, 25, 97 * 97 + 16]);
    assert_eq!(separations(&vec![lin(1, 2, 3)]), vec![u64::MAX]);
}

#[test]
fn hinted_search_agrees_with_full_search() {
    let s: Vec<LinearRgb> =
        (0..60u16).map(|i| lin(i * 1000, (i * 7919) % 65535, 65535 - i * 500)).collect();
    let c = vec![lin(0, 0, 0), lin(30000, 30000, 30000), lin(60000, 1000, 2000), lin(100, 60000, 100)];
    let full = assign_all(&s, &c);
    let stale: Vec<usize> = (0..s.len()).map(|i| i % 4).collect();
    assert_eq!(assign_with_hints(&s, &c, &full), full);
    assert_eq!(assign_with_hints(&s, &c, &stale), full);
    assert_eq!(assign_with_hints(&s, &c, &Vec::new()), full);
}

#[test]
fn hint_is_kept_only_when_it_is_nearest() {
    let c = vec![lin(0, 0, 0), lin(1000, 0, 0)];
    let sep = separations(&c);
    assert_eq!(nearest_with_hint(&lin(10, 0, 0), &c, &sep, 0), 0);
    assert_eq!(nearest_with_hint(&lin(10, 0, 0), &c, &sep, 1), 0);
    assert_eq!(nearest_with_hint(&lin(900, 0, 0), &c, &sep, 0), 1);
    assert_eq!(nearest_with_hint(&lin(500, 0, 0), &c, &sep, 1), 0);
}
