use theme_art_daemon::color::{has_mid_brightness, is_less_saturated};
use theme_art_daemon::{dominant_colors, select_theme_colors, Rgb};

fn rgb(r: u8, g: u8, b: u8) -> Rgb {
    Rgb { r, g, b }
}

#[test]
fn empty_palette_gives_fallback_colors() {
    let (p, a) = select_theme_colors(&[]);
    assert_eq!(p, rgb(51, 204, 255));
    assert_eq!(a, rgb(0, 255, 153));
}

#[test]
fn most_saturated_mid_bright_colors_are_chosen() {
    // grey (unsaturated), vivid red, muted blue, white (too bright)
    let colors = [rgb(128, 128, 128), rgb(200, 20, 20), rgb(60, 60, 120), rgb(250, 250, 250)];
    let (p, a) = select_theme_colors(&colors);
    assert_eq!(p, rgb(200, 20, 20));
    assert_eq!(a, rgb(60, 60, 120));
}

#[test]
fn equal_saturation_keeps_palette_order() {
    // both have saturation 1/2
    let colors = [rgb(100, 50, 50), rgb(200, 100, 100), rgb(100, 100, 100)];
    let (p, a) = select_theme_colors(&colors);
    assert_eq!(p, rgb(100, 50, 50));
    assert_eq!(a, rgb(200, 100, 100));
}

#[test]
fn single_candidate_takes_first_other_color() {
    let colors = [rgb(0, 0, 0), rgb(200, 20, 20), rgb(255, 255, 255)];
    let (p, a) = select_theme_colors(&colors);
    assert_eq!(p, rgb(200, 20, 20));
    assert_eq!(a, rgb(0, 0, 0));
}

#[test]
fn single_candidate_in_front_takes_second_color() {
    let colors = [rgb(200, 20, 20), rgb(255, 255, 255)];
    let (p, a) = select_theme_colors(&colors);
    assert_eq!(p, rgb(200, 20, 20));
    assert_eq!(a, rgb(255, 255, 255));
}

#[test]
fn no_candidate_takes_first_two_colors() {
    let colors = [rgb(0, 0, 0), rgb(255, 255, 255), rgb(250, 0, 0)];
    let (p, a) = select_theme_colors(&colors);
    assert_eq!(p, rgb(0, 0, 0));
    assert_eq!(a, rgb(255, 255, 255));
}

#[test]
fn one_dark_color_is_both_primary_and_accent() {
    let colors = [rgb(10, 10, 10)];
    let (p, a) = select_theme_colors(&colors);
    assert_eq!(p, rgb(10, 10, 10));
    assert_eq!(a, rgb(10, 10, 10));
}

#[test]
fn repeated_color_is_replaced_by_third() {
    let colors = [rgb(0, 0, 0), rgb(0, 0, 0), rgb(255, 255, 255)];
    let (p, a) = select_theme_colors(&colors);
    assert_eq!(p, rgb(0, 0, 0));
    assert_eq!(a, rgb(255, 255, 255));
}

#[test]
fn distinct_palette_gives_distinct_theme() {
    let colors = [rgb(16, 32, 48), rgb(64, 64, 64), rgb(240, 0, 0), rgb(0, 240, 0)];
    let (p, a) = select_theme_colors(&colors);
    assert_ne!(p, a);
}

#[test]
fn brightness_bounds() {
    assert!(!has_mid_brightness(rgb(38, 0, 0)));
    assert!(has_mid_brightness(rgb(39, 0, 0)));
    assert!(has_mid_brightness(rgb(0, 242, 0)));
    assert!(!has_mid_brightness(rgb(0, 0, 243)));
}

#[test]
fn saturation_comparison() {
    assert!(is_less_saturated(rgb(100, 100, 100), rgb(100, 0, 0)));
    assert!(!is_less_saturated(rgb(100, 0, 0), rgb(100, 100, 100)));
    assert!(is_less_saturated(rgb(0, 0, 0), rgb(10, 5, 5)));
    assert!(!is_less_saturated(rgb(0, 0, 0), rgb(0, 0, 0)));
    assert!(!is_less_saturated(rgb(100, 50, 50), rgb(200, 100, 100)));
}

fn pixels(list: &[(u8, u8, u8, u8)]) -> Vec<u8> {
    let mut v = Vec::new();
    for &(r, g, b, a) in list {
        v.extend_from_slice(&[r, g, b, a]);
    }
    v
}

#[test]
fn histogram_counts_quantized_opaque_pixels() {
    let px = pixels(&[
        (17, 33, 49, 255),
        (20, 40, 60, 200),
        (255, 255, 255, 127),
        (255, 255, 255, 127),
        (255, 255, 255, 127),
        (250, 5, 5, 128),
    ]);
    let colors = dominant_colors(&px);
    assert_eq!(colors, vec![rgb(16, 32, 48), rgb(240, 0, 0)]);
}

#[test]
fn palette_is_ordered_by_popularity_and_truncated() {
    let mut list = Vec::new();
    for i in 0..10u8 {
        for _ in 0..=i {
            list.push((i * 16, 0, 0, 255));
        }
    }
    let colors = dominant_colors(&pixels(&list));
    let expected: Vec<Rgb> = (2..10u8).rev().map(|i| rgb(i * 16, 0, 0)).collect();
    assert_eq!(colors, expected);
}

#[test]
fn equally_frequent_bins_keep_first_appearance_order() {
    let px = pixels(&[(0, 0, 200, 255), (0, 200, 0, 255), (200, 0, 0, 255), (200, 0, 0, 255)]);
    let colors = dominant_colors(&px);
    assert_eq!(colors, vec![rgb(192, 0, 0), rgb(0, 0, 192), rgb(0, 192, 0)]);
}

#[test]
fn transparent_image_has_empty_palette() {
    let px = pixels(&[(10, 10, 10, 0), (200, 200, 200, 100)]);
    assert!(dominant_colors(&px).is_empty());
}

#[test]
fn trailing_partial_pixel_is_ignored() {
    let mut px = pixels(&[(32, 32, 32, 255)]);
    px.extend_from_slice(&[200, 200, 200]);
    assert_eq!(dominant_colors(&px), vec![rgb(32, 32, 32)]);
}

#[test]
fn one_mid_bright_color_is_both_primary_and_accent() {
    let colors = [rgb(128, 0, 0)];
    assert_eq!(select_theme_colors(&colors), (rgb(128, 0, 0), rgb(128, 0, 0)));
}
