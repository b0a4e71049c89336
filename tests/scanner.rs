use pixel_art_scanner::{safe_abs, Color, ColorUtils, Config, PixelArt, PixelArtError, Raster};

fn black() -> Color {
    Color::rgb(0, 0, 0)
}

fn white() -> Color {
    Color::rgb(255, 255, 255)
}

fn red() -> Color {
    Color::rgb(255, 0, 0)
}

fn exact_config() -> Config {
    Config::new(0, 0, 0, black())
}

/// A raster of `width` by `height` white pixels with the listed pixels painted.
fn raster_with(width: u32, height: u32, painted: &[(u32, u32, Color)]) -> Raster {
    let mut img = Raster::from_pixel(width, height, white());
    for &(x, y, c) in painted {
        img.put_pixel(x, y, c);
    }
    img
}

fn sorted<T: Ord + Clone>(v: &[T]) -> Vec<T> {
    let mut v = v.to_vec();
    v.sort();
    v
}

#[test]
fn safe_abs_never_wraps() {
    assert_eq!(safe_abs(&3, &250), 247);
    assert_eq!(safe_abs(&250, &3), 247);
    assert_eq!(safe_abs(&0, &255), 255);
    assert_eq!(safe_abs(&9, &9), 0);
}

#[test]
fn equality_within_tolerance_per_channel() {
    let a = Color::rgb(10, 20, 30);
    assert!(ColorUtils::equal_with_tolerance(&a, &Color::rgb(12, 18, 30), 2));
    assert!(!ColorUtils::equal_with_tolerance(&a, &Color::rgb(13, 20, 30), 2));
    assert!(!ColorUtils::equal_with_tolerance(&a, &Color::rgb(10, 20, 33), 2));
    // alpha is carried but never compared
    assert!(ColorUtils::equal_with_tolerance(&a, &Color::rgba(10, 20, 30, 0), 0));
    assert!(ColorUtils::equal_with_tolerance(&Color::rgb(0, 0, 0), &Color::rgb(255, 255, 255), 255));
}

#[test]
fn equality_is_symmetric() {
    let colors = [Color::rgb(0, 0, 0), Color::rgb(3, 200, 17), Color::rgb(255, 1, 128), Color::rgb(5, 5, 5)];
    for a in colors.iter() {
        for b in colors.iter() {
            for t in [0u8, 1, 4, 127, 255] {
                assert_eq!(
                    ColorUtils::equal_with_tolerance(a, b, t),
                    ColorUtils::equal_with_tolerance(b, a, t)
                );
            }
        }
    }
}

#[test]
fn zero_tolerance_means_exact_equality() {
    let a = Color::rgb(7, 8, 9);
    assert!(ColorUtils::equal_with_tolerance(&a, &Color::rgb(7, 8, 9), 0));
    assert!(!ColorUtils::equal_with_tolerance(&a, &Color::rgb(7, 8, 10), 0));
    assert!(!ColorUtils::equal_with_tolerance(&a, &Color::rgb(6, 8, 9), 0));
}

#[test]
fn default_config_values() {
    let c = Config::new_default();
    assert_eq!(c.extracting_tolerance, 1);
    assert_eq!(c.searching_similarity_tolerance, 1);
    assert_eq!(c.searching_contrast_tolerance, 1);
    assert_eq!(c.searched_color, Color::rgb(1, 1, 1));
}

#[test]
fn raster_pixels_and_bounds() {
    let img = raster_with(3, 2, &[(2, 1, red())]);
    assert_eq!(img.dimensions(), (3, 2));
    assert_eq!(img.get_pixel(2, 1), red());
    assert_eq!(img.get_pixel(0, 0), white());
    assert_eq!(img.get_pixel_checked(3, 0), None);
    assert_eq!(img.get_pixel_checked(0, 2), None);
    assert_eq!(img.get_pixel_checked(2, 1), Some(red()));
    assert!(Raster::from_pixels(2, 2, vec![white(); 3]).is_none());
    let built = Raster::from_pixels(2, 1, vec![red(), black()]).unwrap();
    assert_eq!(built.get_pixel(1, 0), black());
}

#[test]
fn overlay_copies_at_offset() {
    let mut base = Raster::from_pixel(4, 3, white());
    let top = raster_with(2, 2, &[(0, 0, red()), (1, 1, black())]);
    base.overlay(&top, 1, 1);
    assert_eq!(base.get_pixel(1, 1), red());
    assert_eq!(base.get_pixel(2, 2), black());
    assert_eq!(base.get_pixel(2, 1), white());
    assert_eq!(base.get_pixel(0, 0), white());
}

#[test]
fn two_diagonal_pixels_template() {
    let reference = raster_with(2, 2, &[(0, 0, black()), (1, 1, black())]);
    let art = PixelArt::new(reference, exact_config()).unwrap();
    assert_eq!(art.pixel_coordinates(), &vec![(0, 0), (1, 1)]);
    assert_eq!(art.get_window_size(), (2, 2));
    let expected: Vec<(i64, i64)> = vec![
        (-1, -1),
        (0, -1),
        (1, -1),
        (-1, 0),
        (1, 0),
        (-1, 1),
        (0, 1),
        (2, 0),
        (2, 1),
        (0, 2),
        (1, 2),
        (2, 2),
    ];
    assert_eq!(art.boundary_coordinates().len(), 12);
    assert_eq!(sorted(art.boundary_coordinates()), sorted(&expected));
}

#[test]
fn boundary_and_coordinates_are_disjoint() {
    let reference = raster_with(
        4,
        3,
        &[(0, 0, black()), (1, 0, black()), (1, 1, black()), (3, 2, black())],
    );
    let art = PixelArt::new(reference, exact_config()).unwrap();
    for &(x, y) in art.pixel_coordinates() {
        assert!(!art.boundary_coordinates().contains(&(x as i64, y as i64)));
    }
    let b = sorted(art.boundary_coordinates());
    let mut deduped = b.clone();
    deduped.dedup();
    assert_eq!(b, deduped);
}

#[test]
fn single_pixel_boundary_is_its_eight_neighbors() {
    let reference = raster_with(1, 1, &[(0, 0, black())]);
    let art = PixelArt::new(reference, exact_config()).unwrap();
    let expected: Vec<(i64, i64)> =
        vec![(-1, -1), (0, -1), (1, -1), (-1, 0), (1, 0), (-1, 1), (0, 1), (1, 1)];
    assert_eq!(art.boundary_coordinates().len(), 8);
    assert_eq!(sorted(art.boundary_coordinates()), sorted(&expected));

    let reference = raster_with(5, 4, &[(3, 2, black())]);
    let art = PixelArt::new(reference, exact_config()).unwrap();
    let expected: Vec<(i64, i64)> =
        vec![(2, 1), (3, 1), (4, 1), (2, 2), (4, 2), (2, 3), (3, 3), (4, 3)];
    assert_eq!(sorted(art.boundary_coordinates()), sorted(&expected));
}

#[test]
fn no_matching_pixel_is_an_error() {
    let reference = raster_with(3, 3, &[]);
    let r = PixelArt::new(reference, exact_config());
    assert!(matches!(r, Err(PixelArtError::EmptyCoordinates)));
    assert_eq!(
        PixelArtError::EmptyCoordinates.message(),
        "Failed to extract any coordinates with that specified color"
    );
}

#[test]
fn every_pixel_matching_keeps_all_in_row_major_order() {
    let reference = Raster::from_pixel(3, 2, Color::rgb(1, 2, 1));
    let config = Config::new(1, 0, 0, Color::rgb(1, 1, 1));
    let art = PixelArt::new(reference, config).unwrap();
    assert_eq!(
        art.pixel_coordinates(),
        &vec![(0, 0), (1, 0), (2, 0), (0, 1), (1, 1), (2, 1)]
    );
    assert!(art.boundary_coordinates().iter().all(|&(x, y)| x < 0 || y < 0 || x >= 3 || y >= 2));
}

#[test]
fn extraction_tolerance_is_applied() {
    let reference = raster_with(3, 1, &[(0, 0, Color::rgb(2, 2, 2)), (2, 0, Color::rgb(0, 0, 0))]);
    let config = Config::new(1, 0, 0, Color::rgb(1, 1, 1));
    let art = PixelArt::new(reference, config).unwrap();
    assert_eq!(art.pixel_coordinates(), &vec![(0, 0), (2, 0)]);
    assert_eq!(art.get_window_size(), (3, 1));
}

#[test]
fn construction_is_deterministic() {
    let build = || {
        let reference = raster_with(4, 4, &[(1, 0, black()), (0, 2, black()), (3, 3, black())]);
        PixelArt::new(reference, exact_config()).unwrap()
    };
    let a = build();
    let b = build();
    assert_eq!(a.pixel_coordinates(), b.pixel_coordinates());
    assert_eq!(a.pixel_coordinates(), &vec![(1, 0), (0, 2), (3, 3)]);
    assert_eq!(sorted(a.boundary_coordinates()), sorted(b.boundary_coordinates()));
    assert_eq!(a.get_config(), exact_config());
}

#[test]
fn template_on_its_own_color_is_rejected() {
    let reference = raster_with(1, 1, &[(0, 0, black())]);
    let art = PixelArt::new(reference, exact_config()).unwrap();
    let source = Raster::from_pixel(4, 4, black());
    assert_eq!(art.pixel_art_instance_in_window(1, 1, &source), None);
    assert!(art.search_in_image(&source).is_empty());

    let source = raster_with(4, 4, &[(1, 1, black())]);
    assert_eq!(art.pixel_art_instance_in_window(1, 1, &source), Some(vec![(1, 1)]));
}

#[test]
fn dissimilar_template_pixels_are_rejected() {
    let reference = raster_with(2, 1, &[(0, 0, black()), (1, 0, black())]);
    let config = Config::new(0, 10, 10, black());
    let art = PixelArt::new(reference, config).unwrap();
    let source = raster_with(5, 3, &[(1, 1, black()), (2, 1, red())]);
    assert_eq!(art.pixel_art_instance_in_window(1, 1, &source), None);
    assert!(art.search_in_image(&source).is_empty());

    let source = raster_with(5, 3, &[(1, 1, black()), (2, 1, Color::rgb(10, 0, 5))]);
    assert_eq!(art.pixel_art_instance_in_window(1, 1, &source), Some(vec![(1, 1), (2, 1)]));
}

#[test]
fn two_disjoint_placements_are_both_found() {
    let reference = raster_with(1, 1, &[(0, 0, black())]);
    let art = PixelArt::new(reference, exact_config()).unwrap();
    let source = raster_with(6, 6, &[(1, 1, black()), (3, 3, black())]);
    let found = art.search_in_image(&source);
    assert_eq!(found.len(), 2);
    assert_eq!(sorted(&found), vec![vec![(1, 1)], vec![(3, 3)]]);
}

#[test]
fn overlapping_placements_are_both_found() {
    // template: two pixels with a gap, so that two placements can interleave
    let reference = raster_with(3, 1, &[(0, 0, black()), (2, 0, black())]);
    let art = PixelArt::new(reference, exact_config()).unwrap();
    let source = raster_with(
        5,
        2,
        &[(0, 0, black()), (1, 0, red()), (2, 0, black()), (3, 0, red())],
    );
    let found = art.search_in_image(&source);
    assert_eq!(sorted(&found), vec![vec![(0, 0), (2, 0)], vec![(1, 0), (3, 0)]]);
}

#[test]
fn window_flush_with_far_edge_is_not_tried() {
    let reference = raster_with(1, 1, &[(0, 0, black())]);
    let art = PixelArt::new(reference, exact_config()).unwrap();
    // the only black pixel sits in the last column and row
    let source = raster_with(3, 3, &[(2, 2, black())]);
    assert!(art.search_in_image(&source).is_empty());
    // a source no larger than the window is not searched
    let source = raster_with(1, 1, &[(0, 0, black())]);
    assert!(art.search_in_image(&source).is_empty());
}

#[test]
fn search_row_matches_full_search() {
    let reference = raster_with(1, 1, &[(0, 0, black())]);
    let art = PixelArt::new(reference, exact_config()).unwrap();
    let source = raster_with(5, 5, &[(1, 1, black()), (3, 1, black()), (2, 3, black())]);
    let mut by_rows = Vec::new();
    for y in 0..4 {
        by_rows.extend(art.search_row(&source, y));
    }
    assert_eq!(by_rows, art.search_in_image(&source));
    assert_eq!(by_rows, vec![vec![(1, 1)], vec![(3, 1)], vec![(2, 3)]]);
}
