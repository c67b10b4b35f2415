use slam_vision::features::OFast;
use slam_vision::grid::Grid;
use slam_vision::point::Point2;

fn image(rows: usize, cols: usize, f: impl Fn(usize, usize) -> i32) -> Grid<i32> {
    let mut data = vec![];
    for r in 0..rows {
        for c in 0..cols {
            data.push(f(r, c));
        }
    }
    Grid::from_shape_vec(rows, cols, data).unwrap()
}

#[test]
fn bright_spot_is_the_only_feature() {
    let img = image(9, 9, |r, c| if r == 4 && c == 4 { 100 } else { 0 });
    let o_fast = OFast::new(&img);
    let features = o_fast.find_features(Some(1));
    assert_eq!(features.len(), 1);
    assert_eq!(features[0], Point2::new(4, 4));
}

#[test]
fn default_threshold_is_ten() {
    let weak = image(9, 9, |r, c| if r == 4 && c == 4 { 9 } else { 0 });
    assert_eq!(OFast::new(&weak).find_features(None).len(), 0);
    let strong = image(9, 9, |r, c| if r == 4 && c == 4 { 10 } else { 0 });
    assert_eq!(OFast::new(&strong).find_features(None), vec![Point2::new(4, 4)]);
}

#[test]
fn high_threshold_rejects_the_spot() {
    let img = image(9, 9, |r, c| if r == 4 && c == 4 { 100 } else { 0 });
    assert!(OFast::new(&img).find_features(Some(101)).is_empty());
}

#[test]
fn dark_spot_is_a_feature_too() {
    let img = image(9, 9, |r, c| if r == 4 && c == 4 { -50 } else { 20 });
    assert_eq!(OFast::new(&img).find_features(Some(10)), vec![Point2::new(4, 4)]);
}

#[test]
fn test_find_features() {
    let data = vec![
        1, 2, 3, 4, 4, 5, 6, 7, 8, 5, 10, 11, 12, 13, 11, 7, 6, 5, 4, 2, 3, 2, 1, 0, 1,
    ];
    let matrix = Grid::from_shape_vec(5, 5, data).unwrap();
    let o_fast = OFast::new(&matrix);
    let features = o_fast.find_features(Some(1));
    assert_eq!(features.len(), 1);
    assert_eq!(features[0], Point2::new(2, 2));
}

#[test]
fn samples_outside_the_image_count_as_zero() {
    // A spot next to the border: the circle leaves the image.
    let img = image(9, 9, |r, c| if r == 1 && c == 1 { 100 } else { 0 });
    assert_eq!(OFast::new(&img).find_features(Some(1)), vec![Point2::new(1, 1)]);
    // A one-pixel image: all sixteen samples lie outside.
    let one = image(1, 1, |_, _| 50);
    assert_eq!(OFast::new(&one).find_features(Some(10)), vec![Point2::new(0, 0)]);
    // A flat image: inner pixels have no strength, edge pixels tie.
    let flat = image(7, 7, |_, _| 50);
    assert!(OFast::new(&flat).find_features(Some(10)).is_empty());
}

#[test]
fn two_spots_in_row_major_order() {
    let img = image(12, 14, |r, c| {
        if (r == 6 && c == 8) || (r == 4 && c == 5) {
            80
        } else {
            0
        }
    });
    assert_eq!(
        OFast::new(&img).find_features(Some(5)),
        vec![Point2::new(5, 4), Point2::new(8, 6)]
    );
}

#[test]
fn flat_image_has_no_feature() {
    let img = image(10, 10, |_, _| 7);
    assert!(OFast::new(&img).find_features(Some(1)).is_empty());
    assert!(OFast::new(&img).find_features(None).is_empty());
    // With threshold 0 equal pixels count too; only the image's corners,
    // where most of the circle lies outside (zero), win the suppression.
    assert_eq!(
        OFast::new(&img).find_features(Some(0)),
        vec![Point2::new(0, 0), Point2::new(9, 0), Point2::new(0, 9), Point2::new(9, 9)]
    );
}

#[test]
fn nine_darker_circle_pixels_are_no_corner() {
    // Around the centre (3, 3) only nine contiguous circle pixels are darker.
    let dark = [(3, 0), (4, 0), (5, 1), (6, 2), (6, 3), (6, 4), (5, 5), (4, 6), (3, 6)];
    let img = image(7, 7, |r, c| if dark.contains(&(r, c)) { 0 } else { 100 });
    let features = OFast::new(&img).find_features(Some(10));
    assert!(!features.contains(&Point2::new(3, 3)));
    assert_eq!(
        features,
        vec![Point2::new(0, 0), Point2::new(6, 0), Point2::new(0, 6), Point2::new(6, 6)]
    );
}

#[test]
fn twelve_contiguous_pixels_wrap_round_the_circle() {
    // Circle pixels 10 to 15 and 0 to 5 of the centre (3, 3) are darker:
    // twelve in a row once the circle is closed.
    let offsets = [(-3, 0), (-3, 1), (-2, 2), (-1, 3), (0, 3), (1, 3), (2, -2), (1, -3), (0, -3),
        (-1, -3), (-2, -2), (-3, -1)];
    let img = image(7, 7, |r, c| {
        let (dr, dc) = (r as i32 - 3, c as i32 - 3);
        if offsets.contains(&(dr, dc)) { 0 } else { 100 }
    });
    let o_fast = OFast::new(&img);
    assert!(o_fast.find_features(Some(10)).contains(&Point2::new(3, 3)));
}

#[test]
fn grid_rejects_wrong_lengths() {
    assert!(Grid::from_shape_vec(2, 3, vec![1, 2, 3, 4, 5]).is_none());
    let g = Grid::from_shape_vec(2, 3, vec![1, 2, 3, 4, 5, 6]).unwrap();
    assert_eq!(*g.get(1, 2), 6);
    assert_eq!(*g.get(0, 1), 2);
}
