use bezier_rust::glyph::{contour_point_order, glyph_offsets, outline_bounds, OutlinePoint};

fn p(x: i64, y: i64) -> OutlinePoint {
    OutlinePoint { x, y }
}

#[test]
fn bounds_of_an_outline() {
    let pts = vec![p(5, 1), p(-2, 7), p(3, 9), p(0, -4)];
    assert_eq!(outline_bounds(&pts), (-2, 9));
    assert_eq!(outline_bounds(&vec![p(4, 4)]), (4, 4));
}

#[test]
fn contours_are_walked_in_order() {
    assert_eq!(contour_point_order(&vec![2, 4], 5), vec![0, 1, 2, 3, 4]);
    assert_eq!(contour_point_order(&vec![3, 1], 5), vec![0, 1, 2, 3]);
    assert_eq!(contour_point_order(&vec![], 5), Vec::<usize>::new());
    assert_eq!(contour_point_order(&vec![0, 0, 2], 3), vec![0, 1, 2]);
}

#[test]
fn offsets_from_the_top_left_corner() {
    let pts = vec![p(5, 1), p(-2, 7), p(3, 9)];
    assert_eq!(glyph_offsets(&pts, &vec![2]), vec![(7, 8), (0, 2), (5, 0)]);
    assert_eq!(glyph_offsets(&pts, &vec![1]), vec![(7, 8), (0, 2)]);
}
