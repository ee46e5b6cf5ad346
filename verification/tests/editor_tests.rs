use bezier_rust::editor::{first_hit, Editor};

#[test]
fn new_editor_is_empty_with_markers_shown() {
    let e: Editor<(f32, f32)> = Editor::new();
    assert!(e.points().is_empty());
    assert_eq!(e.selected(), -1);
    assert!(e.show_markers());
    assert!(!e.show_lines());
    assert!(!e.draws_curve());
    assert!(e.line_segments().is_empty());
}

#[test]
fn click_on_empty_space_adds_and_grabs_a_point() {
    let mut e: Editor<(f32, f32)> = Editor::new();
    e.press(-1, (10.0, 20.0));
    assert_eq!(e.points(), &vec![(10.0, 20.0)]);
    assert_eq!(e.selected(), 0);
    e.drag((15.0, 25.0));
    assert_eq!(e.points(), &vec![(15.0, 25.0)]);
    e.release();
    assert_eq!(e.selected(), -1);
    e.drag((99.0, 99.0));
    assert_eq!(e.points(), &vec![(15.0, 25.0)]);
}

#[test]
fn press_on_a_marker_grabs_it_without_adding() {
    let mut e: Editor<i32> = Editor::new();
    e.press(-1, 1);
    e.release();
    e.press(-1, 2);
    e.release();
    e.press(-1, 3);
    e.release();
    e.press(1, 100);
    assert_eq!(e.points(), &vec![1, 2, 3]);
    assert_eq!(e.selected(), 1);
    e.drag(22);
    assert_eq!(e.points(), &vec![1, 22, 3]);
    e.release();
    assert_eq!(e.selected(), -1);
}

#[test]
fn toggles_flip_and_flip_back() {
    let mut e: Editor<i32> = Editor::new();
    e.toggle_markers();
    assert!(!e.show_markers());
    e.toggle_markers();
    assert!(e.show_markers());
    e.toggle_lines();
    assert!(e.show_lines());
    e.toggle_lines();
    assert!(!e.show_lines());
}

#[test]
fn render_requests_are_consumed() {
    let mut e: Editor<i32> = Editor::new();
    assert!(!e.take_render_request());
    e.press(-1, 5);
    assert!(e.take_render_request());
    assert!(!e.take_render_request());
    e.request_render();
    assert!(e.take_render_request());
    e.release();
    assert!(e.take_render_request());
    e.drag(4);
    assert!(e.take_render_request());
}

#[test]
fn clearing_keeps_the_grab_but_drag_stays_in_bounds() {
    let mut e: Editor<i32> = Editor::new();
    e.press(-1, 1);
    e.press(-1, 2);
    assert_eq!(e.selected(), 1);
    e.clear_points();
    assert!(e.points().is_empty());
    assert_eq!(e.selected(), 1);
    e.drag(7);
    assert!(e.points().is_empty());
}

#[test]
fn polygon_sides_and_curve() {
    let mut e: Editor<i32> = Editor::new();
    e.add_point(1);
    e.add_point(2);
    assert!(e.line_segments().is_empty());
    e.toggle_lines();
    assert_eq!(e.line_segments(), vec![(0, 1)]);
    assert!(!e.draws_curve());
    e.add_point(3);
    assert!(e.draws_curve());
    assert_eq!(e.line_segments(), vec![(0, 1), (1, 2)]);
    assert_eq!(e.selected(), -1);
}

#[test]
fn first_hit_finds_the_first_marker() {
    assert_eq!(first_hit(&vec![]), -1);
    assert_eq!(first_hit(&vec![false, false]), -1);
    assert_eq!(first_hit(&vec![false, true, true]), 1);
    assert_eq!(first_hit(&vec![true]), 0);
}
