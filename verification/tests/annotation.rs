use shotori::annotation::{Annotations, Mark, ShapeKind, confirmed_vertices, palette_name};
use shotori::theme::Theme;

type Points = Vec<(i32, i32)>;

fn theme() -> Theme {
    Theme::dark()
}

/// Press, drag and release a valid box-like mark.
fn stroke(a: &mut Annotations<Points>, from: (i32, i32), to: (i32, i32)) {
    assert!(a.begin(true, true, &theme(), vec![from]));
    assert!(a.update_draft(vec![from, to]));
    a.end(true);
}

#[test]
fn highlighter_has_independent_style_and_whole_stroke_history() {
    let mut a: Annotations<Points> = Annotations::new();
    let original_color = a.color(&theme());
    a.toggle(ShapeKind::Highlighter);
    assert_eq!(palette_name(a.color_ix()), "Yellow");
    assert_eq!(a.width_ix(), 1); // 20 px
    a.set_color(4);
    a.set_width(2);
    stroke(&mut a, (10, 30), (60, 30));
    let m = &a.shapes()[0];
    let mark = Mark {
        kind: m.kind,
        number: m.number,
        color: m.color,
        width_ix: m.width_ix,
        geometry: m.geometry.clone(),
    };
    assert_eq!(mark.color & 255, 96);
    assert_eq!(mark.width_ix, 2); // 32 px
    a.toggle(ShapeKind::Pencil);
    assert_eq!(a.color(&theme()), original_color);
    assert_eq!(a.width_ix(), 1); // 3 px
    a.undo();
    assert_eq!(a.shapes().len(), 0);
    a.redo();
    assert_eq!(a.shapes()[0], mark);
    a.toggle(ShapeKind::Highlighter);
    assert_eq!(a.width_ix(), 2);
    assert_eq!(palette_name(a.color_ix()), "Blue");
}

#[test]
fn pencil_records_curve_and_release_as_one_history_entry() {
    let mut a: Annotations<Points> = Annotations::new();
    a.toggle(ShapeKind::Pencil);
    let points = vec![(0, 10), (15, 25), (30, 10), (40, 35)];
    assert!(a.begin(true, true, &theme(), vec![points[0]]));
    for n in 2..=points.len() {
        assert!(a.update_draft(points[..n].to_vec()));
    }
    // a freehand release always commits, whatever its size
    a.end(false);
    assert!(!a.update_draft(vec![(70, 70)]));
    assert_eq!(a.shapes()[0].geometry, points);
    a.undo();
    assert_eq!(a.shapes().len(), 0);
    a.redo();
    assert_eq!(a.shapes()[0].geometry, points);
    assert!(a.begin(true, true, &theme(), vec![points[0]]));
    a.cancel();
    assert_eq!(a.shapes().len(), 1);
}

#[test]
fn rectangle_history_preserves_style_and_new_strokes_clear_redo() {
    let mut a: Annotations<Points> = Annotations::new();
    a.toggle(ShapeKind::Rectangle);
    stroke(&mut a, (10, 10), (30, 40));
    let first_color = a.shapes()[0].color;
    a.set_color(1);
    a.set_width(2);
    stroke(&mut a, (10, 10), (30, 40));
    assert_eq!(a.shapes().len(), 2);
    a.undo();
    assert_eq!(a.shapes()[0].color, first_color);
    a.redo();
    assert_eq!(a.shapes().len(), 2);
    a.undo();
    stroke(&mut a, (10, 10), (30, 40));
    a.redo(); // the new stroke cleared the redo stack
    assert_eq!(a.shapes().len(), 2);
    a.reset();
    assert_eq!(a.shapes().len(), 0);
    assert!(!a.enabled());
}

#[test]
fn outside_click_and_tiny_stroke_do_not_destroy_redo() {
    let mut a: Annotations<Points> = Annotations::new();
    a.toggle(ShapeKind::Rectangle);
    stroke(&mut a, (10, 10), (30, 40));
    a.undo();
    assert!(!a.begin(false, true, &theme(), vec![(200, 20)]));
    a.end(false);
    assert!(a.begin(true, true, &theme(), vec![(10, 10)]));
    a.update_draft(vec![(10, 10), (11, 11)]);
    a.end(false);
    assert_eq!(a.shapes().len(), 0);
    a.redo();
    assert_eq!(a.shapes().len(), 1);
}

#[test]
fn escape_cancels_draft_then_exits_tool_without_losing_marks() {
    let mut a: Annotations<Points> = Annotations::new();
    a.toggle(ShapeKind::Rectangle);
    stroke(&mut a, (10, 10), (30, 40));
    a.begin(true, true, &theme(), vec![(10, 10)]);
    assert!(a.cancel());
    assert!(a.enabled());
    assert_eq!(a.shapes().len(), 1);
    assert!(a.cancel());
    assert!(!a.enabled());
    assert_eq!(a.shapes().len(), 1);
    assert!(!a.cancel());
}

#[test]
fn mixed_shapes_share_history_and_switching_cancels_only_the_draft() {
    let mut a: Annotations<Points> = Annotations::new();
    a.toggle(ShapeKind::Rectangle);
    stroke(&mut a, (10, 10), (30, 40));
    a.begin(true, true, &theme(), vec![(10, 10)]);
    a.toggle(ShapeKind::Ellipse);
    assert_eq!(a.shapes().len(), 1);
    assert!(a.draft().is_none());
    a.set_color(3);
    stroke(&mut a, (10, 10), (30, 40));
    a.undo();
    assert_eq!(a.shapes()[0].kind, ShapeKind::Rectangle);
    a.redo();
    let ellipse = &a.shapes()[1];
    assert_eq!(ellipse.kind, ShapeKind::Ellipse);
    assert_eq!(ellipse.color, a.color(&theme()));
    a.toggle(ShapeKind::Ellipse);
    assert!(!a.enabled());
    assert_eq!(a.shapes().len(), 2);
}

#[test]
fn horizontal_vertical_and_reverse_lines_are_valid_but_tiny_clicks_preserve_redo() {
    let mut a: Annotations<Points> = Annotations::new();
    a.toggle(ShapeKind::Line);
    for (x, y) in [(50, 20), (20, 50), (-10, 20)] {
        stroke(&mut a, (20, 20), (x, y));
    }
    assert_eq!(a.shapes().len(), 3);
    a.undo();
    a.begin(true, true, &theme(), vec![(20, 20)]);
    a.end(false);
    a.redo();
    assert_eq!(a.shapes().len(), 3);
}

#[test]
fn polyline_commits_clicked_nodes_only_and_undoes_as_one_annotation() {
    let mut a: Annotations<Points> = Annotations::new();
    a.toggle(ShapeKind::Polyline);
    let mut nodes: Points = vec![];
    for p in [(10, 10), (40, 40), (10, 70)] {
        nodes.push(p);
        let started = a.begin(true, true, &theme(), nodes.clone());
        assert_eq!(started, nodes.len() == 1);
        a.update_draft(nodes.clone());
        a.end(false);
    }
    // the floating preview segment follows the pointer
    let mut preview = nodes.clone();
    preview.push((60, 80));
    a.update_draft(preview);
    a.end(false); // a toolbar release has no canvas press
    assert!(a.is_drawing_polyline());
    a.finish_polyline(nodes.clone(), true);
    assert_eq!(a.shapes()[0].geometry.len(), 3);
    assert_eq!(a.shapes()[0].geometry[2], (10, 70));
    a.undo();
    assert_eq!(a.shapes().len(), 0);
    a.redo();
    assert_eq!(a.shapes()[0].geometry.len(), 3);
    a.begin(true, true, &theme(), vec![(10, 10)]);
    assert!(a.cancel());
    assert_eq!(a.shapes().len(), 1);
    a.begin(true, true, &theme(), vec![(10, 10)]);
    a.end(false);
    a.finish_polyline(vec![(10, 10)], false);
    assert_eq!(a.shapes().len(), 1);
}

#[test]
fn sequence_history_reuses_undone_numbers_and_reset_starts_at_one() {
    let mut a: Annotations<Points> = Annotations::new();
    a.toggle(ShapeKind::Number);
    for expected in 1..=12 {
        a.begin(true, true, &theme(), vec![(30, 30)]);
        a.end(true);
        assert_eq!(a.shapes().last().unwrap().number, Some(expected));
    }
    a.undo();
    assert_eq!(a.next_number(), 12);
    a.redo();
    assert_eq!(a.next_number(), 13);
    a.undo();
    a.begin(true, true, &theme(), vec![(30, 30)]);
    a.end(true);
    a.redo();
    assert_eq!(a.shapes().len(), 12);
    a.begin(true, true, &theme(), vec![(30, 30)]);
    a.cancel();
    assert_eq!(a.next_number(), 13);
    a.toggle(ShapeKind::Rectangle);
    stroke(&mut a, (10, 10), (30, 40));
    assert_eq!(a.next_number(), 13);
    a.reset();
    assert_eq!(a.next_number(), 1);
}

#[test]
fn number_drag_and_size_stay_inside_selection_and_tiny_regions_do_not_count() {
    let mut a: Annotations<Points> = Annotations::new();
    a.toggle(ShapeKind::Number);
    a.set_number_size(2);
    assert_eq!(a.number_size_ix(), 2);
    a.begin(true, true, &theme(), vec![(-19, 1)]);
    a.end(true);
    assert_eq!(a.width_ix(), 1);
    // a selection too small for a badge does not start one
    assert!(!a.begin(true, false, &theme(), vec![(5, 5)]));
    a.end(true);
    assert_eq!(a.next_number(), 2);
}

#[test]
fn out_of_range_style_choices_are_ignored() {
    let mut a: Annotations<Points> = Annotations::new();
    a.set_color(7);
    a.set_width(3);
    a.set_number_size(3);
    assert_eq!(a.color_ix(), 0);
    assert_eq!(a.width_ix(), 1);
    assert_eq!(a.number_size_ix(), 1);
}

#[test]
fn no_tool_means_no_draft() {
    let mut a: Annotations<Points> = Annotations::new();
    assert!(!a.begin(true, true, &theme(), vec![(1, 1)]));
    assert!(!a.is_pressed());
    a.undo();
    a.redo();
    assert_eq!(a.shapes().len(), 0);
}

#[test]
fn polyline_keeps_confirmed_vertices_only() {
    assert_eq!(confirmed_vertices(vec![(0, 0), (5, 5), (9, 1)]), (vec![(0, 0), (5, 5)], true));
    assert_eq!(confirmed_vertices(vec![(0, 0), (9, 1)]), (vec![(0, 0)], false));
    assert_eq!(confirmed_vertices(Vec::<(i32, i32)>::new()), (vec![], false));
}
