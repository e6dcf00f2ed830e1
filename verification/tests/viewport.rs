use op::projects::{compute_window, Projects};

fn sample_projects(names: &[&str], selected: usize) -> Projects {
    Projects {
        selected_idx: selected,
        dir_items: Vec::new(),
        filtered_items: names.iter().map(|n| n.to_string()).collect(),
        cli_no_arg: true,
        buffer_rows: 10,
        compound_projects: Vec::new(),
    }
}

#[test]
fn window_shows_everything_when_it_fits() {
    // Five rows in a ten-row window: the whole list, wherever the cursor is.
    for selected in 0..5 {
        assert_eq!(compute_window(5, selected, 10), (0, 5));
    }
    assert_eq!(compute_window(0, 0, 10), (0, 0));
    assert_eq!(compute_window(10, 3, 10), (0, 10));
}

#[test]
fn window_anchors_at_selection() {
    // A hundred rows, cursor at fifty: exactly ten rows with the cursor
    // first.
    assert_eq!(compute_window(100, 50, 10), (50, 60));
    assert_eq!(compute_window(100, 0, 10), (0, 10));
}

#[test]
fn window_pins_to_end() {
    // Cursor near the end: the window pins to the last ten rows.
    assert_eq!(compute_window(100, 95, 10), (90, 100));
    assert_eq!(compute_window(100, 99, 10), (90, 100));
    assert_eq!(compute_window(100, 90, 10), (90, 100));
    // One row earlier the window still starts at the cursor.
    assert_eq!(compute_window(100, 89, 10), (89, 99));
}

#[test]
fn selection_moves_clamp_at_both_ends() {
    let mut p = sample_projects(&["a", "b", "c"], 0);
    p.select_previous();
    assert_eq!(p.selected_idx, 0);
    p.select_next();
    assert_eq!(p.selected_idx, 1);
    p.select_next();
    assert_eq!(p.selected_idx, 2);
    p.select_next();
    assert_eq!(p.selected_idx, 2);
    p.select_previous();
    assert_eq!(p.selected_idx, 1);
    p.select_initial();
    assert_eq!(p.selected_idx, 0);
}

#[test]
fn display_marks_selected_row() {
    let p = sample_projects(&["alpha", "beta"], 1);
    let out = p.display_fmt(0, 2);
    // Rows up to the next-to-last carry a line feed; the cursor row carries
    // the marker.
    assert_eq!(out, "   alpha\n>> beta");
}

#[test]
fn display_without_marker_column() {
    let mut p = sample_projects(&["alpha", "beta"], 0);
    p.cli_no_arg = false;
    let out = p.display_fmt(0, 2);
    assert_eq!(out, "alpha\nbeta");
}

#[test]
fn select_ui_renders_window() {
    let names: Vec<String> = (0..12).map(|i| format!("p{:02}", i)).collect();
    let refs: Vec<&str> = names.iter().map(|s| s.as_str()).collect();
    let p = sample_projects(&refs, 0);
    let out = p.select_ui_fmt();
    // Ten of twelve rows are visible, each followed by a line feed since
    // none is the last row of the whole list.
    let rows: Vec<&str> = out.split('\n').collect();
    assert_eq!(rows.len(), 11);
    assert_eq!(rows[0], ">> p00");
    assert_eq!(rows[9], "   p09");
    assert_eq!(rows[10], "");
}
