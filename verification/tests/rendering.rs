use asciigram::model::AppState;
use asciigram::model::Connection;
use asciigram::model::Node;
use asciigram::model::PartialConnection;
use asciigram::model::ShapeType;
use asciigram::renderer::Canvas;
use asciigram::renderer::render_to_canvas;

fn node(id: usize, shape: ShapeType, x: u16, y: u16, w: u16, h: u16, text: &str) -> Node {
    Node {
        id,
        shape,
        x,
        y,
        width: w,
        height: h,
        text: text.to_string(),
        selected: false,
    }
}

fn rows(c: &Canvas) -> Vec<String> {
    c.to_string().lines().map(|l| l.to_string()).collect()
}

#[test]
fn canvas_has_exact_dimensions() {
    let c = Canvas::new(7, 3);
    assert_eq!(c.width, 7);
    assert_eq!(c.height, 3);
    let r = rows(&c);
    assert_eq!(r.len(), 3);
    for row in &r {
        assert_eq!(row.chars().count(), 7);
        assert!(row.chars().all(|ch| ch == ' '));
    }
}

#[test]
fn canvas_set_writes_and_drops_out_of_bounds() {
    let mut c = Canvas::new(3, 2);
    c.set(1, 1, 'x');
    c.set(3, 0, 'y');
    c.set(0, 2, 'z');
    assert_eq!(c.to_string(), "   \n x \n");
}

#[test]
fn canvas_to_string_joins_rows_with_newlines() {
    let mut c = Canvas::new(2, 2);
    c.set(0, 0, 'a');
    c.set(1, 1, 'b');
    assert_eq!(c.to_string(), "a \n b\n");
}

#[test]
fn render_empty_box_outline() {
    let mut s = AppState::new("t".to_string());
    s.nodes.push(node(1, ShapeType::Box, 0, 0, 5, 3, ""));
    let c = render_to_canvas(&s, 7, 4);
    assert_eq!(rows(&c), vec!["+---+  ", "|   |  ", "+---+  ", "       "]);
}

#[test]
fn render_box_centers_text() {
    let mut s = AppState::new("t".to_string());
    s.nodes.push(node(1, ShapeType::Box, 0, 0, 6, 3, "hi"));
    let c = render_to_canvas(&s, 6, 3);
    assert_eq!(rows(&c), vec!["+----+", "| hi |", "+----+"]);
}

#[test]
fn render_selected_box_uses_highlight_glyphs() {
    let mut s = AppState::new("t".to_string());
    let mut n = node(1, ShapeType::Box, 0, 0, 4, 3, "");
    n.selected = true;
    s.nodes.push(n);
    let c = render_to_canvas(&s, 4, 3);
    assert_eq!(rows(&c), vec!["#==#", "#  #", "#==#"]);
}

#[test]
fn render_frame_draws_box_outline() {
    let mut s = AppState::new("t".to_string());
    s.nodes.push(node(1, ShapeType::Frame, 1, 0, 4, 3, ""));
    let c = render_to_canvas(&s, 6, 3);
    assert_eq!(rows(&c), vec![" +--+ ", " |  | ", " +--+ "]);
}

#[test]
fn render_text_node_has_no_outline() {
    let mut s = AppState::new("t".to_string());
    s.nodes.push(node(1, ShapeType::Text, 1, 1, 2, 1, "hi"));
    let c = render_to_canvas(&s, 5, 3);
    assert_eq!(rows(&c), vec!["     ", " hi  ", "     "]);
}

#[test]
fn render_diamond_marks_four_points() {
    let mut s = AppState::new("t".to_string());
    s.nodes.push(node(1, ShapeType::Diamond, 0, 0, 7, 5, ""));
    let c = render_to_canvas(&s, 7, 5);
    let r = rows(&c);
    assert_eq!(r[0].chars().nth(3), Some('+'));
    assert_eq!(r[4].chars().nth(3), Some('+'));
    assert_eq!(r[2].chars().nth(0), Some('+'));
    assert_eq!(r[2].chars().nth(6), Some('+'));
}

#[test]
fn render_selected_text_node_shows_brackets() {
    let mut s = AppState::new("t".to_string());
    let mut n = node(1, ShapeType::Text, 1, 0, 2, 1, "hi");
    n.selected = true;
    s.nodes.push(n);
    let c = render_to_canvas(&s, 5, 1);
    assert_eq!(rows(&c), vec!["[hi]"
        .to_string()
        .chars()
        .chain(std::iter::once(' '))
        .collect::<String>()]);
}

#[test]
fn render_diamond_centers_text_on_full_width() {
    let mut s = AppState::new("t".to_string());
    s.nodes.push(node(1, ShapeType::Diamond, 0, 0, 11, 5, "ab"));
    let c = render_to_canvas(&s, 11, 5);
    let r = rows(&c);
    // Wrapped to width 5, centered on the node's full width of 11.
    assert_eq!(&r[2][4..6], "ab");
}

#[test]
fn render_is_deterministic() {
    let mut s = AppState::new("t".to_string());
    s.nodes.push(node(1, ShapeType::Box, 0, 0, 10, 4, "alpha beta"));
    s.nodes.push(node(2, ShapeType::Diamond, 3, 6, 9, 5, "x"));
    s.nodes.push(node(3, ShapeType::Text, 14, 1, 5, 1, "note!"));
    s.connections.push(Connection {
        from_id: 1,
        from_offset: (5, 3),
        to_id: 2,
        to_offset: (4, 0),
        has_arrow: true,
    });
    let a = render_to_canvas(&s, 30, 14).to_string();
    let b = render_to_canvas(&s, 30, 14).to_string();
    assert_eq!(a, b);
    // Two widths side by side without touching the model.
    let wide = render_to_canvas(&s, 79, 14).to_string();
    let again = render_to_canvas(&s, 30, 14).to_string();
    assert_eq!(a, again);
    assert_ne!(a, wide);
}

#[test]
fn render_connection_draws_vertical_route_with_arrow() {
    let mut s = AppState::new("t".to_string());
    s.nodes.push(node(1, ShapeType::Box, 0, 0, 5, 3, ""));
    s.nodes.push(node(2, ShapeType::Box, 0, 6, 5, 3, ""));
    s.connections.push(Connection {
        from_id: 1,
        from_offset: (2, 2),
        to_id: 2,
        to_offset: (2, 0),
        has_arrow: true,
    });
    let c = render_to_canvas(&s, 6, 9);
    let r = rows(&c);
    // Start terminator on the source border, arrowhead just above the
    // target border, vertical glyphs between.
    assert_eq!(r[2].chars().nth(2), Some('o'));
    assert_eq!(r[3].chars().nth(2), Some('|'));
    assert_eq!(r[4].chars().nth(2), Some('|'));
    assert_eq!(r[5].chars().nth(2), Some('v'));
}

#[test]
fn render_unarrowed_connection_has_terminators_at_both_ends() {
    let mut s = AppState::new("t".to_string());
    s.nodes.push(node(1, ShapeType::Box, 0, 0, 5, 3, ""));
    s.nodes.push(node(2, ShapeType::Box, 0, 6, 5, 3, ""));
    s.connections.push(Connection {
        from_id: 1,
        from_offset: (2, 2),
        to_id: 2,
        to_offset: (2, 0),
        has_arrow: false,
    });
    let c = render_to_canvas(&s, 6, 9);
    let r = rows(&c);
    assert_eq!(r[2].chars().nth(2), Some('o'));
    assert_eq!(r[6].chars().nth(2), Some('o'));
}

#[test]
fn render_selected_connection_is_highlighted() {
    let mut s = AppState::new("t".to_string());
    s.nodes.push(node(1, ShapeType::Box, 0, 0, 5, 3, ""));
    s.nodes.push(node(2, ShapeType::Box, 0, 6, 5, 3, ""));
    s.connections.push(Connection {
        from_id: 1,
        from_offset: (2, 2),
        to_id: 2,
        to_offset: (2, 0),
        has_arrow: false,
    });
    s.selected_connection_index = Some(0);
    let c = render_to_canvas(&s, 6, 9);
    let r = rows(&c);
    assert_eq!(r[2].chars().nth(2), Some('@'));
    assert_eq!(r[3].chars().nth(2), Some('#'));
}

#[test]
fn render_partial_connection_on_top() {
    let mut s = AppState::new("t".to_string());
    s.nodes.push(node(1, ShapeType::Box, 0, 0, 5, 3, ""));
    s.partial_connection = Some(PartialConnection::Starting {
        from_id: 1,
        from_offset: (2, 2),
        current_pos: (2, 6),
    });
    let c = render_to_canvas(&s, 6, 8);
    let r = rows(&c);
    assert_eq!(r[2].chars().nth(2), Some('@'));
    assert_eq!(r[3].chars().nth(2), Some('#'));
    assert_eq!(r[6].chars().nth(2), Some('v'));
}

#[test]
fn render_applies_camera_offset_with_clamping() {
    let mut s = AppState::new("t".to_string());
    s.nodes.push(node(1, ShapeType::Box, 4, 4, 5, 3, ""));
    s.camera_offset = (4, 4);
    let c = render_to_canvas(&s, 6, 4);
    assert_eq!(rows(&c)[0], "+---+ ");
    // Panned past the node: it clips to the top-left edge.
    s.camera_offset = (100, 100);
    let c2 = render_to_canvas(&s, 6, 4);
    assert_eq!(rows(&c2)[0], "+---+ ");
}

#[test]
fn later_nodes_draw_on_top() {
    let mut s = AppState::new("t".to_string());
    s.nodes.push(node(1, ShapeType::Box, 0, 0, 5, 3, ""));
    s.nodes.push(node(2, ShapeType::Box, 2, 1, 5, 3, ""));
    let c = render_to_canvas(&s, 8, 5);
    let r = rows(&c);
    // The second box's corner overwrites the first box's edge.
    assert_eq!(r[1].chars().nth(2), Some('+'));
    assert_eq!(r[3].chars().nth(2), Some('+'));
}
