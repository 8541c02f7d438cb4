use asciigram::editor::KeyInput;
use asciigram::editor::MouseInput;
use asciigram::editor::MouseKind;
use asciigram::editor::Viewport;
use asciigram::editor::handle_key;
use asciigram::editor::handle_mouse;
use asciigram::editor::key_allowed;
use asciigram::editor::mouse_allowed;
use asciigram::model::AppMode;
use asciigram::model::AppState;
use asciigram::model::Diagram;
use asciigram::model::Node;
use asciigram::model::ShapeType;
use asciigram::renderer::check_nodes_drawable;

fn vp() -> Viewport {
    Viewport { x: 1, y: 1, width: 78, height: 22, area_width: 80, area_height: 24 }
}

fn node(id: usize, x: u16, y: u16, w: u16, h: u16, selected: bool) -> Node {
    Node {
        id,
        shape: ShapeType::Box,
        x,
        y,
        width: w,
        height: h,
        text: String::new(),
        selected,
    }
}

fn mouse(state: &mut AppState, kind: MouseKind, column: u16, row: u16) {
    let m = MouseInput { kind, column, row };
    assert!(mouse_allowed(state, m, vp()));
    handle_mouse(state, m, vp());
}

fn key(state: &mut AppState, k: KeyInput) {
    assert!(key_allowed(state, k));
    handle_key(state, k);
}

#[test]
fn leader_creates_frame_below_last_node() {
    let mut s = AppState::new("t".to_string());
    s.nodes.push(node(4, 3, 2, 10, 4, false));
    key(&mut s, KeyInput::Char(' '));
    key(&mut s, KeyInput::Char('f'));
    assert_eq!(s.nodes.len(), 2);
    let f = &s.nodes[1];
    assert!(matches!(f.shape, ShapeType::Frame));
    assert_eq!(f.id, 5);
    // Below the last node: same column, two rows of gap.
    assert_eq!((f.x, f.y), (3, 8));
    assert_eq!((f.width, f.height), (30, 10));
}

#[test]
fn esc_clears_pending_connector() {
    let mut s = AppState::new("t".to_string());
    s.nodes.push(node(1, 0, 0, 10, 4, true));
    key(&mut s, KeyInput::Char('c'));
    assert_eq!(s.connection_source_id, Some(1));
    key(&mut s, KeyInput::Esc);
    assert_eq!(s.connection_source_id, None);
    assert!(!s.nodes[0].selected);
    // Enter now commits nothing.
    key(&mut s, KeyInput::Enter);
    assert!(s.connections.is_empty());
}

#[test]
fn connecting_a_node_to_itself_does_nothing() {
    let mut s = AppState::new("t".to_string());
    s.nodes.push(node(1, 0, 0, 10, 4, true));
    key(&mut s, KeyInput::Char('c'));
    key(&mut s, KeyInput::Enter);
    assert!(s.connections.is_empty());
    assert_eq!(s.connection_source_id, Some(1));
}

#[test]
fn menu_hover_moves_highlight_and_click_activates() {
    let mut s = AppState::new("t".to_string());
    mouse(&mut s, MouseKind::RightDown, 4, 4);
    // The menu sits at the click: absolute (4, 4), entries start one row in.
    // Hover over the third entry (menu row 2 = absolute row 7).
    mouse(&mut s, MouseKind::LeftDrag, 6, 7);
    match s.mode {
        AppMode::ContextMenu { selected_index, .. } => assert_eq!(selected_index, 2),
        _ => panic!("expected the context menu"),
    }
    // Click it: a Text node appears at the anchor's world position (3, 3).
    mouse(&mut s, MouseKind::LeftDown, 6, 7);
    assert_eq!(s.nodes.len(), 1);
    assert!(matches!(s.nodes[0].shape, ShapeType::Text));
    assert_eq!((s.nodes[0].x, s.nodes[0].y), (3, 3));
    assert!(matches!(s.mode, AppMode::Insert(1)));
}

#[test]
fn click_outside_menu_cancels_without_side_effects() {
    let mut s = AppState::new("t".to_string());
    s.nodes.push(node(1, 30, 4, 10, 4, true));
    mouse(&mut s, MouseKind::RightDown, 4, 4);
    assert!(matches!(s.mode, AppMode::ContextMenu { .. }));
    // A left click far away only closes the menu.
    mouse(&mut s, MouseKind::LeftDown, 60, 20);
    assert!(matches!(s.mode, AppMode::Normal));
    assert_eq!(s.nodes.len(), 1);
    assert!(s.nodes[0].selected);
}

#[test]
fn menu_delete_removes_topmost_node_under_anchor() {
    let mut s = AppState::new("t".to_string());
    s.nodes.push(node(1, 2, 2, 10, 4, false));
    // Open the menu over the node, walk down to the delete entry (row 7).
    mouse(&mut s, MouseKind::RightDown, 5, 5);
    for _ in 0..6 {
        key(&mut s, KeyInput::Down);
    }
    match s.mode {
        AppMode::ContextMenu { selected_index, .. } => assert_eq!(selected_index, 7),
        _ => panic!("expected the context menu"),
    }
    key(&mut s, KeyInput::Enter);
    assert!(s.nodes.is_empty());
    assert!(matches!(s.mode, AppMode::Normal));
}

#[test]
fn loader_accepts_selected_flags() {
    let mut a = node(1, 0, 0, 10, 4, true);
    a.selected = true;
    let b = node(2, 0, 10, 10, 4, true);
    let d = Diagram { title: "x".to_string(), nodes: vec![a, b], connections: vec![] };
    let s = AppState::from_diagram(d);
    assert!(s.nodes[0].selected && s.nodes[1].selected);
}

#[test]
fn drawable_check_refuses_degenerate_outlined_nodes() {
    let good = vec![node(1, 0, 0, 3, 1, false)];
    assert!(check_nodes_drawable(&good));
    let mut zero = node(2, 0, 0, 0, 1, false);
    zero.shape = ShapeType::Box;
    assert!(!check_nodes_drawable(&vec![zero]));
    let mut text = node(3, 0, 0, 0, 1, false);
    text.shape = ShapeType::Text;
    assert!(check_nodes_drawable(&vec![text]));
}

#[test]
fn key_allowed_refuses_stale_connection_index() {
    let mut s = AppState::new("t".to_string());
    s.selected_connection_index = Some(3);
    assert!(!key_allowed(&s, KeyInput::Delete));
    assert!(!key_allowed(&s, KeyInput::Char('a')));
    assert!(key_allowed(&s, KeyInput::Char('x')));
}

#[test]
fn key_allowed_refuses_id_ceiling() {
    let mut s = AppState::new("t".to_string());
    s.nodes.push(node(usize::MAX, 0, 0, 10, 4, false));
    s.mode = AppMode::Leader;
    assert!(!key_allowed(&s, KeyInput::Char('n')));
    assert!(key_allowed(&s, KeyInput::Esc));
}
