use asciigram::editor::EditorAction;
use asciigram::editor::KeyInput;
use asciigram::editor::MouseInput;
use asciigram::editor::MouseKind;
use asciigram::editor::Viewport;
use asciigram::editor::handle_key;
use asciigram::editor::handle_mouse;
use asciigram::editor::key_allowed;
use asciigram::editor::mouse_allowed;
use asciigram::model::AppMode;
use asciigram::model::AppState;
use asciigram::model::Node;
use asciigram::model::ShapeType;

fn key(state: &mut AppState, k: KeyInput) -> EditorAction {
    assert!(key_allowed(state, k));
    handle_key(state, k)
}

fn node(id: usize, x: u16, y: u16, w: u16, h: u16, selected: bool) -> Node {
    Node {
        id,
        shape: ShapeType::Box,
        x,
        y,
        width: w,
        height: h,
        text: String::new(),
        selected,
    }
}

fn vp() -> Viewport {
    Viewport { x: 1, y: 1, width: 78, height: 22, area_width: 80, area_height: 24 }
}

fn mouse(state: &mut AppState, kind: MouseKind, column: u16, row: u16) {
    let m = MouseInput { kind, column, row };
    assert!(mouse_allowed(state, m, vp()));
    handle_mouse(state, m, vp());
}

#[test]
fn create_box_type_and_commit() {
    let mut s = AppState::new("t".to_string());
    assert_eq!(key(&mut s, KeyInput::Char(' ')), EditorAction::Idle);
    assert!(matches!(s.mode, AppMode::Leader));
    key(&mut s, KeyInput::Char('n'));
    assert_eq!(s.nodes.len(), 1);
    assert_eq!(s.nodes[0].id, 1);
    assert!(matches!(s.nodes[0].shape, ShapeType::Box));
    assert_eq!((s.nodes[0].x, s.nodes[0].y), (10, 10));
    assert_eq!((s.nodes[0].width, s.nodes[0].height), (20, 5));
    assert!(s.nodes[0].selected);
    assert!(matches!(s.mode, AppMode::Insert(1)));
    key(&mut s, KeyInput::Char('H'));
    key(&mut s, KeyInput::Char('i'));
    key(&mut s, KeyInput::Esc);
    assert_eq!(s.nodes[0].text, "Hi");
    assert!(!s.nodes[0].selected);
    assert!(matches!(s.mode, AppMode::Normal));
}

#[test]
fn quit_from_leader() {
    let mut s = AppState::new("t".to_string());
    key(&mut s, KeyInput::Char(' '));
    s.nodes.push(node(7, 0, 0, 10, 4, false));  // unsaved content does not matter
    assert_eq!(key(&mut s, KeyInput::Char('q')), EditorAction::Quit);
}

#[test]
fn quit_from_normal() {
    let mut s = AppState::new("t".to_string());
    assert_eq!(key(&mut s, KeyInput::Char('q')), EditorAction::Quit);
}

#[test]
fn leader_save_and_copy_actions() {
    let mut s = AppState::new("t".to_string());
    key(&mut s, KeyInput::Char(' '));
    assert_eq!(key(&mut s, KeyInput::Char('w')), EditorAction::Save);
    assert!(matches!(s.mode, AppMode::Normal));
    key(&mut s, KeyInput::Char(' '));
    assert_eq!(key(&mut s, KeyInput::Char('c')), EditorAction::CopyText);
    assert!(matches!(s.mode, AppMode::Normal));
}

#[test]
fn keyboard_connection_uses_directional_heuristic() {
    let mut s = AppState::new("t".to_string());
    s.nodes.push(node(1, 0, 0, 10, 4, true));
    s.nodes.push(node(2, 0, 10, 10, 4, false));
    key(&mut s, KeyInput::Char('c'));
    assert_eq!(s.connection_source_id, Some(1));
    key(&mut s, KeyInput::Tab);  // selection moves from node 1 to node 2
    assert!(s.nodes[1].selected);
    key(&mut s, KeyInput::Enter);
    assert_eq!(s.connections.len(), 1);
    let c = &s.connections[0];
    assert_eq!(c.from_id, 1);
    assert_eq!(c.to_id, 2);
    assert_eq!(c.from_offset, (5, 3));
    assert_eq!(c.to_offset, (5, 0));
    assert!(!c.has_arrow);
    assert_eq!(s.connection_source_id, None);
}

#[test]
fn heuristic_target_right() {
    let mut s = AppState::new("t".to_string());
    s.nodes.push(node(1, 0, 0, 10, 4, true));
    s.nodes.push(node(2, 20, 0, 10, 4, false));
    key(&mut s, KeyInput::Char('a'));
    key(&mut s, KeyInput::Tab);
    key(&mut s, KeyInput::Enter);
    let c = &s.connections[0];
    assert_eq!(c.from_offset, (9, 2));
    assert_eq!(c.to_offset, (0, 2));
    assert!(c.has_arrow);
}

#[test]
fn delete_node_cascades_connections() {
    let mut s = AppState::new("t".to_string());
    s.nodes.push(node(1, 0, 0, 10, 4, false));
    s.nodes.push(node(2, 0, 10, 10, 4, true));
    s.nodes.push(node(3, 20, 0, 10, 4, false));
    let conn = |f: usize, t: usize| asciigram::model::Connection {
        from_id: f,
        from_offset: (5, 3),
        to_id: t,
        to_offset: (5, 0),
        has_arrow: false,
    };
    s.connections.push(conn(1, 2));
    s.connections.push(conn(2, 3));
    s.connections.push(conn(1, 3));
    key(&mut s, KeyInput::Delete);
    assert_eq!(s.nodes.len(), 2);
    assert!(s.nodes.iter().all(|n| n.id != 2));
    assert_eq!(s.connections.len(), 1);
    assert_eq!((s.connections[0].from_id, s.connections[0].to_id), (1, 3));
}

#[test]
fn delete_selected_connection_only() {
    let mut s = AppState::new("t".to_string());
    s.nodes.push(node(1, 0, 0, 10, 4, false));
    s.nodes.push(node(2, 0, 10, 10, 4, false));
    s.connections.push(asciigram::model::Connection {
        from_id: 1,
        from_offset: (5, 3),
        to_id: 2,
        to_offset: (5, 0),
        has_arrow: false,
    });
    s.selected_connection_index = Some(0);
    key(&mut s, KeyInput::Backspace);
    assert_eq!(s.connections.len(), 0);
    assert_eq!(s.nodes.len(), 2);
    assert_eq!(s.selected_connection_index, None);
}

#[test]
fn ids_are_max_plus_one() {
    let mut s = AppState::new("t".to_string());
    key(&mut s, KeyInput::Char(' '));
    key(&mut s, KeyInput::Char('n'));
    key(&mut s, KeyInput::Esc);
    key(&mut s, KeyInput::Char(' '));
    key(&mut s, KeyInput::Char('d'));
    key(&mut s, KeyInput::Esc);
    assert_eq!(s.nodes[0].id, 1);
    assert_eq!(s.nodes[1].id, 2);
    // Delete the diamond (id 2), then create again: the fresh id is
    // 1 + max(live ids) = 2.
    key(&mut s, KeyInput::Tab);
    key(&mut s, KeyInput::Tab);
    assert!(s.nodes[1].selected);
    key(&mut s, KeyInput::Delete);
    key(&mut s, KeyInput::Char(' '));
    key(&mut s, KeyInput::Char('t'));
    key(&mut s, KeyInput::Esc);
    assert_eq!(s.nodes[1].id, 2);
    let ids: Vec<usize> = s.nodes.iter().map(|n| n.id).collect();
    let mut dedup = ids.clone();
    dedup.sort();
    dedup.dedup();
    assert_eq!(ids.len(), dedup.len());
}

#[test]
fn resize_clamps_to_minimum() {
    let mut s = AppState::new("t".to_string());
    s.nodes.push(node(1, 0, 0, 5, 2, true));
    key(&mut s, KeyInput::Char('r'));
    assert!(matches!(s.mode, AppMode::Resize(1)));
    for _ in 0..10 {
        key(&mut s, KeyInput::Char('-'));
        assert!(s.nodes[0].width >= 3);
        assert!(s.nodes[0].height >= 1);
    }
    assert_eq!((s.nodes[0].width, s.nodes[0].height), (3, 1));
    key(&mut s, KeyInput::Char('+'));
    assert_eq!((s.nodes[0].width, s.nodes[0].height), (5, 2));
    key(&mut s, KeyInput::Enter);
    assert!(matches!(s.mode, AppMode::Normal));
}

#[test]
fn text_node_auto_fits_on_edit() {
    let mut s = AppState::new("t".to_string());
    key(&mut s, KeyInput::Char(' '));
    key(&mut s, KeyInput::Char('t'));
    key(&mut s, KeyInput::Char('a'));
    key(&mut s, KeyInput::Char('b'));
    assert_eq!((s.nodes[0].width, s.nodes[0].height), (2, 1));
    key(&mut s, KeyInput::Enter);
    key(&mut s, KeyInput::Char('c'));
    assert_eq!((s.nodes[0].width, s.nodes[0].height), (2, 2));
    key(&mut s, KeyInput::Backspace);
    key(&mut s, KeyInput::Backspace);
    assert_eq!((s.nodes[0].width, s.nodes[0].height), (2, 1));
    assert_eq!(s.nodes[0].text, "ab");
}

#[test]
fn arrows_move_selected_node_or_pan_camera() {
    let mut s = AppState::new("t".to_string());
    s.nodes.push(node(1, 5, 5, 10, 4, true));
    key(&mut s, KeyInput::Right);
    key(&mut s, KeyInput::Down);
    key(&mut s, KeyInput::Down);
    assert_eq!((s.nodes[0].x, s.nodes[0].y), (6, 7));
    key(&mut s, KeyInput::Esc);  // clear selection
    key(&mut s, KeyInput::Left);
    key(&mut s, KeyInput::Up);
    assert_eq!(s.camera_offset, (-1, -1));
    key(&mut s, KeyInput::Right);
    key(&mut s, KeyInput::Right);
    assert_eq!(s.camera_offset, (1, -1));
    assert_eq!((s.nodes[0].x, s.nodes[0].y), (6, 7));
}

#[test]
fn move_clamps_at_origin() {
    let mut s = AppState::new("t".to_string());
    s.nodes.push(node(1, 0, 0, 10, 4, true));
    key(&mut s, KeyInput::Left);
    key(&mut s, KeyInput::Up);
    assert_eq!((s.nodes[0].x, s.nodes[0].y), (0, 0));
}

#[test]
fn tab_cycles_and_backtab_cycles_back() {
    let mut s = AppState::new("t".to_string());
    s.nodes.push(node(1, 0, 0, 10, 4, false));
    s.nodes.push(node(2, 0, 10, 10, 4, false));
    s.nodes.push(node(3, 20, 0, 10, 4, false));
    key(&mut s, KeyInput::Tab);
    assert!(s.nodes[0].selected);
    key(&mut s, KeyInput::Tab);
    assert!(s.nodes[1].selected && !s.nodes[0].selected);
    key(&mut s, KeyInput::BackTab);
    assert!(s.nodes[0].selected && !s.nodes[1].selected);
    key(&mut s, KeyInput::BackTab);
    assert!(s.nodes[2].selected);
}

#[test]
fn help_swallows_keys_until_closed() {
    let mut s = AppState::new("t".to_string());
    key(&mut s, KeyInput::Char(' '));
    key(&mut s, KeyInput::Char('h'));
    assert!(matches!(s.mode, AppMode::Help));
    key(&mut s, KeyInput::Char('x'));
    key(&mut s, KeyInput::Tab);
    assert!(matches!(s.mode, AppMode::Help));
    key(&mut s, KeyInput::Enter);
    assert!(matches!(s.mode, AppMode::Normal));
}

#[test]
fn toggle_arrow_on_selected_connection() {
    let mut s = AppState::new("t".to_string());
    s.nodes.push(node(1, 0, 0, 10, 4, false));
    s.nodes.push(node(2, 0, 10, 10, 4, false));
    s.connections.push(asciigram::model::Connection {
        from_id: 1,
        from_offset: (5, 3),
        to_id: 2,
        to_offset: (5, 0),
        has_arrow: false,
    });
    s.selected_connection_index = Some(0);
    key(&mut s, KeyInput::Char('a'));
    assert!(s.connections[0].has_arrow);
    key(&mut s, KeyInput::Char('a'));
    assert!(!s.connections[0].has_arrow);
}

#[test]
fn stale_insert_target_falls_back_to_normal() {
    let mut s = AppState::new("t".to_string());
    s.mode = AppMode::Insert(42);
    key(&mut s, KeyInput::Char('x'));
    assert!(matches!(s.mode, AppMode::Normal));
}

#[test]
fn right_click_opens_context_menu_and_esc_closes() {
    let mut s = AppState::new("t".to_string());
    mouse(&mut s, MouseKind::RightDown, 6, 6);
    assert!(matches!(s.mode, AppMode::ContextMenu { x: 5, y: 5, selected_index: 0 }));
    key(&mut s, KeyInput::Esc);
    assert!(matches!(s.mode, AppMode::Normal));
}

#[test]
fn context_menu_navigation_skips_separators() {
    let mut s = AppState::new("t".to_string());
    mouse(&mut s, MouseKind::RightDown, 6, 6);
    for _ in 0..4 {
        key(&mut s, KeyInput::Down);
    }
    // Rows 0..3 are creates, row 4 is a separator: the highlight jumps to 5.
    match s.mode {
        AppMode::ContextMenu { selected_index, .. } => assert_eq!(selected_index, 5),
        _ => panic!("expected the context menu"),
    }
    key(&mut s, KeyInput::Up);
    match s.mode {
        AppMode::ContextMenu { selected_index, .. } => assert_eq!(selected_index, 3),
        _ => panic!("expected the context menu"),
    }
}

#[test]
fn context_menu_creates_diamond_at_click() {
    let mut s = AppState::new("t".to_string());
    mouse(&mut s, MouseKind::RightDown, 6, 6);
    key(&mut s, KeyInput::Down);
    key(&mut s, KeyInput::Enter);
    assert_eq!(s.nodes.len(), 1);
    assert!(matches!(s.nodes[0].shape, ShapeType::Diamond));
    assert_eq!((s.nodes[0].x, s.nodes[0].y), (5, 5));
    assert!(matches!(s.mode, AppMode::Insert(1)));
}

#[test]
fn mouse_body_click_selects_and_raises() {
    let mut s = AppState::new("t".to_string());
    s.nodes.push(node(1, 2, 2, 8, 4, false));
    s.nodes.push(node(2, 20, 2, 8, 4, false));
    // Click inside node 1's body (world (4, 4) = screen (5, 5)).
    mouse(&mut s, MouseKind::LeftDown, 5, 5);
    assert_eq!(s.dragging_node_id, Some(1));
    // Node 1 moved to the top of the z-order and is the sole selection.
    assert_eq!(s.nodes[1].id, 1);
    assert!(s.nodes[1].selected && !s.nodes[0].selected);
    // Drag to world (10, 8): position follows minus the grab offset.
    mouse(&mut s, MouseKind::LeftDrag, 11, 9);
    assert_eq!((s.nodes[1].x, s.nodes[1].y), (8, 6));
    // Release: click-to-edit enters Insert on the dragged node.
    mouse(&mut s, MouseKind::LeftUp, 11, 9);
    assert!(matches!(s.mode, AppMode::Insert(1)));
    assert_eq!(s.dragging_node_id, None);
}

#[test]
fn mouse_corner_drag_resizes_with_minimum() {
    let mut s = AppState::new("t".to_string());
    s.nodes.push(node(1, 2, 2, 8, 4, false));
    // Bottom-right corner is world (9, 5) = screen (10, 6).
    mouse(&mut s, MouseKind::LeftDown, 10, 6);
    assert_eq!(s.resizing_node_id, Some(1));
    mouse(&mut s, MouseKind::LeftDrag, 15, 10);
    assert_eq!((s.nodes[0].width, s.nodes[0].height), (13, 8));
    mouse(&mut s, MouseKind::LeftDrag, 3, 3);
    assert_eq!((s.nodes[0].width, s.nodes[0].height), (3, 3));
    mouse(&mut s, MouseKind::LeftUp, 3, 3);
    assert_eq!(s.resizing_node_id, None);
}

#[test]
fn mouse_border_drag_commits_arrowed_connection() {
    let mut s = AppState::new("t".to_string());
    s.nodes.push(node(1, 2, 2, 8, 4, false));
    s.nodes.push(node(2, 2, 10, 8, 4, false));
    // Press on node 1's bottom border (world (5, 5) = screen (6, 6)):
    // snaps to the bottom-mid anchor.
    mouse(&mut s, MouseKind::LeftDown, 6, 6);
    assert!(s.partial_connection.is_some());
    mouse(&mut s, MouseKind::LeftDrag, 7, 11);
    // Release over node 2, near its top edge.
    mouse(&mut s, MouseKind::LeftUp, 7, 11);
    assert_eq!(s.connections.len(), 1);
    let c = &s.connections[0];
    assert_eq!(c.from_id, 1);
    assert_eq!(c.to_id, 2);
    assert_eq!(c.from_offset, (4, 3));
    assert_eq!(c.to_offset, (4, 0));
    assert!(c.has_arrow);
    assert!(s.partial_connection.is_none());
}

#[test]
fn mouse_empty_click_selects_topmost_connection() {
    let mut s = AppState::new("t".to_string());
    s.nodes.push(node(1, 2, 2, 5, 3, false));
    s.nodes.push(node(2, 2, 10, 5, 3, false));
    s.connections.push(asciigram::model::Connection {
        from_id: 1,
        from_offset: (2, 2),
        to_id: 2,
        to_offset: (2, 0),
        has_arrow: false,
    });
    // World (4, 7) lies on the vertical route; screen (5, 8).
    mouse(&mut s, MouseKind::LeftDown, 5, 8);
    assert_eq!(s.selected_connection_index, Some(0));
    // A click on truly empty space clears it again.
    mouse(&mut s, MouseKind::LeftDown, 40, 20);
    assert_eq!(s.selected_connection_index, None);
}
