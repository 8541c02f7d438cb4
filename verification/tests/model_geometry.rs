use asciigram::model::AppState;
use asciigram::model::Connection;
use asciigram::model::Node;
use asciigram::model::ShapeType;

fn node(id: usize, x: u16, y: u16, w: u16, h: u16) -> Node {
    Node {
        id,
        shape: ShapeType::Box,
        x,
        y,
        width: w,
        height: h,
        text: String::new(),
        selected: false,
    }
}

#[test]
fn node_contains_is_half_open() {
    let n = node(1, 2, 3, 4, 2);
    assert!(n.contains(2, 3));
    assert!(n.contains(5, 4));
    assert!(!n.contains(6, 3));
    assert!(!n.contains(2, 5));
    assert!(!n.contains(1, 3));
}

#[test]
fn connection_contains_hits_route_cells() {
    // A below B: vertical-first route from (5, 3) to (5, 10).
    let a = node(1, 0, 0, 10, 4);
    let b = node(2, 0, 10, 10, 4);
    let nodes = vec![a, b];
    let conn = Connection {
        from_id: 1,
        from_offset: (5, 3),
        to_id: 2,
        to_offset: (5, 0),
        has_arrow: false,
    };
    // Entire vertical run at column 5.
    for y in 3..=10 {
        assert!(conn.contains(5, y, &nodes), "missed (5, {})", y);
    }
    assert!(!conn.contains(4, 7, &nodes));
    assert!(!conn.contains(5, 11, &nodes));
}

#[test]
fn connection_contains_needs_both_endpoints() {
    let a = node(1, 0, 0, 10, 4);
    let nodes = vec![a];
    let conn = Connection {
        from_id: 1,
        from_offset: (5, 3),
        to_id: 99,
        to_offset: (5, 0),
        has_arrow: false,
    };
    assert!(!conn.contains(5, 3, &nodes));
}

#[test]
fn fresh_state_is_empty_and_normal() {
    let s = AppState::new("My Diagram".to_string());
    assert_eq!(s.title, "My Diagram");
    assert!(s.nodes.is_empty());
    assert!(s.connections.is_empty());
    assert!(matches!(s.mode, asciigram::model::AppMode::Normal));
    assert_eq!(s.camera_offset, (0, 0));
    assert!(s.partial_connection.is_none());
    assert!(s.selected_connection_index.is_none());
}

#[test]
fn diagram_round_trip_keeps_content() {
    let mut s = AppState::new("t".to_string());
    let mut a = node(1, 5, 6, 10, 4);
    a.text = "hello".to_string();
    s.nodes.push(a);
    s.connections.push(Connection {
        from_id: 1,
        from_offset: (5, 3),
        to_id: 1,
        to_offset: (5, 0),
        has_arrow: true,
    });
    let d = s.to_diagram();
    assert_eq!(d.title, "t");
    assert_eq!(d.nodes.len(), 1);
    assert_eq!(d.nodes[0].text, "hello");
    assert_eq!(d.connections.len(), 1);
    assert!(d.connections[0].has_arrow);

    let s2 = AppState::from_diagram(d);
    assert_eq!(s2.title, "t");
    assert_eq!(s2.nodes.len(), 1);
    assert_eq!(s2.nodes[0].x, 5);
    assert_eq!(s2.connections.len(), 1);
    assert!(matches!(s2.mode, asciigram::model::AppMode::Normal));
}
