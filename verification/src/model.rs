//! The diagram model: shapes, nodes, connections, the persisted diagram and
//! the mutable editor state, together with the geometric predicates
//! (rectangle containment, connector-route membership) and the id lookup
//! functions that the renderer and the editor share.

use vstd::prelude::*;

verus! {

/// The closed set of shapes a node can have. The shape decides the default
/// size, the inset of the text area and the outline-drawing algorithm.
#[derive(Debug, Clone, Copy, PartialEq, Eq, Structural)]
pub enum ShapeType {
    Box,
    Diamond,
    Text,
    Frame,
}

/// A single shape on the grid: identity, geometry in world coordinates
/// (column, row), free-form text and a transient selection flag.
#[derive(Debug)]
pub struct Node {
    pub id: usize,
    pub shape: ShapeType,
    pub x: u16,
    pub y: u16,
    pub width: u16,
    pub height: u16,
    pub text: String,
    pub selected: bool,
}

/// The mathematical value of a `Node`: the same fields, with the text as a
/// sequence of characters.
pub struct NodeView {
    pub id: usize,
    pub shape: ShapeType,
    pub x: u16,
    pub y: u16,
    pub width: u16,
    pub height: u16,
    pub text: Seq<char>,
    pub selected: bool,
}

impl View for Node {
    type V = NodeView;

    open spec fn view(&self) -> NodeView {
        NodeView {
            id: self.id,
            shape: self.shape,
            x: self.x,
            y: self.y,
            width: self.width,
            height: self.height,
            text: self.text@,
            selected: self.selected,
        }
    }
}

impl DeepView for Node {
    type V = NodeView;

    open spec fn deep_view(&self) -> NodeView {
        self@
    }
}

impl NodeView {
    /// The half-open rectangle test of `Node::contains`, over unbounded
    /// integers.
    pub open spec fn spec_contains(self, x: int, y: int) -> bool {
        &&& self.x <= x < self.x + self.width
        &&& self.y <= y < self.y + self.height
    }
}

impl Node {
    /// Half-open rectangle test: is `(x, y)` inside this node's bounding box?
    pub fn contains(&self, x: u16, y: u16) -> (r: bool)
        ensures
            r == self@.spec_contains(x as int, y as int),
    {
        x >= self.x && (x as u32) < self.x as u32 + self.width as u32 && y >= self.y
            && (y as u32) < self.y as u32 + self.height as u32
    }

    /// A field-by-field copy whose value is known exactly, unlike the one the
    /// derived `Clone` produces.
    pub fn duplicate(&self) -> (r: Node)
        ensures
            r@ == self@,
    {
        Node {
            id: self.id,
            shape: self.shape,
            x: self.x,
            y: self.y,
            width: self.width,
            height: self.height,
            text: self.text.clone(),
            selected: self.selected,
        }
    }
}

/// The first index of the node carrying `id`, or `-1` when no node does.
pub open spec fn node_index(nodes: Seq<NodeView>, id: usize) -> int
    decreases nodes.len(),
{
    if nodes.len() == 0 {
        -1
    } else if nodes[0].id == id {
        0
    } else {
        let r = node_index(nodes.drop_first(), id);
        if r < 0 {
            -1
        } else {
            r + 1
        }
    }
}

/// The node carrying `id`, if any.
pub open spec fn find_node(nodes: Seq<NodeView>, id: usize) -> Option<NodeView> {
    if node_index(nodes, id) >= 0 {
        Some(nodes[node_index(nodes, id)])
    } else {
        None
    }
}

/// `node_index` points at the first node carrying `id`, and is `-1` exactly
/// when no node carries it.
pub proof fn lemma_node_index(nodes: Seq<NodeView>, id: usize)
    ensures
        node_index(nodes, id) < 0 ==> node_index(nodes, id) == -1 && forall|j: int|
            0 <= j < nodes.len() ==> nodes[j].id != id,
        node_index(nodes, id) >= 0 ==> {
            &&& node_index(nodes, id) < nodes.len()
            &&& nodes[node_index(nodes, id)].id == id
            &&& forall|j: int| 0 <= j < node_index(nodes, id) ==> nodes[j].id != id
        },
    decreases nodes.len(),
{
    if nodes.len() > 0 && nodes[0].id != id {
        lemma_node_index(nodes.drop_first(), id);
        assert forall|j: int| 1 <= j < nodes.len() implies nodes.drop_first()[j - 1] == nodes[j]
        by {}
    }
}

/// Find the first node of a slice carrying `id` and return its index.
fn find_node_in_slice(nodes: &[Node], id: usize) -> (r: Option<usize>)
    ensures
        match r {
            Some(i) => i == node_index(nodes.deep_view(), id) && i < nodes@.len(),
            None => node_index(nodes.deep_view(), id) == -1,
        },
{
    let n = nodes.len();
    for i in 0..n
        invariant
            n == nodes@.len(),
            forall|j: int| 0 <= j < i ==> nodes.deep_view()[j].id != id,
    {
        if nodes[i].id == id {
            proof {
                lemma_node_index_first(nodes.deep_view(), id, i as int);
            }
            return Some(i);
        }
    }
    proof {
        lemma_node_index(nodes.deep_view(), id);
    }
    None
}

/// Find the first node carrying `id` and return its index.
pub fn find_node_position(nodes: &Vec<Node>, id: usize) -> (r: Option<usize>)
    ensures
        match r {
            Some(i) => i == node_index(nodes.deep_view(), id) && i < nodes@.len(),
            None => node_index(nodes.deep_view(), id) == -1,
        },
{
    let n = nodes.len();
    for i in 0..n
        invariant
            n == nodes@.len(),
            forall|j: int| 0 <= j < i ==> nodes.deep_view()[j].id != id,
    {
        if nodes[i].id == id {
            proof {
                lemma_node_index_first(nodes.deep_view(), id, i as int);
            }
            return Some(i);
        }
    }
    proof {
        lemma_node_index(nodes.deep_view(), id);
    }
    None
}

/// When the nodes before `i` do not carry `id` and the node at `i` does,
/// `node_index` is exactly `i`.
pub proof fn lemma_node_index_first(nodes: Seq<NodeView>, id: usize, i: int)
    requires
        0 <= i < nodes.len(),
        nodes[i].id == id,
        forall|j: int| 0 <= j < i ==> nodes[j].id != id,
    ensures
        node_index(nodes, id) == i,
    decreases nodes.len(),
{
    if i > 0 {
        assert forall|j: int| 0 <= j < i - 1 implies nodes.drop_first()[j].id != id by {
            assert(nodes.drop_first()[j] == nodes[j + 1]);
        }
        assert(nodes.drop_first()[i - 1] == nodes[i]);
        lemma_node_index_first(nodes.drop_first(), id, i - 1);
    }
}

/// A connector between two nodes, referenced by id. Each endpoint carries an
/// offset relative to its node's top-left corner, snapped to one of the four
/// mid-edge anchors.
#[derive(Debug)]
pub struct Connection {
    pub from_id: usize,
    pub from_offset: (u16, u16),
    pub to_id: usize,
    pub to_offset: (u16, u16),
    pub has_arrow: bool,
}

/// Is `(mx, my)` on the three-segment orthogonal route from `(x1, y1)` to
/// `(x2, y2)`? A vertical-first route runs through the midpoint row, a
/// horizontal-first route through the midpoint column.
pub open spec fn route_hit(
    x1: int,
    y1: int,
    x2: int,
    y2: int,
    vertical_first: bool,
    mx: int,
    my: int,
) -> bool {
    if vertical_first {
        let mid_y = (y1 + y2) / 2;
        ||| mx == x1 && vstd::math::min(y1, mid_y) <= my <= vstd::math::max(y1, mid_y)
        ||| my == mid_y && vstd::math::min(x1, x2) <= mx <= vstd::math::max(x1, x2)
        ||| mx == x2 && vstd::math::min(mid_y, y2) <= my <= vstd::math::max(mid_y, y2)
    } else {
        let mid_x = (x1 + x2) / 2;
        ||| my == y1 && vstd::math::min(x1, mid_x) <= mx <= vstd::math::max(x1, mid_x)
        ||| mx == mid_x && vstd::math::min(y1, y2) <= my <= vstd::math::max(y1, y2)
        ||| my == y2 && vstd::math::min(mid_x, x2) <= mx <= vstd::math::max(mid_x, x2)
    }
}

/// The smaller of two machine integers.
pub fn umin(a: u32, b: u32) -> (r: u32)
    ensures
        r == vstd::math::min(a as int, b as int),
{
    if a < b {
        a
    } else {
        b
    }
}

/// The larger of two machine integers.
pub fn umax(a: u32, b: u32) -> (r: u32)
    ensures
        r == vstd::math::max(a as int, b as int),
{
    if a < b {
        b
    } else {
        a
    }
}

impl Connection {
    /// A connection is drawn vertical-first when its source anchor sits on the
    /// top or bottom edge of the source node.
    pub open spec fn spec_vertical_first(self, from: NodeView) -> bool {
        self.from_offset.1 == 0 || self.from_offset.1 == from.height - 1
    }

    /// Where `Connection::contains` says yes: both endpoints resolve and the
    /// point lies on the rendered route.
    pub open spec fn spec_contains(self, mx: int, my: int, nodes: Seq<NodeView>) -> bool {
        match (find_node(nodes, self.from_id), find_node(nodes, self.to_id)) {
            (Some(f), Some(t)) => route_hit(
                f.x + self.from_offset.0,
                f.y + self.from_offset.1,
                t.x + self.to_offset.0,
                t.y + self.to_offset.1,
                self.spec_vertical_first(f),
                mx,
                my,
            ),
            _ => false,
        }
    }

    /// Hit test against the rendered orthogonal route of this connection, for
    /// picking with a pointer.
    pub fn contains(&self, mx: u16, my: u16, nodes: &[Node]) -> (r: bool)
        ensures
            r == self.spec_contains(mx as int, my as int, nodes.deep_view()),
    {
        let from = find_node_in_slice(nodes, self.from_id);
        let to = find_node_in_slice(nodes, self.to_id);
        proof {
            lemma_node_index(nodes.deep_view(), self.from_id);
            lemma_node_index(nodes.deep_view(), self.to_id);
        }
        if let (Some(fi), Some(ti)) = (from, to) {
            let f = &nodes[fi];
            let t = &nodes[ti];
            let x1 = f.x as u32 + self.from_offset.0 as u32;
            let y1 = f.y as u32 + self.from_offset.1 as u32;
            let x2 = t.x as u32 + self.to_offset.0 as u32;
            let y2 = t.y as u32 + self.to_offset.1 as u32;
            let mx = mx as u32;
            let my = my as u32;

            let vertical_first = self.from_offset.1 == 0 || (f.height > 0 && self.from_offset.1
                == f.height - 1);

            if vertical_first {
                let mid_y = (y1 + y2) / 2;
                (mx == x1 && my >= umin(y1, mid_y) && my <= umax(y1, mid_y)) || (my == mid_y
                    && mx >= umin(x1, x2) && mx <= umax(x1, x2)) || (mx == x2 && my >= umin(
                    mid_y, y2) && my <= umax(mid_y, y2))
            } else {
                let mid_x = (x1 + x2) / 2;
                (my == y1 && mx >= umin(x1, mid_x) && mx <= umax(x1, mid_x)) || (mx == mid_x
                    && my >= umin(y1, y2) && my <= umax(y1, y2)) || (my == y2 && mx >= umin(
                    mid_x, x2) && mx <= umax(mid_x, x2))
            }
        } else {
            false
        }
    }
}

/// A field-by-field copy of a connection list.
pub fn copy_connections(v: &Vec<Connection>) -> (r: Vec<Connection>)
    ensures
        r@ == v@,
{
    let mut r: Vec<Connection> = Vec::new();
    let m = v.len();
    for i in 0..m
        invariant
            m == v@.len(),
            r@ =~= v@.take(i as int),
    {
        let c = &v[i];
        r.push(
            Connection {
                from_id: c.from_id,
                from_offset: c.from_offset,
                to_id: c.to_id,
                to_offset: c.to_offset,
                has_arrow: c.has_arrow,
            },
        );
        proof {
            assert(r@ =~= v@.take(i + 1));
        }
    }
    proof {
        assert(v@.take(m as int) =~= v@);
    }
    r
}

/// A connector drag in progress: a fixed source anchor and the live pointer
/// position. Transient, never persisted.
pub enum PartialConnection {
    Starting { from_id: usize, from_offset: (u16, u16), current_pos: (u16, u16) },
}

/// The modal state of the editor. Some modes carry the id of the node being
/// edited, or the anchor of an open context menu.
#[derive(Debug, Clone, Copy, PartialEq, Eq, Structural)]
pub enum AppMode {
    Normal,
    Insert(usize),
    Leader,
    Resize(usize),
    Help,
    ContextMenu { x: u16, y: u16, selected_index: usize },
}

/// The persisted shape of a diagram: title, nodes in z-order (back to front)
/// and connections.
#[derive(Debug)]
pub struct Diagram {
    pub title: String,
    pub nodes: Vec<Node>,
    pub connections: Vec<Connection>,
}

/// The mathematical value of a `Diagram`.
pub struct DiagramView {
    pub title: Seq<char>,
    pub nodes: Seq<NodeView>,
    pub connections: Seq<Connection>,
}

impl View for Diagram {
    type V = DiagramView;

    open spec fn view(&self) -> DiagramView {
        DiagramView { title: self.title@, nodes: self.nodes.deep_view(), connections: self.connections@ }
    }
}

/// The whole editor state for one session: the diagram, the camera, the mode
/// and every transient drag or connect field.
pub struct AppState {
    pub title: String,
    pub nodes: Vec<Node>,
    pub connections: Vec<Connection>,
    pub dragging_node_id: Option<usize>,
    pub drag_offset: (u16, u16),
    pub camera_offset: (i32, i32),
    pub partial_connection: Option<PartialConnection>,
    pub selected_connection_index: Option<usize>,
    pub resizing_node_id: Option<usize>,
    pub connection_source_id: Option<usize>,
    pub connection_has_arrow: bool,
    pub mode: AppMode,
}

/// The mathematical value of an `AppState`.
pub struct AppStateView {
    pub title: Seq<char>,
    pub nodes: Seq<NodeView>,
    pub connections: Seq<Connection>,
    pub dragging_node_id: Option<usize>,
    pub drag_offset: (u16, u16),
    pub camera_offset: (i32, i32),
    pub partial_connection: Option<PartialConnection>,
    pub selected_connection_index: Option<usize>,
    pub resizing_node_id: Option<usize>,
    pub connection_source_id: Option<usize>,
    pub connection_has_arrow: bool,
    pub mode: AppMode,
}

impl View for AppState {
    type V = AppStateView;

    open spec fn view(&self) -> AppStateView {
        AppStateView {
            title: self.title@,
            nodes: self.nodes.deep_view(),
            connections: self.connections@,
            dragging_node_id: self.dragging_node_id,
            drag_offset: self.drag_offset,
            camera_offset: self.camera_offset,
            partial_connection: self.partial_connection,
            selected_connection_index: self.selected_connection_index,
            resizing_node_id: self.resizing_node_id,
            connection_source_id: self.connection_source_id,
            connection_has_arrow: self.connection_has_arrow,
            mode: self.mode,
        }
    }
}

impl AppState {
    /// A fresh editor state: the given title, no nodes, no connections, the
    /// camera at the origin and `Normal` mode.
    pub fn new(title: String) -> (r: AppState)
        ensures
            r@.title == title@,
            r@.nodes == Seq::<NodeView>::empty(),
            r@.connections == Seq::<Connection>::empty(),
            r@.dragging_node_id is None,
            r@.drag_offset == (0u16, 0u16),
            r@.camera_offset == (0i32, 0i32),
            r@.partial_connection is None,
            r@.selected_connection_index is None,
            r@.resizing_node_id is None,
            r@.connection_source_id is None,
            !r@.connection_has_arrow,
            r@.mode == AppMode::Normal,
    {
        let r = AppState {
            title,
            nodes: Vec::new(),
            connections: Vec::new(),
            dragging_node_id: None,
            drag_offset: (0, 0),
            camera_offset: (0, 0),
            partial_connection: None,
            selected_connection_index: None,
            resizing_node_id: None,
            connection_source_id: None,
            connection_has_arrow: false,
            mode: AppMode::Normal,
        };
        proof {
            assert(r@.nodes =~= Seq::<NodeView>::empty());
            assert(r@.connections =~= Seq::<Connection>::empty());
        }
        r
    }

    /// Hydrate an editor state from a loaded diagram: its title, nodes and
    /// connections, with every transient field fresh.
    pub fn from_diagram(diagram: Diagram) -> (r: AppState)
        ensures
            r@.title == diagram@.title,
            r@.nodes == diagram@.nodes,
            r@.connections == diagram@.connections,
            r@.dragging_node_id is None,
            r@.drag_offset == (0u16, 0u16),
            r@.camera_offset == (0i32, 0i32),
            r@.partial_connection is None,
            r@.selected_connection_index is None,
            r@.resizing_node_id is None,
            r@.connection_source_id is None,
            !r@.connection_has_arrow,
            r@.mode == AppMode::Normal,
    {
        let mut state = Self::new(diagram.title);
        state.nodes = diagram.nodes;
        state.connections = diagram.connections;
        state
    }

    /// The persisted shape of the current state: title, nodes, connections.
    pub fn to_diagram(&self) -> (r: Diagram)
        ensures
            r@.title == self@.title,
            r@.nodes == self@.nodes,
            r@.connections == self@.connections,
    {
        let mut nodes: Vec<Node> = Vec::new();
        let n = self.nodes.len();
        for i in 0..n
            invariant
                n == self.nodes@.len(),
                nodes@.len() == i,
                forall|j: int| 0 <= j < i ==> #[trigger] nodes@[j]@ == self.nodes@[j]@,
        {
            nodes.push(self.nodes[i].duplicate());
        }
        proof {
            assert forall|j: int| 0 <= j < n implies nodes.deep_view()[j]
                == self.nodes.deep_view()[j] by {
                assert(nodes@[j]@ == self.nodes@[j]@);
            }
            assert(nodes.deep_view() =~= self.nodes.deep_view());
        }
        let connections = copy_connections(&self.connections);
        let r = Diagram { title: self.title.clone(), nodes, connections };
        proof {
            assert(r@.connections =~= self@.connections);
        }
        r
    }
}

} // verus!
