//! The interaction state machine: every keyboard and mouse event is applied
//! to the editor state here, as a pure transition from state and event to
//! next state plus an action for the surrounding shell (quit, save, copy).
//! The shell performs terminal I/O and feeds events back in; no decision
//! lives outside this module.

use vstd::prelude::*;

use crate::chars::pop_char;
use crate::chars::push_char;
use crate::chars::str_chars;
use crate::model::AppMode;
use crate::model::AppState;
use crate::model::AppStateView;
use crate::model::Connection;
use crate::model::Node;
use crate::model::NodeView;
use crate::model::PartialConnection;
use crate::model::ShapeType;
use crate::model::node_index;
use crate::text::split_chars;
use crate::text::split_on;
use crate::text::views_of;

verus! {

/// One key press, as the state machine sees it.
#[derive(Debug, Clone, Copy, PartialEq, Eq, Structural)]
pub enum KeyInput {
    Char(char),
    Esc,
    Enter,
    Tab,
    BackTab,
    Backspace,
    Delete,
    Up,
    Down,
    Left,
    Right,
}

/// What kind of mouse event arrived. Only the left button's down, drag and
/// up and the right button's down drive the editor.
#[derive(Debug, Clone, Copy, PartialEq, Eq, Structural)]
pub enum MouseKind {
    LeftDown,
    LeftDrag,
    LeftUp,
    RightDown,
}

/// One mouse event, at an absolute terminal cell.
#[derive(Debug, Clone, Copy, PartialEq, Eq, Structural)]
pub struct MouseInput {
    pub kind: MouseKind,
    pub column: u16,
    pub row: u16,
}

/// Where the drawing area sits on the terminal: its top-left corner, its
/// size, and the full terminal size (used to keep the context menu on
/// screen).
#[derive(Debug, Clone, Copy, PartialEq, Eq, Structural)]
pub struct Viewport {
    pub x: u16,
    pub y: u16,
    pub width: u16,
    pub height: u16,
    pub area_width: u16,
    pub area_height: u16,
}

/// What the shell must do after an event: nothing, quit the session, write
/// the diagram and its rendering to disk, or copy the rendering to the
/// clipboard.
#[derive(Debug, Clone, Copy, PartialEq, Eq, Structural)]
pub enum EditorAction {
    Idle,
    Quit,
    Save,
    CopyText,
}

/// The largest node id in use, `0` when there are none.
pub open spec fn max_id(nodes: Seq<NodeView>) -> int
    decreases nodes.len(),
{
    if nodes.len() == 0 {
        0
    } else {
        vstd::math::max(max_id(nodes.drop_last()), nodes.last().id as int)
    }
}

/// The id a freshly created node receives: one more than the largest id in
/// use, so `1` for an empty diagram.
pub open spec fn next_id(nodes: Seq<NodeView>) -> int {
    max_id(nodes) + 1
}

/// Every live id is below the next fresh id: a freshly created node can
/// never collide with a live node.
pub proof fn lemma_next_id_fresh(nodes: Seq<NodeView>)
    ensures
        forall|i: int| 0 <= i < nodes.len() ==> #[trigger] nodes[i].id < next_id(nodes),
    decreases nodes.len(),
{
    if nodes.len() > 0 {
        lemma_next_id_fresh(nodes.drop_last());
        assert forall|i: int| 0 <= i < nodes.len() implies #[trigger] nodes[i].id < next_id(nodes)
        by {
            if i < nodes.len() - 1 {
                assert(nodes.drop_last()[i] == nodes[i]);
                assert(nodes[i].id < next_id(nodes.drop_last()));
            }
        }
    }
}

/// No two live nodes share an id.
pub open spec fn ids_unique(nodes: Seq<NodeView>) -> bool {
    forall|i: int, j: int|
        0 <= i < j < nodes.len() ==> (#[trigger] nodes[i].id) != (#[trigger] nodes[j].id)
}

/// Appending a node with the fresh id keeps ids unique.
pub proof fn lemma_create_keeps_ids_unique(nodes: Seq<NodeView>, node: NodeView)
    requires
        ids_unique(nodes),
        node.id == next_id(nodes),
    ensures
        ids_unique(nodes.push(node)),
{
    lemma_next_id_fresh(nodes);
    assert forall|i: int, j: int|
        0 <= i < j < nodes.push(node).len() implies (#[trigger] nodes.push(node)[i].id) != (
    #[trigger] nodes.push(node)[j].id) by {
        if j == nodes.len() {
            assert(nodes.push(node)[i] == nodes[i]);
        } else {
            assert(nodes.push(node)[i] == nodes[i]);
            assert(nodes.push(node)[j] == nodes[j]);
        }
    }
}

/// Removing a node keeps ids unique.
pub proof fn lemma_remove_keeps_ids_unique(nodes: Seq<NodeView>, at: int)
    requires
        ids_unique(nodes),
        0 <= at < nodes.len(),
    ensures
        ids_unique(nodes.remove(at)),
{
    assert forall|i: int, j: int|
        0 <= i < j < nodes.remove(at).len() implies (#[trigger] nodes.remove(at)[i].id) != (
    #[trigger] nodes.remove(at)[j].id) by {
        let i0 = if i < at {
            i
        } else {
            i + 1
        };
        let j0 = if j < at {
            j
        } else {
            j + 1
        };
        assert(nodes.remove(at)[i] == nodes[i0]);
        assert(nodes.remove(at)[j] == nodes[j0]);
    }
}

/// All nodes with their selection flag cleared.
pub open spec fn clear_selected(nodes: Seq<NodeView>) -> Seq<NodeView> {
    Seq::new(nodes.len(), |i: int| NodeView { selected: false, ..nodes[i] })
}

/// Exactly the node at `idx` selected, every other deselected.
pub open spec fn select_exactly(nodes: Seq<NodeView>, idx: int) -> Seq<NodeView> {
    Seq::new(nodes.len(), |i: int| NodeView { selected: i == idx, ..nodes[i] })
}

/// Every node not carrying `id` deselected; nodes carrying it are left as
/// they are.
pub open spec fn deselect_others(nodes: Seq<NodeView>, id: usize) -> Seq<NodeView> {
    Seq::new(
        nodes.len(),
        |i: int|
            if nodes[i].id != id {
                NodeView { selected: false, ..nodes[i] }
            } else {
                nodes[i]
            },
    )
}

/// The first index of a selected node, or `-1` when none is selected.
pub open spec fn selected_index(nodes: Seq<NodeView>) -> int
    decreases nodes.len(),
{
    if nodes.len() == 0 {
        -1
    } else if nodes[0].selected {
        0
    } else {
        let r = selected_index(nodes.drop_first());
        if r < 0 {
            -1
        } else {
            r + 1
        }
    }
}

/// `selected_index` points at the first selected node, and is `-1` exactly
/// when none is selected.
pub proof fn lemma_selected_index(nodes: Seq<NodeView>)
    ensures
        selected_index(nodes) < 0 ==> selected_index(nodes) == -1 && forall|j: int|
            0 <= j < nodes.len() ==> !nodes[j].selected,
        selected_index(nodes) >= 0 ==> {
            &&& selected_index(nodes) < nodes.len()
            &&& nodes[selected_index(nodes)].selected
            &&& forall|j: int| 0 <= j < selected_index(nodes) ==> !nodes[j].selected
        },
    decreases nodes.len(),
{
    if nodes.len() > 0 && !nodes[0].selected {
        lemma_selected_index(nodes.drop_first());
        assert forall|j: int| 1 <= j < nodes.len() implies nodes.drop_first()[j - 1] == nodes[j]
        by {}
    }
}

/// The connections that survive deleting the node with `id`: exactly those
/// that reference it at neither end, in order.
pub open spec fn remove_connections_of(conns: Seq<Connection>, id: usize) -> Seq<Connection> {
    conns.filter(|c: Connection| c.from_id != id && c.to_id != id)
}

/// Deleting a node's connections removes every connection that references
/// the node at either end, and no others: every survivor references other
/// nodes only, and every connection that referenced other nodes only is
/// still there, in its old order.
pub proof fn lemma_remove_connections_of(conns: Seq<Connection>, id: usize)
    ensures
        forall|j: int|
            0 <= j < remove_connections_of(conns, id).len() ==> (#[trigger] remove_connections_of(
                conns,
                id,
            )[j].from_id) != id && remove_connections_of(conns, id)[j].to_id != id,
        forall|j: int|
            0 <= j < conns.len() && (#[trigger] conns[j].from_id) != id && conns[j].to_id != id
                ==> remove_connections_of(conns, id).contains(conns[j]),
    decreases conns.len(),
{
    reveal(Seq::filter);
    let pred = |c: Connection| c.from_id != id && c.to_id != id;
    if conns.len() > 0 {
        lemma_remove_connections_of(conns.drop_last(), id);
        let prev = remove_connections_of(conns.drop_last(), id);
        assert forall|j: int|
            0 <= j < conns.len() && (#[trigger] conns[j].from_id) != id && conns[j].to_id != id
                implies remove_connections_of(conns, id).contains(conns[j]) by {
            if j < conns.len() - 1 {
                assert(conns.drop_last()[j] == conns[j]);
                assert(prev.contains(conns[j]));
                let k = choose|k: int| 0 <= k < prev.len() && prev[k] == conns[j];
                if pred(conns.last()) {
                    assert(remove_connections_of(conns, id)[k] == conns[j]);
                } else {
                    assert(remove_connections_of(conns, id)[k] == conns[j]);
                }
            } else {
                assert(pred(conns.last()));
                assert(remove_connections_of(conns, id).last() == conns[j]);
            }
        }
    }
}

/// The topmost node under `(x, y)`: the last hit in z-order, `-1` when
/// none.
pub open spec fn top_hit(nodes: Seq<NodeView>, x: int, y: int) -> int
    decreases nodes.len(),
{
    if nodes.len() == 0 {
        -1
    } else if nodes.last().spec_contains(x, y) {
        nodes.len() - 1
    } else {
        top_hit(nodes.drop_last(), x, y)
    }
}

/// `top_hit` points at the last node under the point, and is `-1` exactly
/// when no node is under it.
pub proof fn lemma_top_hit(nodes: Seq<NodeView>, x: int, y: int)
    ensures
        top_hit(nodes, x, y) < 0 ==> top_hit(nodes, x, y) == -1 && forall|j: int|
            0 <= j < nodes.len() ==> !(#[trigger] nodes[j].spec_contains(x, y)),
        top_hit(nodes, x, y) >= 0 ==> {
            &&& top_hit(nodes, x, y) < nodes.len()
            &&& nodes[top_hit(nodes, x, y)].spec_contains(x, y)
            &&& forall|j: int|
                top_hit(nodes, x, y) < j < nodes.len() ==> !(#[trigger] nodes[j].spec_contains(
                    x,
                    y,
                ))
        },
    decreases nodes.len(),
{
    if nodes.len() > 0 && !nodes.last().spec_contains(x, y) {
        lemma_top_hit(nodes.drop_last(), x, y);
        assert forall|j: int| 0 <= j < nodes.len() - 1 implies nodes.drop_last()[j] == nodes[j]
        by {}
    }
}

/// The bottom-most node under `(x, y)`: the first hit in list order, `-1`
/// when none.
pub open spec fn bottom_hit(nodes: Seq<NodeView>, x: int, y: int) -> int
    decreases nodes.len(),
{
    if nodes.len() == 0 {
        -1
    } else if nodes[0].spec_contains(x, y) {
        0
    } else {
        let r = bottom_hit(nodes.drop_first(), x, y);
        if r < 0 {
            -1
        } else {
            r + 1
        }
    }
}

/// `bottom_hit` points at the first node under the point, and is `-1`
/// exactly when no node is under it.
pub proof fn lemma_bottom_hit(nodes: Seq<NodeView>, x: int, y: int)
    ensures
        bottom_hit(nodes, x, y) < 0 ==> bottom_hit(nodes, x, y) == -1 && forall|j: int|
            0 <= j < nodes.len() ==> !(#[trigger] nodes[j].spec_contains(x, y)),
        bottom_hit(nodes, x, y) >= 0 ==> {
            &&& bottom_hit(nodes, x, y) < nodes.len()
            &&& nodes[bottom_hit(nodes, x, y)].spec_contains(x, y)
            &&& forall|j: int|
                0 <= j < bottom_hit(nodes, x, y) ==> !(#[trigger] nodes[j].spec_contains(x, y))
        },
    decreases nodes.len(),
{
    if nodes.len() > 0 && !nodes[0].spec_contains(x, y) {
        lemma_bottom_hit(nodes.drop_first(), x, y);
        assert forall|j: int| 1 <= j < nodes.len() implies nodes.drop_first()[j - 1] == nodes[j]
        by {}
    }
}

/// The topmost connection whose rendered route passes through `(x, y)`:
/// the last such in list order, `-1` when none.
pub open spec fn top_conn_hit(
    conns: Seq<Connection>,
    x: int,
    y: int,
    nodes: Seq<NodeView>,
) -> int
    decreases conns.len(),
{
    if conns.len() == 0 {
        -1
    } else if conns.last().spec_contains(x, y, nodes) {
        conns.len() - 1
    } else {
        top_conn_hit(conns.drop_last(), x, y, nodes)
    }
}

/// `top_conn_hit` points at the last connection through the point, and is
/// `-1` exactly when none passes through it.
pub proof fn lemma_top_conn_hit(conns: Seq<Connection>, x: int, y: int, nodes: Seq<NodeView>)
    ensures
        top_conn_hit(conns, x, y, nodes) < 0 ==> top_conn_hit(conns, x, y, nodes) == -1 && forall|
            j: int,
        | 0 <= j < conns.len() ==> !(#[trigger] conns[j].spec_contains(x, y, nodes)),
        top_conn_hit(conns, x, y, nodes) >= 0 ==> {
            &&& top_conn_hit(conns, x, y, nodes) < conns.len()
            &&& conns[top_conn_hit(conns, x, y, nodes)].spec_contains(x, y, nodes)
            &&& forall|j: int|
                top_conn_hit(conns, x, y, nodes) < j < conns.len() ==> !(
                #[trigger] conns[j].spec_contains(x, y, nodes))
        },
    decreases conns.len(),
{
    if conns.len() > 0 && !conns.last().spec_contains(x, y, nodes) {
        lemma_top_conn_hit(conns.drop_last(), x, y, nodes);
        assert forall|j: int| 0 <= j < conns.len() - 1 implies conns.drop_last()[j] == conns[j]
        by {}
    }
}

/// The longest line of a paragraph list.
pub open spec fn max_line_len(lines: Seq<Seq<char>>) -> int
    decreases lines.len(),
{
    if lines.len() == 0 {
        0
    } else {
        vstd::math::max(max_line_len(lines.drop_last()), lines.last().len() as int)
    }
}

/// A text node refitted to its text: width the longest line, height the
/// line count.
pub open spec fn fitted(n: NodeView) -> NodeView {
    let lines = split_on(n.text, '\n');
    NodeView { width: max_line_len(lines) as u16, height: lines.len() as u16, ..n }
}

/// Refit a text node to its text: width becomes the longest line, height
/// the line count.
fn auto_fit(n: &mut Node)
    requires
        old(n)@.text.len() <= 0xfffe,
    ensures
        final(n)@ == fitted(old(n)@),
{
    let chars = str_chars(n.text.as_str());
    let lines = split_chars(&chars, '\n');
    let ghost lv = split_on(n@.text, '\n');
    proof {
        crate::text::lemma_split_on_bounds(n@.text, '\n');
        assert(lv.take(0) =~= Seq::<Seq<char>>::empty());
    }
    let mut maxw: usize = 0;
    let nl = lines.len();
    for i in 0..nl
        invariant
            nl == lines@.len(),
            views_of(lines@) == lv,
            maxw == max_line_len(lv.take(i as int)),
            maxw <= 0xfffe,
            forall|j: int| 0 <= j < lv.len() ==> #[trigger] lv[j].len() <= 0xfffe,
    {
        proof {
            assert(views_of(lines@)[i as int] == lines@[i as int]@);
            assert(lv.take(i + 1).drop_last() =~= lv.take(i as int));
            assert(lv.take(i + 1).last() == lv[i as int]);
        }
        if lines[i].len() > maxw {
            maxw = lines[i].len();
        }
    }
    proof {
        assert(lv.take(nl as int) =~= lv);
    }
    n.width = maxw as u16;
    n.height = nl as u16;
}

/// Set every node's selection flag to `false`.
fn unselect_all(nodes: &mut Vec<Node>)
    ensures
        final(nodes).deep_view() == clear_selected(old(nodes).deep_view()),
{
    let n = nodes.len();
    for i in 0..n
        invariant
            n == nodes@.len(),
            nodes@.len() == old(nodes)@.len(),
            forall|j: int|
                i <= j < n ==> #[trigger] nodes@[j]@ == old(nodes)@[j]@,
            forall|j: int|
                0 <= j < i ==> #[trigger] nodes@[j]@ == (NodeView {
                    selected: false,
                    ..old(nodes)@[j]@
                }),
    {
        let mut nd = nodes[i].duplicate();
        nd.selected = false;
        nodes[i] = nd;
    }
    proof {
        assert(final(nodes).deep_view() =~= clear_selected(old(nodes).deep_view()));
    }
}

/// Select exactly the node at `idx`, deselecting every other.
fn select_only(nodes: &mut Vec<Node>, idx: usize)
    ensures
        final(nodes).deep_view() == select_exactly(old(nodes).deep_view(), idx as int),
{
    let n = nodes.len();
    for i in 0..n
        invariant
            n == nodes@.len(),
            nodes@.len() == old(nodes)@.len(),
            forall|j: int|
                i <= j < n ==> #[trigger] nodes@[j]@ == old(nodes)@[j]@,
            forall|j: int|
                0 <= j < i ==> #[trigger] nodes@[j]@ == (NodeView {
                    selected: j == idx as int,
                    ..old(nodes)@[j]@
                }),
    {
        let mut nd = nodes[i].duplicate();
        nd.selected = i == idx;
        nodes[i] = nd;
    }
    proof {
        assert(final(nodes).deep_view() =~= select_exactly(old(nodes).deep_view(), idx as int));
    }
}

/// Deselect every node that does not carry `id`.
fn unselect_others(nodes: &mut Vec<Node>, id: usize)
    ensures
        final(nodes).deep_view() == deselect_others(old(nodes).deep_view(), id),
{
    let n = nodes.len();
    for i in 0..n
        invariant
            n == nodes@.len(),
            nodes@.len() == old(nodes)@.len(),
            forall|j: int|
                i <= j < n ==> #[trigger] nodes@[j]@ == old(nodes)@[j]@,
            forall|j: int|
                0 <= j < i ==> #[trigger] nodes@[j]@ == (if old(nodes)@[j]@.id != id {
                    NodeView { selected: false, ..old(nodes)@[j]@ }
                } else {
                    old(nodes)@[j]@
                }),
    {
        if nodes[i].id != id {
            let mut nd = nodes[i].duplicate();
            nd.selected = false;
            nodes[i] = nd;
        }
    }
    proof {
        assert(final(nodes).deep_view() =~= deselect_others(old(nodes).deep_view(), id));
    }
}

/// Find the first selected node's index.
fn find_selected(nodes: &Vec<Node>) -> (r: Option<usize>)
    ensures
        match r {
            Some(i) => i == selected_index(nodes.deep_view()) && i < nodes@.len(),
            None => selected_index(nodes.deep_view()) == -1,
        },
{
    let n = nodes.len();
    for i in 0..n
        invariant
            n == nodes@.len(),
            forall|j: int| 0 <= j < i ==> !(#[trigger] nodes.deep_view()[j].selected),
    {
        if nodes[i].selected {
            proof {
                lemma_selected_index_first(nodes.deep_view(), i as int);
            }
            return Some(i);
        }
    }
    proof {
        lemma_selected_index(nodes.deep_view());
    }
    None
}

/// When the nodes before `i` are unselected and the node at `i` is
/// selected, `selected_index` is exactly `i`.
proof fn lemma_selected_index_first(nodes: Seq<NodeView>, i: int)
    requires
        0 <= i < nodes.len(),
        nodes[i].selected,
        forall|j: int| 0 <= j < i ==> !nodes[j].selected,
    ensures
        selected_index(nodes) == i,
    decreases nodes.len(),
{
    if i > 0 {
        assert forall|j: int| 0 <= j < i - 1 implies !nodes.drop_first()[j].selected by {
            assert(nodes.drop_first()[j] == nodes[j + 1]);
        }
        assert(nodes.drop_first()[i - 1] == nodes[i]);
        lemma_selected_index_first(nodes.drop_first(), i - 1);
    }
}

/// The default size of a freshly created node, by shape.
pub open spec fn default_size(shape: ShapeType) -> (u16, u16) {
    match shape {
        ShapeType::Box => (20u16, 5u16),
        ShapeType::Diamond => (15u16, 7u16),
        ShapeType::Text => (10u16, 1u16),
        ShapeType::Frame => (30u16, 10u16),
    }
}

/// A freshly created node: the fresh id, the given shape at its default
/// size, empty text, selected.
pub open spec fn fresh_node(nodes: Seq<NodeView>, shape: ShapeType, x: u16, y: u16) -> NodeView {
    NodeView {
        id: next_id(nodes) as usize,
        shape,
        x,
        y,
        width: default_size(shape).0,
        height: default_size(shape).1,
        text: Seq::empty(),
        selected: true,
    }
}

/// Where a node created from the command palette spawns: below the last
/// node, or at `(10, 10)` on an empty diagram.
pub open spec fn spawn_position(nodes: Seq<NodeView>) -> (int, int) {
    if nodes.len() > 0 {
        (nodes.last().x as int, nodes.last().y + nodes.last().height + 2)
    } else {
        (10, 10)
    }
}

/// The state after creating a node: the node appended and selected
/// exclusively, connection selection cleared, and the editor in `Insert`
/// on the new node.
pub open spec fn created(v: AppStateView, shape: ShapeType, x: u16, y: u16) -> AppStateView {
    let node = fresh_node(v.nodes, shape, x, y);
    AppStateView {
        nodes: deselect_others(v.nodes.push(node), node.id),
        mode: AppMode::Insert(node.id),
        selected_connection_index: None,
        ..v
    }
}

/// The node edits of `Insert` mode: a character, a line break or a
/// backspace applied to the node's text, with a text-shaped node refitted
/// after every edit.
pub open spec fn edited_node(n: NodeView, key: KeyInput) -> NodeView {
    let n1 = match key {
        KeyInput::Char(c) => NodeView { text: n.text.push(c), ..n },
        KeyInput::Enter => NodeView { text: n.text.push('\n'), ..n },
        KeyInput::Backspace => NodeView {
            text: if n.text.len() > 0 {
                n.text.drop_last()
            } else {
                n.text
            },
            ..n
        },
        _ => n,
    };
    if n1.shape == ShapeType::Text {
        fitted(n1)
    } else {
        n1
    }
}

/// One `Insert`-mode key: Esc commits and clears selection; Tab commits
/// and advances selection; editing keys change the target's text; a stale
/// target id falls back to `Normal`.
pub open spec fn step_insert(v: AppStateView, id: usize, key: KeyInput) -> AppStateView {
    match key {
        KeyInput::Esc => AppStateView {
            mode: AppMode::Normal,
            nodes: clear_selected(v.nodes),
            ..v
        },
        KeyInput::Tab => {
            let v1 = AppStateView { mode: AppMode::Normal, ..v };
            if v.nodes.len() > 0 {
                let cur = node_index(v.nodes, id);
                let next = if cur >= 0 {
                    (cur + 1) % (v.nodes.len() as int)
                } else {
                    0
                };
                AppStateView {
                    nodes: select_exactly(v.nodes, next),
                    selected_connection_index: None,
                    ..v1
                }
            } else {
                v1
            }
        },
        _ => {
            let i = node_index(v.nodes, id);
            if i >= 0 {
                match key {
                    KeyInput::Char(_) | KeyInput::Enter | KeyInput::Backspace => AppStateView {
                        nodes: v.nodes.update(i, edited_node(v.nodes[i], key)),
                        ..v
                    },
                    _ => v,
                }
            } else {
                AppStateView { mode: AppMode::Normal, ..v }
            }
        },
    }
}

/// One `Leader`-mode key: `n`/`d`/`t`/`f` spawn a shape below the last
/// node and enter `Insert`; `h` opens help; `w` asks the shell to save;
/// `c` asks it to copy; `q` quits; Esc returns to `Normal`.
pub open spec fn step_leader(v: AppStateView, key: KeyInput) -> (AppStateView, EditorAction) {
    match key {
        KeyInput::Char(c) => {
            if c == 'n' || c == 'd' || c == 't' || c == 'f' {
                let shape = if c == 'n' {
                    ShapeType::Box
                } else if c == 'd' {
                    ShapeType::Diamond
                } else if c == 'f' {
                    ShapeType::Frame
                } else {
                    ShapeType::Text
                };
                let pos = spawn_position(v.nodes);
                (created(v, shape, pos.0 as u16, pos.1 as u16), EditorAction::Idle)
            } else if c == 'h' {
                (AppStateView { mode: AppMode::Help, ..v }, EditorAction::Idle)
            } else if c == 'w' {
                (AppStateView { mode: AppMode::Normal, ..v }, EditorAction::Save)
            } else if c == 'c' {
                (AppStateView { mode: AppMode::Normal, ..v }, EditorAction::CopyText)
            } else if c == 'q' {
                (v, EditorAction::Quit)
            } else {
                (v, EditorAction::Idle)
            }
        },
        KeyInput::Esc => (AppStateView { mode: AppMode::Normal, ..v }, EditorAction::Idle),
        _ => (v, EditorAction::Idle),
    }
}

/// One `Help`-mode key: Esc, space or Enter closes help; everything else
/// is swallowed.
pub open spec fn step_help(v: AppStateView, key: KeyInput) -> AppStateView {
    match key {
        KeyInput::Esc | KeyInput::Char(' ') | KeyInput::Enter => AppStateView {
            mode: AppMode::Normal,
            ..v
        },
        _ => v,
    }
}

/// One `Resize`-mode key: `+`/`=` grows by 2 columns and 1 row; `-`/`_`
/// shrinks by the same, clamped to width 3 and height 1; Esc or Enter
/// finishes; a stale id falls back to `Normal`.
pub open spec fn step_resize(v: AppStateView, id: usize, key: KeyInput) -> AppStateView {
    let i = node_index(v.nodes, id);
    if i >= 0 {
        let n = v.nodes[i];
        match key {
            KeyInput::Char(c) => {
                if c == '+' || c == '=' {
                    let n2 = NodeView {
                        width: (n.width + 2) as u16,
                        height: (n.height + 1) as u16,
                        ..n
                    };
                    AppStateView { nodes: v.nodes.update(i, n2), ..v }
                } else if c == '-' || c == '_' {
                    let n2 = NodeView {
                        width: vstd::math::max(crate::renderer::sat_sub(n.width as int, 2), 3) as u16,
                        height: vstd::math::max(crate::renderer::sat_sub(n.height as int, 1), 1) as u16,
                        ..n
                    };
                    AppStateView { nodes: v.nodes.update(i, n2), ..v }
                } else {
                    v
                }
            },
            KeyInput::Esc | KeyInput::Enter => AppStateView { mode: AppMode::Normal, ..v },
            _ => v,
        }
    } else {
        AppStateView { mode: AppMode::Normal, ..v }
    }
}

/// The menu entry at `sel` activated at the menu's anchor: the four create
/// entries spawn a node at the anchor's world position and enter `Insert`;
/// the connector entries arm a pending connector from the topmost node
/// under the anchor; delete removes the topmost node (with its
/// connections) or else the topmost connection under the anchor; anything
/// else cancels.
pub open spec fn menu_activate(v: AppStateView, x: u16, y: u16, sel: int) -> AppStateView {
    let wx = crate::renderer::clamp_u16(x + v.camera_offset.0) as u16;
    let wy = crate::renderer::clamp_u16(y + v.camera_offset.1) as u16;
    if sel == 0 {
        created(v, ShapeType::Box, wx, wy)
    } else if sel == 1 {
        created(v, ShapeType::Diamond, wx, wy)
    } else if sel == 2 {
        created(v, ShapeType::Text, wx, wy)
    } else if sel == 3 {
        created(v, ShapeType::Frame, wx, wy)
    } else if sel == 5 || sel == 6 {
        let h = top_hit(v.nodes, wx as int, wy as int);
        if h >= 0 {
            AppStateView {
                connection_source_id: Some(v.nodes[h].id),
                connection_has_arrow: sel == 6,
                mode: AppMode::Normal,
                ..v
            }
        } else {
            AppStateView { mode: AppMode::Normal, ..v }
        }
    } else if sel == 7 {
        let h = bottom_hit(v.nodes, wx as int, wy as int);
        if h >= 0 {
            let node_id = v.nodes[h].id;
            AppStateView {
                nodes: v.nodes.remove(h),
                connections: remove_connections_of(v.connections, node_id),
                mode: AppMode::Normal,
                ..v
            }
        } else {
            let ch = top_conn_hit(v.connections, wx as int, wy as int, v.nodes);
            if ch >= 0 {
                AppStateView {
                    connections: v.connections.remove(ch),
                    mode: AppMode::Normal,
                    ..v
                }
            } else {
                AppStateView { mode: AppMode::Normal, ..v }
            }
        }
    } else {
        AppStateView { mode: AppMode::Normal, ..v }
    }
}

/// One `ContextMenu`-mode key: Up and Down move the highlight, skipping
/// the separator rows; Enter or space activates the highlighted entry; Esc
/// cancels.
pub open spec fn step_context_menu(
    v: AppStateView,
    x: u16,
    y: u16,
    sel: usize,
    key: KeyInput,
) -> AppStateView {
    match key {
        KeyInput::Up => {
            if sel > 0 {
                let s1 = sel - 1;
                let s2 = if s1 == 4 || s1 == 8 {
                    s1 - 1
                } else {
                    s1
                };
                AppStateView {
                    mode: AppMode::ContextMenu { x, y, selected_index: s2 as usize },
                    ..v
                }
            } else {
                v
            }
        },
        KeyInput::Down => {
            if sel < 9 {
                let s1 = sel + 1;
                let s2 = if s1 == 4 || s1 == 8 {
                    s1 + 1
                } else {
                    s1
                };
                AppStateView {
                    mode: AppMode::ContextMenu { x, y, selected_index: s2 as usize },
                    ..v
                }
            } else {
                v
            }
        },
        KeyInput::Enter | KeyInput::Char(' ') => menu_activate(v, x, y, sel as int),
        KeyInput::Esc => AppStateView { mode: AppMode::Normal, ..v },
        _ => v,
    }
}

/// The anchor pair of a committed connection, from the directional
/// heuristic: target below, right of, above, else left of the source,
/// decided by bounding-box separation in that priority order, each case
/// picking the facing mid-edge anchors.
pub open spec fn anchor_offsets(src: NodeView, tgt: NodeView) -> ((u16, u16), (u16, u16)) {
    if tgt.y >= src.y + src.height {
        (((src.width / 2) as u16, (src.height - 1) as u16), ((tgt.width / 2) as u16, 0u16))
    } else if tgt.x >= src.x + src.width {
        (((src.width - 1) as u16, (src.height / 2) as u16), (0u16, (tgt.height / 2) as u16))
    } else if src.y >= tgt.y + tgt.height {
        (((src.width / 2) as u16, 0u16), ((tgt.width / 2) as u16, (tgt.height - 1) as u16))
    } else {
        ((0u16, (src.height / 2) as u16), ((tgt.width - 1) as u16, (tgt.height / 2) as u16))
    }
}

/// One `Normal`-mode key: Esc clears every selection and the pending
/// connector source; space opens the command palette; `q` quits; `i`, `r`
/// enter `Insert`/`Resize` on the selected node; Tab and Shift-Tab cycle
/// the selection; Delete removes the selected connection, else the
/// selected node with its connections; `c`/`a` arm a pending connector
/// (`a` toggles the arrow of a selected connection instead); Enter commits
/// a pending connector to the selected target with the heuristic anchors;
/// the arrows move the selected node, or pan the camera when none is
/// selected.
pub open spec fn step_normal(v: AppStateView, key: KeyInput) -> (AppStateView, EditorAction) {
    match key {
        KeyInput::Esc => (
            AppStateView {
                connection_source_id: None,
                selected_connection_index: None,
                nodes: clear_selected(v.nodes),
                ..v
            },
            EditorAction::Idle,
        ),
        KeyInput::Char(' ') => (AppStateView { mode: AppMode::Leader, ..v }, EditorAction::Idle),
        KeyInput::Char('q') => (v, EditorAction::Quit),
        KeyInput::Char('i') => {
            let s = selected_index(v.nodes);
            if s >= 0 {
                (AppStateView { mode: AppMode::Insert(v.nodes[s].id), ..v }, EditorAction::Idle)
            } else {
                (v, EditorAction::Idle)
            }
        },
        KeyInput::Tab => {
            if v.nodes.len() > 0 {
                let cur = selected_index(v.nodes);
                let next = if cur >= 0 {
                    (cur + 1) % (v.nodes.len() as int)
                } else {
                    0
                };
                (
                    AppStateView {
                        nodes: select_exactly(v.nodes, next),
                        selected_connection_index: None,
                        ..v
                    },
                    EditorAction::Idle,
                )
            } else {
                (v, EditorAction::Idle)
            }
        },
        KeyInput::BackTab => {
            if v.nodes.len() > 0 {
                let cur = selected_index(v.nodes);
                let next = if cur >= 0 {
                    (cur + v.nodes.len() - 1) % (v.nodes.len() as int)
                } else {
                    v.nodes.len() - 1
                };
                (
                    AppStateView {
                        nodes: select_exactly(v.nodes, next),
                        selected_connection_index: None,
                        ..v
                    },
                    EditorAction::Idle,
                )
            } else {
                (v, EditorAction::Idle)
            }
        },
        KeyInput::Char('r') => {
            let s = selected_index(v.nodes);
            if s >= 0 {
                (AppStateView { mode: AppMode::Resize(v.nodes[s].id), ..v }, EditorAction::Idle)
            } else {
                (v, EditorAction::Idle)
            }
        },
        KeyInput::Delete | KeyInput::Backspace => {
            match v.selected_connection_index {
                Some(idx) => (
                    AppStateView {
                        connections: v.connections.remove(idx as int),
                        selected_connection_index: None,
                        ..v
                    },
                    EditorAction::Idle,
                ),
                None => {
                    let s = selected_index(v.nodes);
                    if s >= 0 {
                        let node_id = v.nodes[s].id;
                        (
                            AppStateView {
                                nodes: v.nodes.remove(s),
                                connections: remove_connections_of(v.connections, node_id),
                                ..v
                            },
                            EditorAction::Idle,
                        )
                    } else {
                        (v, EditorAction::Idle)
                    }
                },
            }
        },
        KeyInput::Char('c') => {
            let s = selected_index(v.nodes);
            if s >= 0 {
                (
                    AppStateView {
                        connection_source_id: Some(v.nodes[s].id),
                        connection_has_arrow: false,
                        ..v
                    },
                    EditorAction::Idle,
                )
            } else {
                (v, EditorAction::Idle)
            }
        },
        KeyInput::Enter => {
            match v.connection_source_id {
                Some(src_id) => {
                    let t = selected_index(v.nodes);
                    if t >= 0 && v.nodes[t].id != src_id {
                        let si = node_index(v.nodes, src_id);
                        if si >= 0 {
                            let offs = anchor_offsets(v.nodes[si], v.nodes[t]);
                            (
                                AppStateView {
                                    connections: v.connections.push(
                                        Connection {
                                            from_id: src_id,
                                            from_offset: offs.0,
                                            to_id: v.nodes[t].id,
                                            to_offset: offs.1,
                                            has_arrow: v.connection_has_arrow,
                                        },
                                    ),
                                    connection_source_id: None,
                                    ..v
                                },
                                EditorAction::Idle,
                            )
                        } else {
                            (v, EditorAction::Idle)
                        }
                    } else {
                        (v, EditorAction::Idle)
                    }
                },
                None => (v, EditorAction::Idle),
            }
        },
        KeyInput::Char('a') => {
            match v.selected_connection_index {
                Some(idx) => {
                    let c = v.connections[idx as int];
                    (
                        AppStateView {
                            connections: v.connections.update(
                                idx as int,
                                Connection { has_arrow: !c.has_arrow, ..c },
                            ),
                            ..v
                        },
                        EditorAction::Idle,
                    )
                },
                None => {
                    let s = selected_index(v.nodes);
                    if s >= 0 {
                        (
                            AppStateView {
                                connection_source_id: Some(v.nodes[s].id),
                                connection_has_arrow: true,
                                ..v
                            },
                            EditorAction::Idle,
                        )
                    } else {
                        (v, EditorAction::Idle)
                    }
                },
            }
        },
        KeyInput::Up | KeyInput::Down | KeyInput::Left | KeyInput::Right => {
            let s = selected_index(v.nodes);
            if s >= 0 {
                let n = v.nodes[s];
                let n2 = match key {
                    KeyInput::Up => NodeView {
                        y: crate::renderer::sat_sub(n.y as int, 1) as u16,
                        ..n
                    },
                    KeyInput::Down => NodeView { y: (n.y + 1) as u16, ..n },
                    KeyInput::Left => NodeView {
                        x: crate::renderer::sat_sub(n.x as int, 1) as u16,
                        ..n
                    },
                    _ => NodeView { x: (n.x + 1) as u16, ..n },
                };
                (AppStateView { nodes: v.nodes.update(s, n2), ..v }, EditorAction::Idle)
            } else {
                let cam = v.camera_offset;
                let cam2 = match key {
                    KeyInput::Up => (
                        cam.0,
                        if cam.1 > i32::MIN {
                            (cam.1 - 1) as i32
                        } else {
                            cam.1
                        },
                    ),
                    KeyInput::Down => (cam.0, (cam.1 + 1) as i32),
                    KeyInput::Left => (
                        if cam.0 > i32::MIN {
                            (cam.0 - 1) as i32
                        } else {
                            cam.0
                        },
                        cam.1,
                    ),
                    _ => ((cam.0 + 1) as i32, cam.1),
                };
                (AppStateView { camera_offset: cam2, ..v }, EditorAction::Idle)
            }
        },
        _ => (v, EditorAction::Idle),
    }
}

/// One key applied to the whole state machine, dispatched on the current
/// mode.
pub open spec fn step_key(v: AppStateView, key: KeyInput) -> (AppStateView, EditorAction) {
    match v.mode {
        AppMode::Insert(id) => (step_insert(v, id, key), EditorAction::Idle),
        AppMode::Leader => step_leader(v, key),
        AppMode::Help => (step_help(v, key), EditorAction::Idle),
        AppMode::Resize(id) => (step_resize(v, id, key), EditorAction::Idle),
        AppMode::ContextMenu { x, y, selected_index } => (
            step_context_menu(v, x, y, selected_index, key),
            EditorAction::Idle,
        ),
        AppMode::Normal => step_normal(v, key),
    }
}

/// The machine limits a key press must respect: text long enough to
/// overflow the refit arithmetic, ids, sizes or coordinates at the integer
/// ceiling, and a stale selected-connection index are ruled out, exactly
/// where the operation would touch them.
pub open spec fn key_ok(v: AppStateView, key: KeyInput) -> bool {
    match v.mode {
        AppMode::Insert(id) => {
            let i = node_index(v.nodes, id);
            match key {
                KeyInput::Char(_) | KeyInput::Enter => (i >= 0 && v.nodes[i].shape
                    == ShapeType::Text) ==> v.nodes[i].text.len() + 2 <= 0xffff,
                KeyInput::Backspace => (i >= 0 && v.nodes[i].shape == ShapeType::Text)
                    ==> v.nodes[i].text.len() <= 0xffff,
                _ => true,
            }
        },
        AppMode::Leader => match key {
            KeyInput::Char(c) => (c == 'n' || c == 'd' || c == 't' || c == 'f') ==> {
                &&& next_id(v.nodes) <= usize::MAX
                &&& spawn_position(v.nodes).1 <= 0xffff
            },
            _ => true,
        },
        AppMode::Resize(id) => {
            let i = node_index(v.nodes, id);
            match key {
                KeyInput::Char(c) => (c == '+' || c == '=') ==> (i >= 0 ==> v.nodes[i].width + 2
                    <= 0xffff && v.nodes[i].height + 1 <= 0xffff),
                _ => true,
            }
        },
        AppMode::ContextMenu { x, y, selected_index } => match key {
            KeyInput::Enter | KeyInput::Char(' ') => next_id(v.nodes) <= usize::MAX,
            _ => true,
        },
        AppMode::Normal => match key {
            KeyInput::Delete | KeyInput::Backspace => match v.selected_connection_index {
                Some(idx) => idx < v.connections.len(),
                None => true,
            },
            KeyInput::Char(c) => {
                if c == 'a' {
                    match v.selected_connection_index {
                        Some(idx) => idx < v.connections.len(),
                        None => true,
                    }
                } else {
                    true
                }
            },
            KeyInput::Enter => match v.connection_source_id {
                Some(src_id) => {
                    let t = selected_index(v.nodes);
                    let si = node_index(v.nodes, src_id);
                    (t >= 0 && v.nodes[t].id != src_id && si >= 0) ==> {
                        &&& v.nodes[si].width >= 1
                        &&& v.nodes[si].height >= 1
                        &&& v.nodes[t].width >= 1
                        &&& v.nodes[t].height >= 1
                    }
                },
                None => true,
            },
            KeyInput::Down => {
                let s = selected_index(v.nodes);
                if s >= 0 {
                    v.nodes[s].y < 0xffff
                } else {
                    v.camera_offset.1 < i32::MAX
                }
            },
            KeyInput::Right => {
                let s = selected_index(v.nodes);
                if s >= 0 {
                    v.nodes[s].x < 0xffff
                } else {
                    v.camera_offset.0 < i32::MAX
                }
            },
            _ => true,
        },
        AppMode::Help => true,
    }
}

proof fn lemma_top_hit_at(nodes: Seq<NodeView>, x: int, y: int, i: int)
    requires
        0 <= i < nodes.len(),
        nodes[i].spec_contains(x, y),
        forall|j: int| i < j < nodes.len() ==> !(#[trigger] nodes[j].spec_contains(x, y)),
    ensures
        top_hit(nodes, x, y) == i,
    decreases nodes.len(),
{
    if i < nodes.len() - 1 {
        assert forall|j: int|
            i < j < nodes.len() - 1 implies !(#[trigger] nodes.drop_last()[j].spec_contains(x, y))
        by {
            assert(nodes.drop_last()[j] == nodes[j]);
        }
        assert(nodes.drop_last()[i] == nodes[i]);
        lemma_top_hit_at(nodes.drop_last(), x, y, i);
    }
}

proof fn lemma_bottom_hit_at(nodes: Seq<NodeView>, x: int, y: int, i: int)
    requires
        0 <= i < nodes.len(),
        nodes[i].spec_contains(x, y),
        forall|j: int| 0 <= j < i ==> !(#[trigger] nodes[j].spec_contains(x, y)),
    ensures
        bottom_hit(nodes, x, y) == i,
    decreases nodes.len(),
{
    if i > 0 {
        assert forall|j: int|
            0 <= j < i - 1 implies !(#[trigger] nodes.drop_first()[j].spec_contains(x, y)) by {
            assert(nodes.drop_first()[j] == nodes[j + 1]);
        }
        assert(nodes.drop_first()[i - 1] == nodes[i]);
        lemma_bottom_hit_at(nodes.drop_first(), x, y, i - 1);
    }
}

proof fn lemma_top_conn_hit_at(conns: Seq<Connection>, x: int, y: int, nodes: Seq<NodeView>, i: int)
    requires
        0 <= i < conns.len(),
        conns[i].spec_contains(x, y, nodes),
        forall|j: int| i < j < conns.len() ==> !(#[trigger] conns[j].spec_contains(x, y, nodes)),
    ensures
        top_conn_hit(conns, x, y, nodes) == i,
    decreases conns.len(),
{
    if i < conns.len() - 1 {
        assert forall|j: int|
            i < j < conns.len() - 1 implies !(#[trigger] conns.drop_last()[j].spec_contains(
                x,
                y,
                nodes,
            )) by {
            assert(conns.drop_last()[j] == conns[j]);
        }
        assert(conns.drop_last()[i] == conns[i]);
        lemma_top_conn_hit_at(conns.drop_last(), x, y, nodes, i);
    }
}

/// Find the topmost node under `(x, y)`: the last hit in z-order.
fn find_top_hit(nodes: &Vec<Node>, x: u16, y: u16) -> (r: Option<usize>)
    ensures
        match r {
            Some(i) => i == top_hit(nodes.deep_view(), x as int, y as int) && i < nodes@.len(),
            None => top_hit(nodes.deep_view(), x as int, y as int) == -1,
        },
{
    let mut i = nodes.len();
    while i > 0
        invariant
            i <= nodes@.len(),
            forall|j: int|
                i <= j < nodes@.len() ==> !(#[trigger] nodes.deep_view()[j].spec_contains(
                    x as int,
                    y as int,
                )),
        decreases i,
    {
        i = i - 1;
        if nodes[i].contains(x, y) {
            proof {
                lemma_top_hit_at(nodes.deep_view(), x as int, y as int, i as int);
            }
            return Some(i);
        }
    }
    proof {
        lemma_top_hit(nodes.deep_view(), x as int, y as int);
    }
    None
}

/// Find the bottom-most node under `(x, y)`: the first hit in list order.
fn find_bottom_hit(nodes: &Vec<Node>, x: u16, y: u16) -> (r: Option<usize>)
    ensures
        match r {
            Some(i) => i == bottom_hit(nodes.deep_view(), x as int, y as int) && i < nodes@.len(),
            None => bottom_hit(nodes.deep_view(), x as int, y as int) == -1,
        },
{
    let n = nodes.len();
    for i in 0..n
        invariant
            n == nodes@.len(),
            forall|j: int|
                0 <= j < i ==> !(#[trigger] nodes.deep_view()[j].spec_contains(x as int, y as int)),
    {
        if nodes[i].contains(x, y) {
            proof {
                lemma_bottom_hit_at(nodes.deep_view(), x as int, y as int, i as int);
            }
            return Some(i);
        }
    }
    proof {
        lemma_bottom_hit(nodes.deep_view(), x as int, y as int);
    }
    None
}

/// Find the topmost connection whose route passes through `(x, y)`.
fn find_top_conn_hit(conns: &Vec<Connection>, x: u16, y: u16, nodes: &Vec<Node>) -> (r: Option<
    usize,
>)
    ensures
        match r {
            Some(i) => i == top_conn_hit(conns@, x as int, y as int, nodes.deep_view()) && i
                < conns@.len(),
            None => top_conn_hit(conns@, x as int, y as int, nodes.deep_view()) == -1,
        },
{
    let mut i = conns.len();
    while i > 0
        invariant
            i <= conns@.len(),
            forall|j: int|
                i <= j < conns@.len() ==> !(#[trigger] conns@[j].spec_contains(
                    x as int,
                    y as int,
                    nodes.deep_view(),
                )),
        decreases i,
    {
        i = i - 1;
        let slice = nodes.as_slice();
        let hit = conns[i].contains(x, y, slice);
        proof {
            assert(slice.deep_view() =~= nodes.deep_view());
        }
        if hit {
            proof {
                lemma_top_conn_hit_at(conns@, x as int, y as int, nodes.deep_view(), i as int);
            }
            return Some(i);
        }
    }
    proof {
        lemma_top_conn_hit(conns@, x as int, y as int, nodes.deep_view());
    }
    None
}

/// Keep only the connections that reference the deleted node at neither
/// end.
fn retain_connections(conns: &mut Vec<Connection>, id: usize)
    ensures
        final(conns)@ == remove_connections_of(old(conns)@, id),
{
    let mut kept: Vec<Connection> = Vec::new();
    let n = conns.len();
    proof {
        reveal(Seq::filter);
        assert(conns@.take(0) =~= Seq::<Connection>::empty());
        assert(kept@ =~= remove_connections_of(conns@.take(0), id));
    }
    for i in 0..n
        invariant
            n == conns@.len(),
            kept@ == remove_connections_of(conns@.take(i as int), id),
    {
        proof {
            reveal(Seq::filter);
            assert(conns@.take(i + 1).drop_last() =~= conns@.take(i as int));
            assert(conns@.take(i + 1).last() == conns@[i as int]);
            assert(remove_connections_of(conns@.take(i + 1), id) == (if conns@[i as int].from_id
                != id && conns@[i as int].to_id != id {
                remove_connections_of(conns@.take(i as int), id).push(conns@[i as int])
            } else {
                remove_connections_of(conns@.take(i as int), id)
            }));
        }
        let c = &conns[i];
        if c.from_id != id && c.to_id != id {
            kept.push(
                Connection {
                    from_id: c.from_id,
                    from_offset: c.from_offset,
                    to_id: c.to_id,
                    to_offset: c.to_offset,
                    has_arrow: c.has_arrow,
                },
            );
        }
    }
    proof {
        assert(conns@.take(n as int) =~= conns@);
    }
    *conns = kept;
}

/// `screen + camera`, clamped to the `u16` range: a screen cell translated
/// to world coordinates.
fn world_from_screen(s: u16, cam: i32) -> (r: u16)
    ensures
        r as int == crate::renderer::clamp_u16(s as int + cam as int),
{
    let d: i64 = s as i64 + cam as i64;
    if d < 0 {
        0
    } else if d > 0xffff {
        0xffff
    } else {
        d as u16
    }
}

/// Apply one `Insert`-mode key.
fn handle_insert_key(state: &mut AppState, id: usize, key: KeyInput)
    requires
        old(state)@.mode == AppMode::Insert(id),
        key_ok(old(state)@, key),
    ensures
        final(state)@ == step_insert(old(state)@, id, key),
{
    match key {
        KeyInput::Esc => {
            state.mode = AppMode::Normal;
            unselect_all(&mut state.nodes);
        },
        KeyInput::Tab => {
            state.mode = AppMode::Normal;
            if state.nodes.len() > 0 {
                let cur = crate::model::find_node_position(&state.nodes, id);
                let next = match cur {
                    Some(idx) => (idx + 1) % state.nodes.len(),
                    None => 0,
                };
                select_only(&mut state.nodes, next);
                state.selected_connection_index = None;
            }
        },
        KeyInput::Char(_) | KeyInput::Enter | KeyInput::Backspace => {
            match crate::model::find_node_position(&state.nodes, id) {
                Some(i) => {
                    let mut nd = state.nodes[i].duplicate();
                    match key {
                        KeyInput::Char(c) => push_char(&mut nd.text, c),
                        KeyInput::Enter => push_char(&mut nd.text, '\n'),
                        _ => {
                            pop_char(&mut nd.text);
                        },
                    }
                    if nd.shape == ShapeType::Text {
                        auto_fit(&mut nd);
                    }
                    let ghost edited = nd@;
                    state.nodes[i] = nd;
                    proof {
                        assert(edited == edited_node(old(state)@.nodes[i as int], key));
                        assert(state.nodes.deep_view() =~= old(state)@.nodes.update(
                            i as int,
                            edited,
                        ));
                    }
                },
                None => {
                    state.mode = AppMode::Normal;
                },
            }
        },
        _ => {
            match crate::model::find_node_position(&state.nodes, id) {
                Some(_) => {
                },
                None => {
                    state.mode = AppMode::Normal;
                },
            }
        },
    }
}

/// Create a node of `shape` at `(x, y)`: it gets the fresh id, its shape's
/// default size, empty text and the sole selection, and the editor enters
/// `Insert` on it.
fn create_node(state: &mut AppState, shape: ShapeType, x: u16, y: u16)
    requires
        next_id(old(state)@.nodes) <= usize::MAX,
    ensures
        final(state)@ == created(old(state)@, shape, x, y),
{
    let id = find_max_id(&state.nodes) + 1;
    let (width, height): (u16, u16) = match shape {
        ShapeType::Box => (20, 5),
        ShapeType::Diamond => (15, 7),
        ShapeType::Text => (10, 1),
        ShapeType::Frame => (30, 10),
    };
    let ghost before = state.nodes.deep_view();
    state.nodes.push(
        Node { id, shape, x, y, width, height, text: String::new(), selected: true },
    );
    proof {
        assert(state.nodes.deep_view() =~= before.push(fresh_node(before, shape, x, y)));
    }
    state.mode = AppMode::Insert(id);
    unselect_others(&mut state.nodes, id);
    state.selected_connection_index = None;
}

/// Apply one `Leader`-mode key.
fn handle_leader_key(state: &mut AppState, key: KeyInput) -> (act: EditorAction)
    requires
        old(state)@.mode == AppMode::Leader,
        key_ok(old(state)@, key),
    ensures
        (final(state)@, act) == step_leader(old(state)@, key),
{
    match key {
        KeyInput::Char(c) => {
            if c == 'n' || c == 'd' || c == 't' || c == 'f' {
                let shape = if c == 'n' {
                    ShapeType::Box
                } else if c == 'd' {
                    ShapeType::Diamond
                } else if c == 'f' {
                    ShapeType::Frame
                } else {
                    ShapeType::Text
                };
                let (spawn_x, spawn_y): (u16, u16) = if state.nodes.len() > 0 {
                    let last = &state.nodes[state.nodes.len() - 1];
                    proof {
                        assert(old(state)@.nodes.last() == state.nodes@[state.nodes@.len() - 1]@);
                    }
                    (last.x, (last.y as u32 + last.height as u32 + 2) as u16)
                } else {
                    (10, 10)
                };
                create_node(state, shape, spawn_x, spawn_y);
                EditorAction::Idle
            } else if c == 'h' {
                state.mode = AppMode::Help;
                EditorAction::Idle
            } else if c == 'w' {
                state.mode = AppMode::Normal;
                EditorAction::Save
            } else if c == 'c' {
                state.mode = AppMode::Normal;
                EditorAction::CopyText
            } else if c == 'q' {
                EditorAction::Quit
            } else {
                EditorAction::Idle
            }
        },
        KeyInput::Esc => {
            state.mode = AppMode::Normal;
            EditorAction::Idle
        },
        _ => EditorAction::Idle,
    }
}

/// Apply one `Help`-mode key.
fn handle_help_key(state: &mut AppState, key: KeyInput)
    requires
        old(state)@.mode == AppMode::Help,
    ensures
        final(state)@ == step_help(old(state)@, key),
{
    match key {
        KeyInput::Esc | KeyInput::Enter => {
            state.mode = AppMode::Normal;
        },
        KeyInput::Char(c) => {
            if c == ' ' {
                state.mode = AppMode::Normal;
            }
        },
        _ => {
        },
    }
}

/// Apply one `Resize`-mode key.
fn handle_resize_key(state: &mut AppState, id: usize, key: KeyInput)
    requires
        old(state)@.mode == AppMode::Resize(id),
        key_ok(old(state)@, key),
    ensures
        final(state)@ == step_resize(old(state)@, id, key),
{
    match crate::model::find_node_position(&state.nodes, id) {
        Some(i) => {
            match key {
                KeyInput::Char(c) => {
                    if c == '+' || c == '=' {
                        let mut nd = state.nodes[i].duplicate();
                        nd.width = nd.width + 2;
                        nd.height = nd.height + 1;
                        let ghost resized = nd@;
                        state.nodes[i] = nd;
                        proof {
                            assert(state.nodes.deep_view() =~= old(state)@.nodes.update(
                                i as int,
                                resized,
                            ));
                        }
                    } else if c == '-' || c == '_' {
                        let mut nd = state.nodes[i].duplicate();
                        let w1: u16 = if nd.width >= 2 {
                            nd.width - 2
                        } else {
                            0
                        };
                        nd.width = if w1 > 3 {
                            w1
                        } else {
                            3
                        };
                        let h1: u16 = if nd.height >= 1 {
                            nd.height - 1
                        } else {
                            0
                        };
                        nd.height = if h1 > 1 {
                            h1
                        } else {
                            1
                        };
                        let ghost resized = nd@;
                        state.nodes[i] = nd;
                        proof {
                            assert(state.nodes.deep_view() =~= old(state)@.nodes.update(
                                i as int,
                                resized,
                            ));
                        }
                    }
                },
                KeyInput::Esc | KeyInput::Enter => {
                    state.mode = AppMode::Normal;
                },
                _ => {
                },
            }
        },
        None => {
            state.mode = AppMode::Normal;
        },
    }
}

/// Activate the context-menu entry at `sel`, anchored at screen cell
/// `(x, y)`.
fn activate_menu_entry(state: &mut AppState, x: u16, y: u16, sel: usize)
    requires
        next_id(old(state)@.nodes) <= usize::MAX,
    ensures
        final(state)@ == menu_activate(old(state)@, x, y, sel as int),
{
    let wx = world_from_screen(x, state.camera_offset.0);
    let wy = world_from_screen(y, state.camera_offset.1);

    if sel == 0 {
        create_node(state, ShapeType::Box, wx, wy);
    } else if sel == 1 {
        create_node(state, ShapeType::Diamond, wx, wy);
    } else if sel == 2 {
        create_node(state, ShapeType::Text, wx, wy);
    } else if sel == 3 {
        create_node(state, ShapeType::Frame, wx, wy);
    } else if sel == 5 || sel == 6 {
        match find_top_hit(&state.nodes, wx, wy) {
            Some(h) => {
                proof {
                    assert(old(state)@.nodes[h as int] == state.nodes@[h as int]@);
                }
                state.connection_source_id = Some(state.nodes[h].id);
                state.connection_has_arrow = sel == 6;
            },
            None => {
            },
        }
        state.mode = AppMode::Normal;
    } else if sel == 7 {
        match find_bottom_hit(&state.nodes, wx, wy) {
            Some(idx) => {
                let node_id = state.nodes[idx].id;
                proof {
                    assert(old(state)@.nodes[idx as int] == state.nodes@[idx as int]@);
                }
                state.nodes.remove(idx);
                retain_connections(&mut state.connections, node_id);
                proof {
                    assert(state.nodes.deep_view() =~= old(state)@.nodes.remove(idx as int));
                }
            },
            None => {
                match find_top_conn_hit(&state.connections, wx, wy, &state.nodes) {
                    Some(ci) => {
                        state.connections.remove(ci);
                    },
                    None => {
                    },
                }
            },
        }
        state.mode = AppMode::Normal;
    } else {
        state.mode = AppMode::Normal;
    }
}

/// Apply one `ContextMenu`-mode key.
fn handle_context_menu_key(state: &mut AppState, x: u16, y: u16, sel: usize, key: KeyInput)
    requires
        old(state)@.mode == (AppMode::ContextMenu { x, y, selected_index: sel }),
        key_ok(old(state)@, key),
    ensures
        final(state)@ == step_context_menu(old(state)@, x, y, sel, key),
{
    match key {
        KeyInput::Up => {
            if sel > 0 {
                let s1 = sel - 1;
                let s2 = if s1 == 4 || s1 == 8 {
                    s1 - 1
                } else {
                    s1
                };
                state.mode = AppMode::ContextMenu { x, y, selected_index: s2 };
            }
        },
        KeyInput::Down => {
            if sel < 9 {
                let s1 = sel + 1;
                let s2 = if s1 == 4 || s1 == 8 {
                    s1 + 1
                } else {
                    s1
                };
                state.mode = AppMode::ContextMenu { x, y, selected_index: s2 };
            }
        },
        KeyInput::Enter => {
            activate_menu_entry(state, x, y, sel);
        },
        KeyInput::Char(c) => {
            if c == ' ' {
                activate_menu_entry(state, x, y, sel);
            }
        },
        KeyInput::Esc => {
            state.mode = AppMode::Normal;
        },
        _ => {
        },
    }
}

/// Apply one `Normal`-mode key.
fn handle_normal_key(state: &mut AppState, key: KeyInput) -> (act: EditorAction)
    requires
        old(state)@.mode == AppMode::Normal,
        key_ok(old(state)@, key),
    ensures
        (final(state)@, act) == step_normal(old(state)@, key),
{
    match key {
        KeyInput::Esc => {
            state.connection_source_id = None;
            state.selected_connection_index = None;
            unselect_all(&mut state.nodes);
            EditorAction::Idle
        },
        KeyInput::Tab => {
            if state.nodes.len() > 0 {
                let cur = find_selected(&state.nodes);
                let next = match cur {
                    Some(idx) => (idx + 1) % state.nodes.len(),
                    None => 0,
                };
                select_only(&mut state.nodes, next);
                state.selected_connection_index = None;
            }
            EditorAction::Idle
        },
        KeyInput::BackTab => {
            if state.nodes.len() > 0 {
                let cur = find_selected(&state.nodes);
                let len = state.nodes.len();
                let next = match cur {
                    Some(idx) => {
                        proof {
                            vstd::arithmetic::div_mod::lemma_small_mod((len - 1) as nat, len as nat);
                            vstd::arithmetic::div_mod::lemma_mod_multiples_vanish(
                                1,
                                idx as int - 1,
                                len as int,
                            );
                            if idx > 0 {
                                vstd::arithmetic::div_mod::lemma_small_mod(
                                    (idx - 1) as nat,
                                    len as nat,
                                );
                            }
                        }
                        if idx == 0 {
                            len - 1
                        } else {
                            idx - 1
                        }
                    },
                    None => state.nodes.len() - 1,
                };
                select_only(&mut state.nodes, next);
                state.selected_connection_index = None;
            }
            EditorAction::Idle
        },
        KeyInput::Delete | KeyInput::Backspace => {
            match state.selected_connection_index {
                Some(idx) => {
                    state.connections.remove(idx);
                    state.selected_connection_index = None;
                },
                None => {
                    match find_selected(&state.nodes) {
                        Some(idx) => {
                            let node_id = state.nodes[idx].id;
                            proof {
                                assert(old(state)@.nodes[idx as int] == state.nodes@[idx as int]@);
                            }
                            state.nodes.remove(idx);
                            retain_connections(&mut state.connections, node_id);
                            proof {
                                assert(state.nodes.deep_view() =~= old(state)@.nodes.remove(
                                    idx as int,
                                ));
                            }
                        },
                        None => {
                        },
                    }
                },
            }
            EditorAction::Idle
        },
        KeyInput::Enter => {
            match state.connection_source_id {
                Some(src_id) => {
                    match find_selected(&state.nodes) {
                        Some(t) => {
                            if state.nodes[t].id != src_id {
                                match crate::model::find_node_position(&state.nodes, src_id) {
                                    Some(si) => {
                                        proof {
                                            assert(old(state)@.nodes[si as int] == state.nodes@[si as int]@);
                                            assert(old(state)@.nodes[t as int] == state.nodes@[t as int]@);
                                        }
                                        let src = &state.nodes[si];
                                        let tgt = &state.nodes[t];
                                        let from_offset: (u16, u16);
                                        let to_offset: (u16, u16);
                                        if tgt.y as u32 >= src.y as u32 + src.height as u32 {
                                            from_offset = (src.width / 2, src.height - 1);
                                            to_offset = (tgt.width / 2, 0);
                                        } else if tgt.x as u32 >= src.x as u32 + src.width as u32 {
                                            from_offset = (src.width - 1, src.height / 2);
                                            to_offset = (0, tgt.height / 2);
                                        } else if src.y as u32 >= tgt.y as u32 + tgt.height as u32 {
                                            from_offset = (src.width / 2, 0);
                                            to_offset = (tgt.width / 2, tgt.height - 1);
                                        } else {
                                            from_offset = (0, src.height / 2);
                                            to_offset = (tgt.width - 1, tgt.height / 2);
                                        }
                                        let conn = Connection {
                                            from_id: src_id,
                                            from_offset,
                                            to_id: tgt.id,
                                            to_offset,
                                            has_arrow: state.connection_has_arrow,
                                        };
                                        state.connections.push(conn);
                                        state.connection_source_id = None;
                                    },
                                    None => {
                                    },
                                }
                            }
                        },
                        None => {
                        },
                    }
                },
                None => {
                },
            }
            EditorAction::Idle
        },
        KeyInput::Up | KeyInput::Down | KeyInput::Left | KeyInput::Right => {
            match find_selected(&state.nodes) {
                Some(s) => {
                    proof {
                        assert(old(state)@.nodes[s as int] == state.nodes@[s as int]@);
                    }
                    let mut nd = state.nodes[s].duplicate();
                    match key {
                        KeyInput::Up => {
                            nd.y = if nd.y >= 1 {
                                nd.y - 1
                            } else {
                                0
                            };
                        },
                        KeyInput::Down => {
                            nd.y = nd.y + 1;
                        },
                        KeyInput::Left => {
                            nd.x = if nd.x >= 1 {
                                nd.x - 1
                            } else {
                                0
                            };
                        },
                        _ => {
                            nd.x = nd.x + 1;
                        },
                    }
                    let ghost moved = nd@;
                    state.nodes[s] = nd;
                    proof {
                        assert(state.nodes.deep_view() =~= old(state)@.nodes.update(
                            s as int,
                            moved,
                        ));
                    }
                },
                None => {
                    match key {
                        KeyInput::Up => {
                            state.camera_offset.1 = if state.camera_offset.1 > i32::MIN {
                                state.camera_offset.1 - 1
                            } else {
                                state.camera_offset.1
                            };
                        },
                        KeyInput::Down => {
                            state.camera_offset.1 = state.camera_offset.1 + 1;
                        },
                        KeyInput::Left => {
                            state.camera_offset.0 = if state.camera_offset.0 > i32::MIN {
                                state.camera_offset.0 - 1
                            } else {
                                state.camera_offset.0
                            };
                        },
                        _ => {
                            state.camera_offset.0 = state.camera_offset.0 + 1;
                        },
                    }
                },
            }
            EditorAction::Idle
        },
        KeyInput::Char(c) => {
            if c == ' ' {
                state.mode = AppMode::Leader;
                EditorAction::Idle
            } else if c == 'q' {
                EditorAction::Quit
            } else if c == 'i' {
                match find_selected(&state.nodes) {
                    Some(s) => {
                        proof {
                            assert(old(state)@.nodes[s as int] == state.nodes@[s as int]@);
                        }
                        state.mode = AppMode::Insert(state.nodes[s].id);
                    },
                    None => {
                    },
                }
                EditorAction::Idle
            } else if c == 'r' {
                match find_selected(&state.nodes) {
                    Some(s) => {
                        proof {
                            assert(old(state)@.nodes[s as int] == state.nodes@[s as int]@);
                        }
                        state.mode = AppMode::Resize(state.nodes[s].id);
                    },
                    None => {
                    },
                }
                EditorAction::Idle
            } else if c == 'c' {
                match find_selected(&state.nodes) {
                    Some(s) => {
                        proof {
                            assert(old(state)@.nodes[s as int] == state.nodes@[s as int]@);
                        }
                        state.connection_source_id = Some(state.nodes[s].id);
                        state.connection_has_arrow = false;
                    },
                    None => {
                    },
                }
                EditorAction::Idle
            } else if c == 'a' {
                match state.selected_connection_index {
                    Some(idx) => {
                        let cref = &state.connections[idx];
                        let toggled = Connection {
                            from_id: cref.from_id,
                            from_offset: cref.from_offset,
                            to_id: cref.to_id,
                            to_offset: cref.to_offset,
                            has_arrow: !cref.has_arrow,
                        };
                        state.connections[idx] = toggled;
                    },
                    None => {
                        match find_selected(&state.nodes) {
                            Some(s) => {
                                proof {
                                    assert(old(state)@.nodes[s as int] == state.nodes@[s as int]@);
                                }
                                state.connection_source_id = Some(state.nodes[s].id);
                                state.connection_has_arrow = true;
                            },
                            None => {
                            },
                        }
                    },
                }
                EditorAction::Idle
            } else {
                EditorAction::Idle
            }
        },
    }
}

/// Apply one key press to the editor: dispatch on the current mode and
/// return what the shell must do next.
pub fn handle_key(state: &mut AppState, key: KeyInput) -> (act: EditorAction)
    requires
        key_ok(old(state)@, key),
    ensures
        (final(state)@, act) == step_key(old(state)@, key),
{
    let mode = state.mode;
    match mode {
        AppMode::Insert(id) => {
            handle_insert_key(state, id, key);
            EditorAction::Idle
        },
        AppMode::Leader => handle_leader_key(state, key),
        AppMode::Help => {
            handle_help_key(state, key);
            EditorAction::Idle
        },
        AppMode::Resize(id) => {
            handle_resize_key(state, id, key);
            EditorAction::Idle
        },
        AppMode::ContextMenu { x, y, selected_index } => {
            handle_context_menu_key(state, x, y, selected_index, key);
            EditorAction::Idle
        },
        AppMode::Normal => handle_normal_key(state, key),
    }
}

/// The first node other than `ex` under `(x, y)`, in list order; `-1` when
/// none.
pub open spec fn hit_excluding(nodes: Seq<NodeView>, ex: usize, x: int, y: int) -> int
    decreases nodes.len(),
{
    if nodes.len() == 0 {
        -1
    } else if nodes[0].id != ex && nodes[0].spec_contains(x, y) {
        0
    } else {
        let r = hit_excluding(nodes.drop_first(), ex, x, y);
        if r < 0 {
            -1
        } else {
            r + 1
        }
    }
}

proof fn lemma_hit_excluding(nodes: Seq<NodeView>, ex: usize, x: int, y: int)
    ensures
        hit_excluding(nodes, ex, x, y) < 0 ==> hit_excluding(nodes, ex, x, y) == -1 && forall|
            j: int,
        |
            0 <= j < nodes.len() ==> !(nodes[j].id != ex && #[trigger] nodes[j].spec_contains(
                x,
                y,
            )),
        hit_excluding(nodes, ex, x, y) >= 0 ==> {
            &&& hit_excluding(nodes, ex, x, y) < nodes.len()
            &&& nodes[hit_excluding(nodes, ex, x, y)].id != ex
            &&& nodes[hit_excluding(nodes, ex, x, y)].spec_contains(x, y)
            &&& forall|j: int|
                0 <= j < hit_excluding(nodes, ex, x, y) ==> !(nodes[j].id != ex
                    && #[trigger] nodes[j].spec_contains(x, y))
        },
    decreases nodes.len(),
{
    if nodes.len() > 0 && !(nodes[0].id != ex && nodes[0].spec_contains(x, y)) {
        lemma_hit_excluding(nodes.drop_first(), ex, x, y);
        assert forall|j: int| 1 <= j < nodes.len() implies nodes.drop_first()[j - 1] == nodes[j]
        by {}
    }
}

proof fn lemma_hit_excluding_at(nodes: Seq<NodeView>, ex: usize, x: int, y: int, i: int)
    requires
        0 <= i < nodes.len(),
        nodes[i].id != ex,
        nodes[i].spec_contains(x, y),
        forall|j: int|
            0 <= j < i ==> !(nodes[j].id != ex && #[trigger] nodes[j].spec_contains(x, y)),
    ensures
        hit_excluding(nodes, ex, x, y) == i,
    decreases nodes.len(),
{
    if i > 0 {
        assert forall|j: int|
            0 <= j < i - 1 implies !(nodes.drop_first()[j].id != ex
                && #[trigger] nodes.drop_first()[j].spec_contains(x, y)) by {
            assert(nodes.drop_first()[j] == nodes[j + 1]);
        }
        assert(nodes.drop_first()[i - 1] == nodes[i]);
        lemma_hit_excluding_at(nodes.drop_first(), ex, x, y, i - 1);
    }
}

/// Find the first node other than `ex` under `(x, y)`.
fn find_hit_excluding(nodes: &Vec<Node>, ex: usize, x: u16, y: u16) -> (r: Option<usize>)
    ensures
        match r {
            Some(i) => i == hit_excluding(nodes.deep_view(), ex, x as int, y as int) && i
                < nodes@.len(),
            None => hit_excluding(nodes.deep_view(), ex, x as int, y as int) == -1,
        },
{
    let n = nodes.len();
    for i in 0..n
        invariant
            n == nodes@.len(),
            forall|j: int|
                0 <= j < i ==> !(nodes.deep_view()[j].id != ex
                    && #[trigger] nodes.deep_view()[j].spec_contains(x as int, y as int)),
    {
        if nodes[i].id != ex && nodes[i].contains(x, y) {
            proof {
                lemma_hit_excluding_at(nodes.deep_view(), ex, x as int, y as int, i as int);
            }
            return Some(i);
        }
    }
    proof {
        lemma_hit_excluding(nodes.deep_view(), ex, x as int, y as int);
    }
    None
}

/// Where the context menu lands on screen: anchored at the click, pulled
/// back so that its 21 by 11 cells stay inside the terminal area.
pub open spec fn menu_rect(vp: Viewport, x: u16, y: u16) -> (int, int) {
    let sxp = vp.x + x;
    let syp = vp.y + y;
    let mxp: int = if sxp + 21 > vp.area_width {
        crate::renderer::sat_sub(vp.area_width as int, 21)
    } else {
        sxp
    };
    let myp: int = if syp + 11 > vp.area_height {
        crate::renderer::sat_sub(vp.area_height as int, 11)
    } else {
        syp
    };
    (mxp, myp)
}

/// Is the absolute cell `(col, row)` inside the open context menu?
pub open spec fn in_menu(vp: Viewport, x: u16, y: u16, col: int, row: int) -> bool {
    let r = menu_rect(vp, x, y);
    r.0 <= col < r.0 + 21 && r.1 <= row < r.1 + 11
}

/// The menu entry row under the absolute cell `row`.
pub open spec fn menu_row(vp: Viewport, x: u16, y: u16, row: int) -> int {
    crate::renderer::sat_sub(crate::renderer::sat_sub(row, menu_rect(vp, x, y).1), 1)
}

/// The state with a fresh context menu opened at canvas cell `(x, y)`.
pub open spec fn open_menu(v: AppStateView, x: u16, y: u16) -> AppStateView {
    AppStateView { mode: AppMode::ContextMenu { x, y, selected_index: 0 }, ..v }
}

/// A left-button press on the canvas: the topmost node's resize corner
/// arms a resize drag; its border arms a connector drag from the nearest
/// snapped anchor; its body arms a move drag, raises the node to the top
/// of the z-order and selects it exclusively; empty space clears the
/// selection and picks the topmost connection under the pointer, if any.
pub open spec fn step_left_down(v: AppStateView, mx: u16, my: u16) -> AppStateView {
    let v0 = AppStateView {
        dragging_node_id: None,
        resizing_node_id: None,
        partial_connection: None,
        ..v
    };
    let hit = top_hit(v0.nodes, mx as int, my as int);
    if hit >= 0 {
        let node = v0.nodes[hit];
        let offx = (mx - node.x) as u16;
        let offy = (my - node.y) as u16;
        let is_corner = mx == node.x + node.width - 1 && my == node.y + node.height - 1;
        let is_border = !is_corner && (mx == node.x || mx == node.x + node.width - 1 || my == node.y
            || my == node.y + node.height - 1);
        if is_corner {
            AppStateView { resizing_node_id: Some(node.id), ..v0 }
        } else if is_border {
            let i2 = node_index(v0.nodes, node.id);
            if i2 >= 0 {
                let nd = v0.nodes[i2];
                let snapped: (u16, u16) = if offy == 0 {
                    ((nd.width / 2) as u16, 0u16)
                } else if offy == nd.height - 1 {
                    ((nd.width / 2) as u16, (nd.height - 1) as u16)
                } else if offx == 0 {
                    (0u16, (nd.height / 2) as u16)
                } else {
                    ((nd.width - 1) as u16, (nd.height / 2) as u16)
                };
                AppStateView {
                    partial_connection: Some(
                        PartialConnection::Starting {
                            from_id: node.id,
                            from_offset: snapped,
                            current_pos: (mx, my),
                        },
                    ),
                    ..v0
                }
            } else {
                v0
            }
        } else {
            let v1 = AppStateView {
                dragging_node_id: Some(node.id),
                drag_offset: (offx, offy),
                ..v0
            };
            let i2 = node_index(v1.nodes, node.id);
            if i2 >= 0 {
                let cleared = clear_selected(v1.nodes);
                let sel = cleared.update(i2, NodeView { selected: true, ..cleared[i2] });
                let moved = sel.remove(i2).push(sel[i2]);
                AppStateView { nodes: moved, ..v1 }
            } else {
                v1
            }
        }
    } else {
        let v1 = AppStateView {
            mode: AppMode::Normal,
            selected_connection_index: None,
            nodes: clear_selected(v0.nodes),
            ..v0
        };
        let ch = top_conn_hit(v1.connections, mx as int, my as int, v1.nodes);
        if ch >= 0 {
            AppStateView { selected_connection_index: Some(ch as usize), ..v1 }
        } else {
            v1
        }
    }
}

/// A left-button drag: an in-progress connector tracks the pointer; a
/// resize drag sets the node's size from the pointer delta, at least 3 by
/// 3; a move drag sets its position from the pointer minus the grab
/// offset, clamped so the node stays inside the viewport.
pub open spec fn step_left_drag(v: AppStateView, mx: u16, my: u16, vp: Viewport) -> AppStateView {
    match v.partial_connection {
        Some(PartialConnection::Starting { from_id, from_offset, current_pos }) => AppStateView {
            partial_connection: Some(
                PartialConnection::Starting { from_id, from_offset, current_pos: (mx, my) },
            ),
            ..v
        },
        None => match v.resizing_node_id {
            Some(id) => {
                let i = node_index(v.nodes, id);
                if i >= 0 {
                    let n = v.nodes[i];
                    let w2 = crate::renderer::clamp_u16(
                        vstd::math::max(crate::renderer::sat_sub(mx as int, n.x as int) + 1, 3),
                    ) as u16;
                    let h2 = crate::renderer::clamp_u16(
                        vstd::math::max(crate::renderer::sat_sub(my as int, n.y as int) + 1, 3),
                    ) as u16;
                    AppStateView {
                        nodes: v.nodes.update(i, NodeView { width: w2, height: h2, ..n }),
                        ..v
                    }
                } else {
                    v
                }
            },
            None => match v.dragging_node_id {
                Some(id) => {
                    let i = node_index(v.nodes, id);
                    if i >= 0 {
                        let n = v.nodes[i];
                        let x1 = crate::renderer::sat_sub(mx as int, v.drag_offset.0 as int);
                        let y1 = crate::renderer::sat_sub(my as int, v.drag_offset.1 as int);
                        let x2 = vstd::math::min(
                            x1,
                            crate::renderer::sat_sub(vp.width as int, n.width as int),
                        );
                        let y2 = vstd::math::min(
                            y1,
                            crate::renderer::sat_sub(vp.height as int, n.height as int),
                        );
                        AppStateView {
                            nodes: v.nodes.update(
                                i,
                                NodeView { x: x2 as u16, y: y2 as u16, ..n },
                            ),
                            ..v
                        }
                    } else {
                        v
                    }
                },
                None => v,
            },
        },
    }
}

/// A left-button release: an in-progress connector ending over another
/// node commits an arrowed connection whose target anchor is the nearest
/// edge's midpoint; a move drag ending enters `Insert` on the dragged
/// node; all transient drag state is cleared.
pub open spec fn step_left_up(v: AppStateView, mx: u16, my: u16) -> AppStateView {
    let v1 = match v.partial_connection {
        Some(PartialConnection::Starting { from_id, from_offset, current_pos }) => {
            let t = hit_excluding(v.nodes, from_id, mx as int, my as int);
            if t >= 0 {
                let node = v.nodes[t];
                let dxl = mx - node.x;
                let dxr = node.x + node.width - 1 - mx;
                let dyt = my - node.y;
                let dyb = node.y + node.height - 1 - my;
                let mind = vstd::math::min(vstd::math::min(dxl, dxr), vstd::math::min(dyt, dyb));
                let to_off: (u16, u16) = if mind == dyt {
                    ((node.width / 2) as u16, 0u16)
                } else if mind == dyb {
                    ((node.width / 2) as u16, (node.height - 1) as u16)
                } else if mind == dxl {
                    (0u16, (node.height / 2) as u16)
                } else {
                    ((node.width - 1) as u16, (node.height / 2) as u16)
                };
                AppStateView {
                    connections: v.connections.push(
                        Connection {
                            from_id,
                            from_offset,
                            to_id: node.id,
                            to_offset: to_off,
                            has_arrow: true,
                        },
                    ),
                    ..v
                }
            } else {
                v
            }
        },
        None => match v.dragging_node_id {
            Some(id) => AppStateView { mode: AppMode::Insert(id), ..v },
            None => v,
        },
    };
    AppStateView { dragging_node_id: None, resizing_node_id: None, partial_connection: None, ..v1 }
}

/// One canvas mouse event by kind, at world cell `(mx, my)`.
pub open spec fn step_mouse_kind(
    v: AppStateView,
    kind: MouseKind,
    mx: u16,
    my: u16,
    vp: Viewport,
) -> AppStateView {
    match kind {
        MouseKind::LeftDown => step_left_down(v, mx, my),
        MouseKind::LeftDrag => step_left_drag(v, mx, my, vp),
        MouseKind::LeftUp => step_left_up(v, mx, my),
        MouseKind::RightDown => v,
    }
}

/// One mouse event applied to the whole state machine: events left of or
/// above the canvas are dropped; an open context menu captures events over
/// it (hover moves the highlight, a left click activates, a right click
/// reopens the menu at the pointer) and a left click outside it cancels
/// without further effect; a right click opens the menu; left-button
/// events act on the canvas in world coordinates.
pub open spec fn step_mouse(v: AppStateView, m: MouseInput, vp: Viewport) -> AppStateView {
    if m.column < vp.x || m.row < vp.y {
        v
    } else {
        let mxs = (m.column - vp.x) as u16;
        let mys = (m.row - vp.y) as u16;
        let mx = crate::renderer::clamp_u16(mxs + v.camera_offset.0) as u16;
        let my = crate::renderer::clamp_u16(mys + v.camera_offset.1) as u16;
        match v.mode {
            AppMode::ContextMenu { x, y, selected_index } => {
                if in_menu(vp, x, y, m.column as int, m.row as int) {
                    let ly = menu_row(vp, x, y, m.row as int);
                    if ly < 10 && ly != 4 && ly != 8 {
                        let v1 = AppStateView {
                            mode: AppMode::ContextMenu { x, y, selected_index: ly as usize },
                            ..v
                        };
                        if m.kind == MouseKind::LeftDown {
                            menu_activate(v1, x, y, ly)
                        } else if m.kind == MouseKind::RightDown {
                            open_menu(v1, mxs, mys)
                        } else {
                            v1
                        }
                    } else {
                        if m.kind == MouseKind::RightDown {
                            open_menu(v, mxs, mys)
                        } else {
                            v
                        }
                    }
                } else if m.kind == MouseKind::LeftDown {
                    AppStateView { mode: AppMode::Normal, ..v }
                } else if m.kind == MouseKind::RightDown {
                    open_menu(v, mxs, mys)
                } else {
                    step_mouse_kind(v, m.kind, mx, my, vp)
                }
            },
            _ => {
                if m.kind == MouseKind::RightDown {
                    open_menu(v, mxs, mys)
                } else {
                    step_mouse_kind(v, m.kind, mx, my, vp)
                }
            },
        }
    }
}

/// The machine limits a mouse event must respect: a menu activation needs
/// a fresh id below the integer ceiling, and arming a connector from a
/// node's border needs that node's size to be positive.
pub open spec fn mouse_ok(v: AppStateView, m: MouseInput, vp: Viewport) -> bool {
    if m.column < vp.x || m.row < vp.y {
        true
    } else {
        let mxs = (m.column - vp.x) as u16;
        let mys = (m.row - vp.y) as u16;
        let mx = crate::renderer::clamp_u16(mxs + v.camera_offset.0) as u16;
        let my = crate::renderer::clamp_u16(mys + v.camera_offset.1) as u16;
        match v.mode {
            AppMode::ContextMenu { x, y, selected_index } => (in_menu(
                vp,
                x,
                y,
                m.column as int,
                m.row as int,
            ) && menu_row(vp, x, y, m.row as int) < 10 && menu_row(vp, x, y, m.row as int) != 4
                && menu_row(vp, x, y, m.row as int) != 8 && m.kind == MouseKind::LeftDown)
                ==> next_id(v.nodes) <= usize::MAX,
            _ => m.kind == MouseKind::LeftDown ==> left_down_ok(v, mx, my),
        }
    }
}

/// What a left press needs: when it lands on a node's border (not the
/// resize corner), the node refound by id must have a positive size for
/// the anchor arithmetic.
pub open spec fn left_down_ok(v: AppStateView, mx: u16, my: u16) -> bool {
    let hit = top_hit(v.nodes, mx as int, my as int);
    if hit >= 0 {
        let node = v.nodes[hit];
        let is_corner = mx == node.x + node.width - 1 && my == node.y + node.height - 1;
        let is_border = !is_corner && (mx == node.x || mx == node.x + node.width - 1 || my == node.y
            || my == node.y + node.height - 1);
        let i2 = node_index(v.nodes, node.id);
        (is_border && i2 >= 0) ==> (v.nodes[i2].width >= 1 && v.nodes[i2].height >= 1)
    } else {
        true
    }
}

/// Apply a left press at world cell `(mx, my)`.
fn handle_left_down(state: &mut AppState, mx: u16, my: u16)
    requires
        left_down_ok(old(state)@, mx, my),
    ensures
        final(state)@ == step_left_down(old(state)@, mx, my),
{
    state.dragging_node_id = None;
    state.resizing_node_id = None;
    state.partial_connection = None;
    let ghost v0 = state@;

    match find_top_hit(&state.nodes, mx, my) {
        Some(hit) => {
            proof {
                lemma_top_hit(state.nodes.deep_view(), mx as int, my as int);
                assert(v0.nodes[hit as int] == state.nodes@[hit as int]@);
            }
            let node_id = state.nodes[hit].id;
            let nx = state.nodes[hit].x;
            let ny = state.nodes[hit].y;
            let nw = state.nodes[hit].width;
            let nh = state.nodes[hit].height;
            let offx = mx - nx;
            let offy = my - ny;
            let is_corner = mx as u32 == nx as u32 + nw as u32 - 1 && my as u32 == ny as u32
                + nh as u32 - 1;
            let is_border = !is_corner && (mx == nx || mx as u32 == nx as u32 + nw as u32 - 1 || my
                == ny || my as u32 == ny as u32 + nh as u32 - 1);
            if is_corner {
                state.resizing_node_id = Some(node_id);
            } else if is_border {
                match crate::model::find_node_position(&state.nodes, node_id) {
                    Some(i2) => {
                        proof {
                            assert(v0.nodes[i2 as int] == state.nodes@[i2 as int]@);
                        }
                        let nd = &state.nodes[i2];
                        let snapped: (u16, u16) = if offy == 0 {
                            (nd.width / 2, 0)
                        } else if nd.height >= 1 && offy == nd.height - 1 {
                            (nd.width / 2, nd.height - 1)
                        } else if offx == 0 {
                            (0, nd.height / 2)
                        } else {
                            (nd.width - 1, nd.height / 2)
                        };
                        state.partial_connection = Some(
                            PartialConnection::Starting {
                                from_id: node_id,
                                from_offset: snapped,
                                current_pos: (mx, my),
                            },
                        );
                    },
                    None => {
                    },
                }
            } else {
                state.dragging_node_id = Some(node_id);
                state.drag_offset = (offx, offy);
                match crate::model::find_node_position(&state.nodes, node_id) {
                    Some(i2) => {
                        unselect_all(&mut state.nodes);
                        let mut nd = state.nodes[i2].duplicate();
                        nd.selected = true;
                        let ghost sel_nd = nd@;
                        state.nodes[i2] = nd;
                        let ghost sel_nodes = state.nodes.deep_view();
                        proof {
                            assert(sel_nodes =~= clear_selected(v0.nodes).update(
                                i2 as int,
                                NodeView {
                                    selected: true,
                                    ..clear_selected(v0.nodes)[i2 as int]
                                },
                            ));
                        }
                        let moved = state.nodes.remove(i2);
                        state.nodes.push(moved);
                        proof {
                            assert(state.nodes.deep_view() =~= sel_nodes.remove(i2 as int).push(
                                sel_nodes[i2 as int],
                            ));
                        }
                    },
                    None => {
                    },
                }
            }
        },
        None => {
            state.mode = AppMode::Normal;
            state.selected_connection_index = None;
            unselect_all(&mut state.nodes);
            match find_top_conn_hit(&state.connections, mx, my, &state.nodes) {
                Some(ci) => {
                    state.selected_connection_index = Some(ci);
                },
                None => {
                },
            }
        },
    }
}

/// Apply a left drag to world cell `(mx, my)`.
fn handle_left_drag(state: &mut AppState, mx: u16, my: u16, vp: Viewport)
    ensures
        final(state)@ == step_left_drag(old(state)@, mx, my, vp),
{
    let is_partial = match &state.partial_connection {
        Some(PartialConnection::Starting { .. }) => true,
        None => false,
    };
    if is_partial {
        match &state.partial_connection {
            Some(PartialConnection::Starting { from_id, from_offset, current_pos }) => {
                state.partial_connection = Some(
                    PartialConnection::Starting {
                        from_id: *from_id,
                        from_offset: *from_offset,
                        current_pos: (mx, my),
                    },
                );
            },
            None => {
            },
        }
    } else if let Some(id) = state.resizing_node_id {
        match crate::model::find_node_position(&state.nodes, id) {
            Some(i) => {
                proof {
                    assert(old(state)@.nodes[i as int] == state.nodes@[i as int]@);
                }
                let mut nd = state.nodes[i].duplicate();
                let wraw: u32 = if mx > nd.x {
                    mx as u32 - nd.x as u32 + 1
                } else {
                    1
                };
                let w3: u32 = if wraw > 3 {
                    wraw
                } else {
                    3
                };
                nd.width = if w3 > 0xffff {
                    0xffff
                } else {
                    w3 as u16
                };
                let hraw: u32 = if my > nd.y {
                    my as u32 - nd.y as u32 + 1
                } else {
                    1
                };
                let h3: u32 = if hraw > 3 {
                    hraw
                } else {
                    3
                };
                nd.height = if h3 > 0xffff {
                    0xffff
                } else {
                    h3 as u16
                };
                let ghost resized = nd@;
                state.nodes[i] = nd;
                proof {
                    assert(state.nodes.deep_view() =~= old(state)@.nodes.update(i as int, resized));
                }
            },
            None => {
            },
        }
    } else if let Some(id) = state.dragging_node_id {
        match crate::model::find_node_position(&state.nodes, id) {
            Some(i) => {
                proof {
                    assert(old(state)@.nodes[i as int] == state.nodes@[i as int]@);
                }
                let mut nd = state.nodes[i].duplicate();
                let x1: u16 = if mx > state.drag_offset.0 {
                    mx - state.drag_offset.0
                } else {
                    0
                };
                let y1: u16 = if my > state.drag_offset.1 {
                    my - state.drag_offset.1
                } else {
                    0
                };
                let xcap: u16 = if vp.width > nd.width {
                    vp.width - nd.width
                } else {
                    0
                };
                let ycap: u16 = if vp.height > nd.height {
                    vp.height - nd.height
                } else {
                    0
                };
                nd.x = if x1 < xcap {
                    x1
                } else {
                    xcap
                };
                nd.y = if y1 < ycap {
                    y1
                } else {
                    ycap
                };
                let ghost moved = nd@;
                state.nodes[i] = nd;
                proof {
                    assert(state.nodes.deep_view() =~= old(state)@.nodes.update(i as int, moved));
                }
            },
            None => {
            },
        }
    }
}

/// Apply a left release at world cell `(mx, my)`.
fn handle_left_up(state: &mut AppState, mx: u16, my: u16)
    ensures
        final(state)@ == step_left_up(old(state)@, mx, my),
{
    let partial = match &state.partial_connection {
        Some(PartialConnection::Starting { from_id, from_offset, current_pos }) => Some(
            (*from_id, *from_offset),
        ),
        None => None,
    };
    match partial {
        Some((from_id, from_offset)) => {
            match find_hit_excluding(&state.nodes, from_id, mx, my) {
                Some(t) => {
                    proof {
                        lemma_hit_excluding(state.nodes.deep_view(), from_id, mx as int, my as int);
                        assert(old(state)@.nodes[t as int] == state.nodes@[t as int]@);
                    }
                    let node = &state.nodes[t];
                    let dxl: u32 = mx as u32 - node.x as u32;
                    let dxr: u32 = node.x as u32 + node.width as u32 - 1 - mx as u32;
                    let dyt: u32 = my as u32 - node.y as u32;
                    let dyb: u32 = node.y as u32 + node.height as u32 - 1 - my as u32;
                    let m1 = crate::model::umin(dxl, dxr);
                    let m2 = crate::model::umin(dyt, dyb);
                    let mind = crate::model::umin(m1, m2);
                    let to_offset: (u16, u16) = if mind == dyt {
                        (node.width / 2, 0)
                    } else if mind == dyb {
                        (node.width / 2, node.height - 1)
                    } else if mind == dxl {
                        (0, node.height / 2)
                    } else {
                        (node.width - 1, node.height / 2)
                    };
                    state.connections.push(
                        Connection {
                            from_id,
                            from_offset,
                            to_id: node.id,
                            to_offset,
                            has_arrow: true,
                        },
                    );
                },
                None => {
                },
            }
        },
        None => {
            match state.dragging_node_id {
                Some(id) => {
                    state.mode = AppMode::Insert(id);
                },
                None => {
                },
            }
        },
    }
    state.dragging_node_id = None;
    state.resizing_node_id = None;
    state.partial_connection = None;
}

/// Apply one mouse event to the editor: context-menu capture, menu
/// opening on right click, and the left button's press, drag and release
/// on the canvas.
pub fn handle_mouse(state: &mut AppState, m: MouseInput, vp: Viewport)
    requires
        mouse_ok(old(state)@, m, vp),
    ensures
        final(state)@ == step_mouse(old(state)@, m, vp),
{
    if m.column < vp.x || m.row < vp.y {
        return ;
    }
    let mxs = m.column - vp.x;
    let mys = m.row - vp.y;
    let mx = world_from_screen(mxs, state.camera_offset.0);
    let my = world_from_screen(mys, state.camera_offset.1);

    let mode = state.mode;
    match mode {
        AppMode::ContextMenu { x, y, selected_index } => {
            let sxp: u32 = vp.x as u32 + x as u32;
            let syp: u32 = vp.y as u32 + y as u32;
            let menu_x: u32 = if sxp + 21 > vp.area_width as u32 {
                if vp.area_width >= 21 {
                    vp.area_width as u32 - 21
                } else {
                    0
                }
            } else {
                sxp
            };
            let menu_y: u32 = if syp + 11 > vp.area_height as u32 {
                if vp.area_height >= 11 {
                    vp.area_height as u32 - 11
                } else {
                    0
                }
            } else {
                syp
            };
            let inside = m.column as u32 >= menu_x && (m.column as u32) < menu_x + 21 && m.row
                as u32 >= menu_y && (m.row as u32) < menu_y + 11;
            if inside {
                let past: u32 = if m.row as u32 > menu_y {
                    m.row as u32 - menu_y
                } else {
                    0
                };
                let local_y: u32 = if past > 1 {
                    past - 1
                } else {
                    0
                };
                if local_y < 10 && local_y != 4 && local_y != 8 {
                    state.mode = AppMode::ContextMenu {
                        x,
                        y,
                        selected_index: local_y as usize,
                    };
                    match m.kind {
                        MouseKind::LeftDown => {
                            activate_menu_entry(state, x, y, local_y as usize);
                        },
                        MouseKind::RightDown => {
                            state.mode = AppMode::ContextMenu { x: mxs, y: mys, selected_index: 0 };
                        },
                        _ => {
                        },
                    }
                } else {
                    match m.kind {
                        MouseKind::RightDown => {
                            state.mode = AppMode::ContextMenu { x: mxs, y: mys, selected_index: 0 };
                        },
                        _ => {
                        },
                    }
                }
            } else {
                match m.kind {
                    MouseKind::LeftDown => {
                        state.mode = AppMode::Normal;
                    },
                    MouseKind::RightDown => {
                        state.mode = AppMode::ContextMenu { x: mxs, y: mys, selected_index: 0 };
                    },
                    MouseKind::LeftDrag => {
                        handle_left_drag(state, mx, my, vp);
                    },
                    MouseKind::LeftUp => {
                        handle_left_up(state, mx, my);
                    },
                }
            }
        },
        _ => {
            match m.kind {
                MouseKind::RightDown => {
                    state.mode = AppMode::ContextMenu { x: mxs, y: mys, selected_index: 0 };
                },
                MouseKind::LeftDown => {
                    handle_left_down(state, mx, my);
                },
                MouseKind::LeftDrag => {
                    handle_left_drag(state, mx, my, vp);
                },
                MouseKind::LeftUp => {
                    handle_left_up(state, mx, my);
                },
            }
        },
    }
}

proof fn lemma_ids_same(nodes: Seq<NodeView>, other: Seq<NodeView>)
    requires
        ids_unique(nodes),
        other.len() == nodes.len(),
        forall|i: int| 0 <= i < nodes.len() ==> (#[trigger] other[i].id) == nodes[i].id,
    ensures
        ids_unique(other),
{
}

/// Raising a node to the top of the z-order keeps ids unique.
proof fn lemma_raise_keeps_ids_unique(nodes: Seq<NodeView>, at: int)
    requires
        ids_unique(nodes),
        0 <= at < nodes.len(),
    ensures
        ids_unique(nodes.remove(at).push(nodes[at])),
{
    let moved = nodes.remove(at).push(nodes[at]);
    assert forall|i: int, j: int|
        0 <= i < j < moved.len() implies (#[trigger] moved[i].id) != (#[trigger] moved[j].id) by {
        let i0 = if i < at {
            i
        } else {
            i + 1
        };
        let j0 = if j == moved.len() - 1 {
            at
        } else if j < at {
            j
        } else {
            j + 1
        };
        assert(moved[i] == nodes[i0]);
        assert(moved[j] == nodes[j0]);
    }
}

/// The largest id is never negative.
proof fn lemma_max_id_nonneg(nodes: Seq<NodeView>)
    ensures
        max_id(nodes) >= 0,
    decreases nodes.len(),
{
    if nodes.len() > 0 {
        lemma_max_id_nonneg(nodes.drop_last());
    }
}

proof fn lemma_created_keeps_ids_unique(v: AppStateView, shape: ShapeType, x: u16, y: u16)
    requires
        ids_unique(v.nodes),
        next_id(v.nodes) <= usize::MAX,
    ensures
        ids_unique(created(v, shape, x, y).nodes),
{
    lemma_max_id_nonneg(v.nodes);
    let node = fresh_node(v.nodes, shape, x, y);
    lemma_create_keeps_ids_unique(v.nodes, node);
    lemma_ids_same(v.nodes.push(node), deselect_others(v.nodes.push(node), node.id));
}

proof fn lemma_menu_activate_keeps_ids_unique(v: AppStateView, x: u16, y: u16, sel: int)
    requires
        ids_unique(v.nodes),
        next_id(v.nodes) <= usize::MAX,
    ensures
        ids_unique(menu_activate(v, x, y, sel).nodes),
{
    let wx = crate::renderer::clamp_u16(x + v.camera_offset.0) as u16;
    let wy = crate::renderer::clamp_u16(y + v.camera_offset.1) as u16;
    if sel == 0 {
        lemma_created_keeps_ids_unique(v, ShapeType::Box, wx, wy);
    } else if sel == 1 {
        lemma_created_keeps_ids_unique(v, ShapeType::Diamond, wx, wy);
    } else if sel == 2 {
        lemma_created_keeps_ids_unique(v, ShapeType::Text, wx, wy);
    } else if sel == 3 {
        lemma_created_keeps_ids_unique(v, ShapeType::Frame, wx, wy);
    } else if sel == 7 {
        let h = bottom_hit(v.nodes, wx as int, wy as int);
        if h >= 0 {
            lemma_bottom_hit(v.nodes, wx as int, wy as int);
            lemma_remove_keeps_ids_unique(v.nodes, h);
        }
    }
}

/// Every key press preserves id uniqueness: a create takes the fresh id,
/// above every live one, and every other edit keeps or removes ids.
pub proof fn lemma_step_key_preserves_ids_unique(v: AppStateView, key: KeyInput)
    requires
        ids_unique(v.nodes),
        key_ok(v, key),
    ensures
        ids_unique(step_key(v, key).0.nodes),
{
    match v.mode {
        AppMode::Insert(id) => {
            match key {
                KeyInput::Esc => {
                    lemma_ids_same(v.nodes, clear_selected(v.nodes));
                },
                KeyInput::Tab => {
                    if v.nodes.len() > 0 {
                        let cur = node_index(v.nodes, id);
                        let next = if cur >= 0 {
                            (cur + 1) % (v.nodes.len() as int)
                        } else {
                            0
                        };
                        lemma_ids_same(v.nodes, select_exactly(v.nodes, next));
                    }
                },
                KeyInput::Char(_) | KeyInput::Enter | KeyInput::Backspace => {
                    let i = node_index(v.nodes, id);
                    if i >= 0 {
                        crate::model::lemma_node_index(v.nodes, id);
                        let upd = v.nodes.update(i, edited_node(v.nodes[i], key));
                        assert forall|j: int|
                            0 <= j < v.nodes.len() implies (#[trigger] upd[j].id)
                            == v.nodes[j].id by {
                            if j != i {
                                assert(upd[j] == v.nodes[j]);
                            }
                        }
                        lemma_ids_same(v.nodes, upd);
                    }
                },
                _ => {
                },
            }
        },
        AppMode::Leader => {
            match key {
                KeyInput::Char(c) => {
                    if c == 'n' || c == 'd' || c == 't' || c == 'f' {
                        let shape = if c == 'n' {
                            ShapeType::Box
                        } else if c == 'd' {
                            ShapeType::Diamond
                        } else if c == 'f' {
                            ShapeType::Frame
                        } else {
                            ShapeType::Text
                        };
                        let pos = spawn_position(v.nodes);
                        lemma_created_keeps_ids_unique(v, shape, pos.0 as u16, pos.1 as u16);
                    }
                },
                _ => {
                },
            }
        },
        AppMode::Help => {
        },
        AppMode::Resize(id) => {
            let i = node_index(v.nodes, id);
            if i >= 0 {
                crate::model::lemma_node_index(v.nodes, id);
                let after = step_resize(v, id, key);
                assert forall|j: int|
                    0 <= j < after.nodes.len() implies (#[trigger] after.nodes[j].id)
                    == v.nodes[j].id by {
                    if j != i {
                        assert(after.nodes[j] == v.nodes[j]);
                    }
                }
                lemma_ids_same(v.nodes, after.nodes);
            }
        },
        AppMode::ContextMenu { x, y, selected_index } => {
            match key {
                KeyInput::Enter => {
                    lemma_menu_activate_keeps_ids_unique(v, x, y, selected_index as int);
                },
                KeyInput::Char(c) => {
                    if c == ' ' {
                        lemma_menu_activate_keeps_ids_unique(v, x, y, selected_index as int);
                    }
                },
                _ => {
                },
            }
        },
        AppMode::Normal => {
            match key {
                KeyInput::Esc => {
                    lemma_ids_same(v.nodes, clear_selected(v.nodes));
                },
                KeyInput::Tab | KeyInput::BackTab => {
                    let after = step_normal(v, key).0;
                    lemma_ids_same(v.nodes, after.nodes);
                },
                KeyInput::Delete | KeyInput::Backspace => {
                    match v.selected_connection_index {
                        Some(_) => {
                        },
                        None => {
                            let s = selected_index(v.nodes);
                            if s >= 0 {
                                lemma_selected_index(v.nodes);
                                lemma_remove_keeps_ids_unique(v.nodes, s);
                            }
                        },
                    }
                },
                KeyInput::Up | KeyInput::Down | KeyInput::Left | KeyInput::Right => {
                    let s = selected_index(v.nodes);
                    if s >= 0 {
                        lemma_selected_index(v.nodes);
                        let after = step_normal(v, key).0;
                        assert forall|j: int|
                            0 <= j < after.nodes.len() implies (#[trigger] after.nodes[j].id)
                            == v.nodes[j].id by {
                            if j != s {
                                assert(after.nodes[j] == v.nodes[j]);
                            }
                        }
                        lemma_ids_same(v.nodes, after.nodes);
                    }
                },
                _ => {
                },
            }
        },
    }
}

/// Every mouse event preserves id uniqueness: a menu create takes the
/// fresh id, a raise to the top is a permutation, and a delete only
/// removes.
pub proof fn lemma_step_mouse_preserves_ids_unique(v: AppStateView, m: MouseInput, vp: Viewport)
    requires
        ids_unique(v.nodes),
        mouse_ok(v, m, vp),
    ensures
        ids_unique(step_mouse(v, m, vp).nodes),
{
    if !(m.column < vp.x || m.row < vp.y) {
        let mxs = (m.column - vp.x) as u16;
        let mys = (m.row - vp.y) as u16;
        let mx = crate::renderer::clamp_u16(mxs + v.camera_offset.0) as u16;
        let my = crate::renderer::clamp_u16(mys + v.camera_offset.1) as u16;
        match v.mode {
            AppMode::ContextMenu { x, y, selected_index } => {
                if in_menu(vp, x, y, m.column as int, m.row as int) {
                    let ly = menu_row(vp, x, y, m.row as int);
                    if ly < 10 && ly != 4 && ly != 8 {
                        let v1 = AppStateView {
                            mode: AppMode::ContextMenu { x, y, selected_index: ly as usize },
                            ..v
                        };
                        if m.kind == MouseKind::LeftDown {
                            lemma_menu_activate_keeps_ids_unique(v1, x, y, ly);
                        }
                    }
                } else if m.kind == MouseKind::LeftDown || m.kind == MouseKind::RightDown {
                } else {
                    lemma_step_mouse_kind_ids(v, m.kind, mx, my, vp);
                }
            },
            _ => {
                if m.kind != MouseKind::RightDown {
                    lemma_step_mouse_kind_ids(v, m.kind, mx, my, vp);
                }
            },
        }
    }
}

proof fn lemma_step_mouse_kind_ids(v: AppStateView, kind: MouseKind, mx: u16, my: u16, vp: Viewport)
    requires
        ids_unique(v.nodes),
    ensures
        ids_unique(step_mouse_kind(v, kind, mx, my, vp).nodes),
{
    match kind {
        MouseKind::LeftDown => {
            let v0 = AppStateView {
                dragging_node_id: None,
                resizing_node_id: None,
                partial_connection: None,
                ..v
            };
            let hit = top_hit(v0.nodes, mx as int, my as int);
            if hit >= 0 {
                let node = v0.nodes[hit];
                let i2 = node_index(v0.nodes, node.id);
                if i2 >= 0 {
                    crate::model::lemma_node_index(v0.nodes, node.id);
                    let cleared = clear_selected(v0.nodes);
                    lemma_ids_same(v0.nodes, cleared);
                    let sel = cleared.update(i2, NodeView { selected: true, ..cleared[i2] });
                    assert forall|j: int|
                        0 <= j < sel.len() implies (#[trigger] sel[j].id) == cleared[j].id by {
                        if j != i2 {
                            assert(sel[j] == cleared[j]);
                        }
                    }
                    lemma_ids_same(cleared, sel);
                    lemma_raise_keeps_ids_unique(sel, i2);
                }
            } else {
                lemma_ids_same(v0.nodes, clear_selected(v0.nodes));
            }
        },
        MouseKind::LeftDrag => {
            match v.partial_connection {
                Some(_) => {
                },
                None => {
                    match v.resizing_node_id {
                        Some(id) => {
                            let i = node_index(v.nodes, id);
                            if i >= 0 {
                                crate::model::lemma_node_index(v.nodes, id);
                                let after = step_left_drag(v, mx, my, vp);
                                assert forall|j: int|
                                    0 <= j < after.nodes.len() implies (
                                #[trigger] after.nodes[j].id) == v.nodes[j].id by {
                                    if j != i {
                                        assert(after.nodes[j] == v.nodes[j]);
                                    }
                                }
                                lemma_ids_same(v.nodes, after.nodes);
                            }
                        },
                        None => {
                            match v.dragging_node_id {
                                Some(id) => {
                                    let i = node_index(v.nodes, id);
                                    if i >= 0 {
                                        crate::model::lemma_node_index(v.nodes, id);
                                        let after = step_left_drag(v, mx, my, vp);
                                        assert forall|j: int|
                                            0 <= j < after.nodes.len() implies (
                                        #[trigger] after.nodes[j].id) == v.nodes[j].id by {
                                            if j != i {
                                                assert(after.nodes[j] == v.nodes[j]);
                                            }
                                        }
                                        lemma_ids_same(v.nodes, after.nodes);
                                    }
                                },
                                None => {
                                },
                            }
                        },
                    }
                },
            }
        },
        MouseKind::LeftUp => {
        },
        MouseKind::RightDown => {
        },
    }
}

/// The size invariant of the model: every node is at least one row high,
/// and every node that carries an outline (anything but free text, whose
/// width tracks its longest line) is at least three columns wide. Creates,
/// resizes and auto-fits all maintain it.
pub open spec fn sizes_ok(nodes: Seq<NodeView>) -> bool {
    forall|i: int|
        0 <= i < nodes.len() ==> ((#[trigger] nodes[i].height) >= 1 && (nodes[i].shape
            != ShapeType::Text ==> nodes[i].width >= 3))
}

/// One node keeps the invariant.
pub open spec fn size_ok(n: NodeView) -> bool {
    n.height >= 1 && (n.shape != ShapeType::Text ==> n.width >= 3)
}

proof fn lemma_sizes_same_geometry(nodes: Seq<NodeView>, other: Seq<NodeView>)
    requires
        sizes_ok(nodes),
        other.len() == nodes.len(),
        forall|i: int|
            0 <= i < nodes.len() ==> ((#[trigger] other[i].height) == nodes[i].height
                && other[i].width == nodes[i].width && other[i].shape == nodes[i].shape),
    ensures
        sizes_ok(other),
{
}

proof fn lemma_sizes_update(nodes: Seq<NodeView>, i: int, n2: NodeView)
    requires
        sizes_ok(nodes),
        0 <= i < nodes.len(),
        size_ok(n2),
    ensures
        sizes_ok(nodes.update(i, n2)),
{
    assert forall|j: int|
        0 <= j < nodes.update(i, n2).len() implies ((#[trigger] nodes.update(i, n2)[j].height) >= 1
        && (nodes.update(i, n2)[j].shape != ShapeType::Text ==> nodes.update(i, n2)[j].width
        >= 3)) by {
        if j != i {
            assert(nodes.update(i, n2)[j] == nodes[j]);
        }
    }
}

proof fn lemma_sizes_remove(nodes: Seq<NodeView>, i: int)
    requires
        sizes_ok(nodes),
        0 <= i < nodes.len(),
    ensures
        sizes_ok(nodes.remove(i)),
{
    assert forall|j: int|
        0 <= j < nodes.remove(i).len() implies ((#[trigger] nodes.remove(i)[j].height) >= 1 && (
    nodes.remove(i)[j].shape != ShapeType::Text ==> nodes.remove(i)[j].width >= 3)) by {
        if j < i {
            assert(nodes.remove(i)[j] == nodes[j]);
        } else {
            assert(nodes.remove(i)[j] == nodes[j + 1]);
        }
    }
}

proof fn lemma_sizes_push(nodes: Seq<NodeView>, n2: NodeView)
    requires
        sizes_ok(nodes),
        size_ok(n2),
    ensures
        sizes_ok(nodes.push(n2)),
{
    assert forall|j: int|
        0 <= j < nodes.push(n2).len() implies ((#[trigger] nodes.push(n2)[j].height) >= 1 && (
    nodes.push(n2)[j].shape != ShapeType::Text ==> nodes.push(n2)[j].width >= 3)) by {
        if j < nodes.len() {
            assert(nodes.push(n2)[j] == nodes[j]);
        }
    }
}

proof fn lemma_sizes_created(v: AppStateView, shape: ShapeType, x: u16, y: u16)
    requires
        sizes_ok(v.nodes),
    ensures
        sizes_ok(created(v, shape, x, y).nodes),
{
    let node = fresh_node(v.nodes, shape, x, y);
    lemma_sizes_push(v.nodes, node);
    lemma_sizes_same_geometry(
        v.nodes.push(node),
        deselect_others(v.nodes.push(node), node.id),
    );
}

proof fn lemma_sizes_fitted(n: NodeView)
    requires
        n.shape == ShapeType::Text,
        n.text.len() <= 0xfffe,
    ensures
        size_ok(fitted(n)),
{
    crate::text::lemma_split_on_len(n.text, '\n');
    crate::text::lemma_split_on_bounds(n.text, '\n');
}

proof fn lemma_sizes_menu_activate(v: AppStateView, x: u16, y: u16, sel: int)
    requires
        sizes_ok(v.nodes),
    ensures
        sizes_ok(menu_activate(v, x, y, sel).nodes),
{
    let wx = crate::renderer::clamp_u16(x + v.camera_offset.0) as u16;
    let wy = crate::renderer::clamp_u16(y + v.camera_offset.1) as u16;
    if sel == 0 {
        lemma_sizes_created(v, ShapeType::Box, wx, wy);
    } else if sel == 1 {
        lemma_sizes_created(v, ShapeType::Diamond, wx, wy);
    } else if sel == 2 {
        lemma_sizes_created(v, ShapeType::Text, wx, wy);
    } else if sel == 3 {
        lemma_sizes_created(v, ShapeType::Frame, wx, wy);
    } else if sel == 7 {
        let h = bottom_hit(v.nodes, wx as int, wy as int);
        if h >= 0 {
            lemma_bottom_hit(v.nodes, wx as int, wy as int);
            lemma_sizes_remove(v.nodes, h);
        }
    }
}

/// Every key press preserves the size invariant: after any create, resize
/// or auto-fit driven by the keyboard, every node still has `height >= 1`,
/// and every outlined node still has `width >= 3`.
pub proof fn lemma_step_key_preserves_sizes(v: AppStateView, key: KeyInput)
    requires
        sizes_ok(v.nodes),
        key_ok(v, key),
    ensures
        sizes_ok(step_key(v, key).0.nodes),
{
    match v.mode {
        AppMode::Insert(id) => {
            match key {
                KeyInput::Esc => {
                    lemma_sizes_same_geometry(v.nodes, clear_selected(v.nodes));
                },
                KeyInput::Tab => {
                    if v.nodes.len() > 0 {
                        let cur = node_index(v.nodes, id);
                        let next = if cur >= 0 {
                            (cur + 1) % (v.nodes.len() as int)
                        } else {
                            0
                        };
                        lemma_sizes_same_geometry(v.nodes, select_exactly(v.nodes, next));
                    }
                },
                KeyInput::Char(_) | KeyInput::Enter | KeyInput::Backspace => {
                    let i = node_index(v.nodes, id);
                    if i >= 0 {
                        crate::model::lemma_node_index(v.nodes, id);
                        let n2 = edited_node(v.nodes[i], key);
                        if v.nodes[i].shape == ShapeType::Text {
                            lemma_sizes_fitted(
                                match key {
                                    KeyInput::Char(c) => NodeView {
                                        text: v.nodes[i].text.push(c),
                                        ..v.nodes[i]
                                    },
                                    KeyInput::Enter => NodeView {
                                        text: v.nodes[i].text.push('\n'),
                                        ..v.nodes[i]
                                    },
                                    _ => NodeView {
                                        text: if v.nodes[i].text.len() > 0 {
                                            v.nodes[i].text.drop_last()
                                        } else {
                                            v.nodes[i].text
                                        },
                                        ..v.nodes[i]
                                    },
                                },
                            );
                        }
                        lemma_sizes_update(v.nodes, i, n2);
                    }
                },
                _ => {
                },
            }
        },
        AppMode::Leader => {
            match key {
                KeyInput::Char(c) => {
                    if c == 'n' || c == 'd' || c == 't' || c == 'f' {
                        let shape = if c == 'n' {
                            ShapeType::Box
                        } else if c == 'd' {
                            ShapeType::Diamond
                        } else if c == 'f' {
                            ShapeType::Frame
                        } else {
                            ShapeType::Text
                        };
                        let pos = spawn_position(v.nodes);
                        lemma_sizes_created(v, shape, pos.0 as u16, pos.1 as u16);
                    }
                },
                _ => {
                },
            }
        },
        AppMode::Help => {
        },
        AppMode::Resize(id) => {
            let i = node_index(v.nodes, id);
            if i >= 0 {
                crate::model::lemma_node_index(v.nodes, id);
                let n = v.nodes[i];
                match key {
                    KeyInput::Char(c) => {
                        if c == '+' || c == '=' {
                            lemma_sizes_update(
                                v.nodes,
                                i,
                                NodeView {
                                    width: (n.width + 2) as u16,
                                    height: (n.height + 1) as u16,
                                    ..n
                                },
                            );
                        } else if c == '-' || c == '_' {
                            lemma_sizes_update(
                                v.nodes,
                                i,
                                NodeView {
                                    width: vstd::math::max(
                                        crate::renderer::sat_sub(n.width as int, 2),
                                        3,
                                    ) as u16,
                                    height: vstd::math::max(
                                        crate::renderer::sat_sub(n.height as int, 1),
                                        1,
                                    ) as u16,
                                    ..n
                                },
                            );
                        }
                    },
                    _ => {
                    },
                }
            }
        },
        AppMode::ContextMenu { x, y, selected_index } => {
            match key {
                KeyInput::Enter => {
                    lemma_sizes_menu_activate(v, x, y, selected_index as int);
                },
                KeyInput::Char(c) => {
                    if c == ' ' {
                        lemma_sizes_menu_activate(v, x, y, selected_index as int);
                    }
                },
                _ => {
                },
            }
        },
        AppMode::Normal => {
            match key {
                KeyInput::Esc => {
                    lemma_sizes_same_geometry(v.nodes, clear_selected(v.nodes));
                },
                KeyInput::Tab | KeyInput::BackTab => {
                    if v.nodes.len() > 0 {
                        let cur = selected_index(v.nodes);
                        let next = if key == KeyInput::Tab {
                            if cur >= 0 {
                                (cur + 1) % (v.nodes.len() as int)
                            } else {
                                0
                            }
                        } else {
                            if cur >= 0 {
                                (cur + v.nodes.len() - 1) % (v.nodes.len() as int)
                            } else {
                                v.nodes.len() - 1
                            }
                        };
                        lemma_sizes_same_geometry(v.nodes, select_exactly(v.nodes, next));
                    }
                },
                KeyInput::Delete | KeyInput::Backspace => {
                    match v.selected_connection_index {
                        Some(_) => {
                        },
                        None => {
                            let s = selected_index(v.nodes);
                            if s >= 0 {
                                lemma_selected_index(v.nodes);
                                lemma_sizes_remove(v.nodes, s);
                            }
                        },
                    }
                },
                KeyInput::Up | KeyInput::Down | KeyInput::Left | KeyInput::Right => {
                    let s = selected_index(v.nodes);
                    if s >= 0 {
                        lemma_selected_index(v.nodes);
                        let n = v.nodes[s];
                        let n2 = match key {
                            KeyInput::Up => NodeView {
                                y: crate::renderer::sat_sub(n.y as int, 1) as u16,
                                ..n
                            },
                            KeyInput::Down => NodeView { y: (n.y + 1) as u16, ..n },
                            KeyInput::Left => NodeView {
                                x: crate::renderer::sat_sub(n.x as int, 1) as u16,
                                ..n
                            },
                            _ => NodeView { x: (n.x + 1) as u16, ..n },
                        };
                        lemma_sizes_update(v.nodes, s, n2);
                    }
                },
                _ => {
                },
            }
        },
    }
}

/// Every mouse event preserves the size invariant: a resize drag clamps to
/// at least 3 by 3, a move drag changes position only, and menu creates
/// use the default sizes.
pub proof fn lemma_step_mouse_preserves_sizes(v: AppStateView, m: MouseInput, vp: Viewport)
    requires
        sizes_ok(v.nodes),
        mouse_ok(v, m, vp),
    ensures
        sizes_ok(step_mouse(v, m, vp).nodes),
{
    if !(m.column < vp.x || m.row < vp.y) {
        let mxs = (m.column - vp.x) as u16;
        let mys = (m.row - vp.y) as u16;
        let mx = crate::renderer::clamp_u16(mxs + v.camera_offset.0) as u16;
        let my = crate::renderer::clamp_u16(mys + v.camera_offset.1) as u16;
        match v.mode {
            AppMode::ContextMenu { x, y, selected_index } => {
                if in_menu(vp, x, y, m.column as int, m.row as int) {
                    let ly = menu_row(vp, x, y, m.row as int);
                    if ly < 10 && ly != 4 && ly != 8 {
                        let v1 = AppStateView {
                            mode: AppMode::ContextMenu { x, y, selected_index: ly as usize },
                            ..v
                        };
                        if m.kind == MouseKind::LeftDown {
                            lemma_sizes_menu_activate(v1, x, y, ly);
                        }
                    }
                } else if m.kind == MouseKind::LeftDown || m.kind == MouseKind::RightDown {
                } else {
                    lemma_step_mouse_kind_sizes(v, m.kind, mx, my, vp);
                }
            },
            _ => {
                if m.kind != MouseKind::RightDown {
                    lemma_step_mouse_kind_sizes(v, m.kind, mx, my, vp);
                }
            },
        }
    }
}

proof fn lemma_step_mouse_kind_sizes(v: AppStateView, kind: MouseKind, mx: u16, my: u16, vp: Viewport)
    requires
        sizes_ok(v.nodes),
    ensures
        sizes_ok(step_mouse_kind(v, kind, mx, my, vp).nodes),
{
    match kind {
        MouseKind::LeftDown => {
            let v0 = AppStateView {
                dragging_node_id: None,
                resizing_node_id: None,
                partial_connection: None,
                ..v
            };
            let hit = top_hit(v0.nodes, mx as int, my as int);
            if hit >= 0 {
                let node = v0.nodes[hit];
                let i2 = node_index(v0.nodes, node.id);
                if i2 >= 0 {
                    crate::model::lemma_node_index(v0.nodes, node.id);
                    let cleared = clear_selected(v0.nodes);
                    lemma_sizes_same_geometry(v0.nodes, cleared);
                    let sel = cleared.update(i2, NodeView { selected: true, ..cleared[i2] });
                    lemma_sizes_update(cleared, i2, NodeView { selected: true, ..cleared[i2] });
                    lemma_sizes_remove(sel, i2);
                    lemma_sizes_push(sel.remove(i2), sel[i2]);
                }
            } else {
                lemma_sizes_same_geometry(v0.nodes, clear_selected(v0.nodes));
            }
        },
        MouseKind::LeftDrag => {
            match v.partial_connection {
                Some(_) => {
                },
                None => {
                    match v.resizing_node_id {
                        Some(id) => {
                            let i = node_index(v.nodes, id);
                            if i >= 0 {
                                crate::model::lemma_node_index(v.nodes, id);
                                let n = v.nodes[i];
                                let w2 = crate::renderer::clamp_u16(
                                    vstd::math::max(
                                        crate::renderer::sat_sub(mx as int, n.x as int) + 1,
                                        3,
                                    ),
                                ) as u16;
                                let h2 = crate::renderer::clamp_u16(
                                    vstd::math::max(
                                        crate::renderer::sat_sub(my as int, n.y as int) + 1,
                                        3,
                                    ),
                                ) as u16;
                                lemma_sizes_update(
                                    v.nodes,
                                    i,
                                    NodeView { width: w2, height: h2, ..n },
                                );
                            }
                        },
                        None => {
                            match v.dragging_node_id {
                                Some(id) => {
                                    let i = node_index(v.nodes, id);
                                    if i >= 0 {
                                        crate::model::lemma_node_index(v.nodes, id);
                                        let n = v.nodes[i];
                                        let x1 = crate::renderer::sat_sub(
                                            mx as int,
                                            v.drag_offset.0 as int,
                                        );
                                        let y1 = crate::renderer::sat_sub(
                                            my as int,
                                            v.drag_offset.1 as int,
                                        );
                                        let x2 = vstd::math::min(
                                            x1,
                                            crate::renderer::sat_sub(
                                                vp.width as int,
                                                n.width as int,
                                            ),
                                        );
                                        let y2 = vstd::math::min(
                                            y1,
                                            crate::renderer::sat_sub(
                                                vp.height as int,
                                                n.height as int,
                                            ),
                                        );
                                        lemma_sizes_update(
                                            v.nodes,
                                            i,
                                            NodeView { x: x2 as u16, y: y2 as u16, ..n },
                                        );
                                    }
                                },
                                None => {
                                },
                            }
                        },
                    }
                },
            }
        },
        MouseKind::LeftUp => {
        },
        MouseKind::RightDown => {
        },
    }
}

/// Does this key press respect the machine limits of `handle_key`? The
/// shell tests this before every call; a refusal means the session state
/// has reached an integer ceiling.
pub fn key_allowed(state: &AppState, key: KeyInput) -> (r: bool)
    ensures
        r == key_ok(state@, key),
{
    let mode = state.mode;
    match mode {
        AppMode::Insert(id) => {
            match key {
                KeyInput::Char(_) | KeyInput::Enter | KeyInput::Backspace => {
                    match crate::model::find_node_position(&state.nodes, id) {
                        Some(i) => {
                            proof {
                                assert(state@.nodes[i as int] == state.nodes@[i as int]@);
                            }
                            if state.nodes[i].shape == ShapeType::Text {
                                let len = state.nodes[i].text.as_str().unicode_len();
                                match key {
                                    KeyInput::Backspace => len <= 0xffff,
                                    _ => len <= 0xffff - 2,
                                }
                            } else {
                                true
                            }
                        },
                        None => true,
                    }
                },
                _ => true,
            }
        },
        AppMode::Leader => {
            match key {
                KeyInput::Char(c) => {
                    if c == 'n' || c == 'd' || c == 't' || c == 'f' {
                        if find_max_id(&state.nodes) == usize::MAX {
                            false
                        } else if state.nodes.len() > 0 {
                            let last = &state.nodes[state.nodes.len() - 1];
                            proof {
                                assert(state@.nodes.last() == state.nodes@[state.nodes@.len()
                                    - 1]@);
                            }
                            last.y as u32 + last.height as u32 + 2 <= 0xffff
                        } else {
                            true
                        }
                    } else {
                        true
                    }
                },
                _ => true,
            }
        },
        AppMode::Resize(id) => {
            match key {
                KeyInput::Char(c) => {
                    if c == '+' || c == '=' {
                        match crate::model::find_node_position(&state.nodes, id) {
                            Some(i) => {
                                proof {
                                    assert(state@.nodes[i as int] == state.nodes@[i as int]@);
                                }
                                state.nodes[i].width as u32 + 2 <= 0xffff && state.nodes[i].height
                                    as u32 + 1 <= 0xffff
                            },
                            None => true,
                        }
                    } else {
                        true
                    }
                },
                _ => true,
            }
        },
        AppMode::ContextMenu { .. } => {
            match key {
                KeyInput::Enter => find_max_id(&state.nodes) < usize::MAX,
                KeyInput::Char(c) => {
                    if c == ' ' {
                        find_max_id(&state.nodes) < usize::MAX
                    } else {
                        true
                    }
                },
                _ => true,
            }
        },
        AppMode::Normal => {
            match key {
                KeyInput::Delete | KeyInput::Backspace => {
                    match state.selected_connection_index {
                        Some(idx) => idx < state.connections.len(),
                        None => true,
                    }
                },
                KeyInput::Enter => {
                    match state.connection_source_id {
                        Some(src_id) => {
                            match find_selected(&state.nodes) {
                                Some(t) => {
                                    proof {
                                        assert(state@.nodes[t as int] == state.nodes@[t as int]@);
                                    }
                                    if state.nodes[t].id != src_id {
                                        match crate::model::find_node_position(
                                            &state.nodes,
                                            src_id,
                                        ) {
                                            Some(si) => {
                                                proof {
                                                    assert(state@.nodes[si as int]
                                                        == state.nodes@[si as int]@);
                                                }
                                                state.nodes[si].width >= 1 && state.nodes[si].height
                                                    >= 1 && state.nodes[t].width >= 1
                                                    && state.nodes[t].height >= 1
                                            },
                                            None => true,
                                        }
                                    } else {
                                        true
                                    }
                                },
                                None => true,
                            }
                        },
                        None => true,
                    }
                },
                KeyInput::Down => {
                    match find_selected(&state.nodes) {
                        Some(s) => {
                            proof {
                                assert(state@.nodes[s as int] == state.nodes@[s as int]@);
                            }
                            state.nodes[s].y < 0xffff
                        },
                        None => state.camera_offset.1 < i32::MAX,
                    }
                },
                KeyInput::Right => {
                    match find_selected(&state.nodes) {
                        Some(s) => {
                            proof {
                                assert(state@.nodes[s as int] == state.nodes@[s as int]@);
                            }
                            state.nodes[s].x < 0xffff
                        },
                        None => state.camera_offset.0 < i32::MAX,
                    }
                },
                KeyInput::Char(c) => {
                    if c == 'a' {
                        match state.selected_connection_index {
                            Some(idx) => idx < state.connections.len(),
                            None => true,
                        }
                    } else {
                        true
                    }
                },
                _ => true,
            }
        },
        AppMode::Help => true,
    }
}

/// Does this mouse event respect the machine limits of `handle_mouse`?
pub fn mouse_allowed(state: &AppState, m: MouseInput, vp: Viewport) -> (r: bool)
    ensures
        r == mouse_ok(state@, m, vp),
{
    if m.column < vp.x || m.row < vp.y {
        return true;
    }
    let mxs = m.column - vp.x;
    let mys = m.row - vp.y;
    let mx = world_from_screen(mxs, state.camera_offset.0);
    let my = world_from_screen(mys, state.camera_offset.1);
    let mode = state.mode;
    match mode {
        AppMode::ContextMenu { x, y, selected_index } => {
            let sxp: u32 = vp.x as u32 + x as u32;
            let syp: u32 = vp.y as u32 + y as u32;
            let menu_x: u32 = if sxp + 21 > vp.area_width as u32 {
                if vp.area_width >= 21 {
                    vp.area_width as u32 - 21
                } else {
                    0
                }
            } else {
                sxp
            };
            let menu_y: u32 = if syp + 11 > vp.area_height as u32 {
                if vp.area_height >= 11 {
                    vp.area_height as u32 - 11
                } else {
                    0
                }
            } else {
                syp
            };
            let inside = m.column as u32 >= menu_x && (m.column as u32) < menu_x + 21 && m.row
                as u32 >= menu_y && (m.row as u32) < menu_y + 11;
            if inside {
                let past: u32 = if m.row as u32 > menu_y {
                    m.row as u32 - menu_y
                } else {
                    0
                };
                let local_y: u32 = if past > 1 {
                    past - 1
                } else {
                    0
                };
                if local_y < 10 && local_y != 4 && local_y != 8 && matches!(
                    m.kind,
                    MouseKind::LeftDown,
                ) {
                    find_max_id(&state.nodes) < usize::MAX
                } else {
                    true
                }
            } else {
                true
            }
        },
        _ => {
            match m.kind {
                MouseKind::LeftDown => {
                    match find_top_hit(&state.nodes, mx, my) {
                        Some(hit) => {
                            proof {
                                lemma_top_hit(state.nodes.deep_view(), mx as int, my as int);
                                assert(state@.nodes[hit as int] == state.nodes@[hit as int]@);
                            }
                            let nx = state.nodes[hit].x;
                            let ny = state.nodes[hit].y;
                            let nw = state.nodes[hit].width;
                            let nh = state.nodes[hit].height;
                            let node_id = state.nodes[hit].id;
                            let is_corner = mx as u32 == nx as u32 + nw as u32 - 1 && my as u32
                                == ny as u32 + nh as u32 - 1;
                            let is_border = !is_corner && (mx == nx || mx as u32 == nx as u32
                                + nw as u32 - 1 || my == ny || my as u32 == ny as u32 + nh as u32
                                - 1);
                            if is_border {
                                match crate::model::find_node_position(&state.nodes, node_id) {
                                    Some(i2) => {
                                        proof {
                                            assert(state@.nodes[i2 as int]
                                                == state.nodes@[i2 as int]@);
                                        }
                                        state.nodes[i2].width >= 1 && state.nodes[i2].height >= 1
                                    },
                                    None => true,
                                }
                            } else {
                                true
                            }
                        },
                        None => true,
                    }
                },
                _ => true,
            }
        },
    }
}

/// The largest node id in use, `0` when there are none.
pub fn find_max_id(nodes: &Vec<Node>) -> (r: usize)
    ensures
        r as int == max_id(nodes.deep_view()),
{
    let mut r: usize = 0;
    let n = nodes.len();
    proof {
        assert(nodes.deep_view().take(0) =~= Seq::<NodeView>::empty());
    }
    for i in 0..n
        invariant
            n == nodes@.len(),
            r as int == max_id(nodes.deep_view().take(i as int)),
    {
        proof {
            assert(nodes.deep_view().take(i + 1).drop_last() =~= nodes.deep_view().take(i as int));
            assert(nodes.deep_view().take(i + 1).last() == nodes.deep_view()[i as int]);
            assert(nodes.deep_view()[i as int] == nodes@[i as int]@);
        }
        if nodes[i].id > r {
            r = nodes[i].id;
        }
    }
    proof {
        assert(nodes.deep_view().take(n as int) =~= nodes.deep_view());
    }
    r
}

} // verus!
