//! The deterministic rendering engine: a pure transform from the diagram
//! model, a camera offset and a viewport size to a character grid. Shape
//! outlines, centered wrapped text, orthogonal connector routes and the
//! in-progress connector are drawn back to front; later writes overwrite
//! earlier ones cell by cell, and out-of-bounds writes are dropped.

use vstd::prelude::*;

use crate::chars::chars_to_string;
use crate::model::AppMode;
use crate::model::AppState;
use crate::model::AppStateView;
use crate::model::Connection;
use crate::model::Node;
use crate::model::NodeView;
use crate::model::PartialConnection;
use crate::model::ShapeType;
use crate::model::find_node;
use crate::model::find_node_position;
use crate::model::lemma_node_index;
use crate::text::spec_wrap;
use crate::text::views_of;

verus! {

/// A rectangular character grid of `height` rows by `width` columns.
pub struct Canvas {
    pub width: u16,
    pub height: u16,
    pub grid: Vec<Vec<char>>,
}

/// `max(a - b, 0)`, the arithmetic of `u16::saturating_sub` over integers.
pub open spec fn sat_sub(a: int, b: int) -> int {
    if a >= b {
        a - b
    } else {
        0
    }
}

/// A blank grid: `h` rows of `w` spaces.
pub open spec fn blank_grid(w: int, h: int) -> Seq<Seq<char>> {
    Seq::new(h as nat, |y: int| Seq::new(w as nat, |x: int| ' '))
}

/// Write `c` at column `x` of row `y`; writes outside the grid are dropped.
pub open spec fn grid_set(g: Seq<Seq<char>>, x: int, y: int, c: char) -> Seq<Seq<char>> {
    if 0 <= y < g.len() && 0 <= x < g[y].len() {
        g.update(y, g[y].update(x, c))
    } else {
        g
    }
}

impl Canvas {
    /// The grid as a sequence of rows of characters.
    pub open spec fn sgrid(&self) -> Seq<Seq<char>> {
        views_of(self.grid@)
    }

    /// The grid really is `height` rows of `width` columns.
    pub open spec fn wf(&self) -> bool {
        &&& self.grid@.len() == self.height
        &&& forall|y: int| 0 <= y < self.grid@.len() ==> #[trigger] self.grid@[y]@.len() == self.width
    }

    /// A blank canvas of the given size.
    pub fn new(width: u16, height: u16) -> (r: Canvas)
        ensures
            r.wf(),
            r.width == width,
            r.height == height,
            r.sgrid() == blank_grid(width as int, height as int),
    {
        let mut grid: Vec<Vec<char>> = Vec::new();
        for y in 0..height as usize
            invariant
                grid@.len() == y,
                forall|j: int| 0 <= j < y ==> #[trigger] grid@[j]@ == Seq::new(width as nat, |x: int| ' '),
        {
            let mut row: Vec<char> = Vec::new();
            for x in 0..width as usize
                invariant
                    row@.len() == x,
                    forall|k: int| 0 <= k < x ==> #[trigger] row@[k] == ' ',
            {
                row.push(' ');
            }
            proof {
                assert(row@ =~= Seq::new(width as nat, |x: int| ' '));
            }
            grid.push(row);
        }
        let r = Canvas { width, height, grid };
        proof {
            assert(r.sgrid() =~= blank_grid(width as int, height as int));
        }
        r
    }

    /// Write `c` at `(x, y)`; out-of-bounds writes are dropped.
    pub fn set(&mut self, x: u16, y: u16, c: char)
        requires
            old(self).wf(),
        ensures
            final(self).wf(),
            final(self).width == old(self).width,
            final(self).height == old(self).height,
            final(self).sgrid() == grid_set(old(self).sgrid(), x as int, y as int, c),
    {
        self.put(x as u32, y as u32, c);
    }

    /// `set` over wider coordinates, for internal arithmetic that can pass
    /// the `u16` range.
    fn put(&mut self, x: u32, y: u32, c: char)
        requires
            old(self).wf(),
        ensures
            final(self).wf(),
            final(self).width == old(self).width,
            final(self).height == old(self).height,
            final(self).sgrid() == grid_set(old(self).sgrid(), x as int, y as int, c),
    {
        if x < self.width as u32 && y < self.height as u32 {
            let ghost g0 = self.sgrid();
            self.grid[y as usize][x as usize] = c;
            proof {
                assert(self.sgrid() =~= grid_set(g0, x as int, y as int, c));
            }
        }
    }

    /// `set` over signed coordinates; negative coordinates fall outside the
    /// grid and are dropped.
    fn put_i(&mut self, x: i64, y: i64, c: char)
        requires
            old(self).wf(),
        ensures
            final(self).wf(),
            final(self).width == old(self).width,
            final(self).height == old(self).height,
            final(self).sgrid() == grid_set(old(self).sgrid(), x as int, y as int, c),
    {
        if 0 <= x && x < self.width as i64 && 0 <= y && y < self.height as i64 {
            let ghost g0 = self.sgrid();
            self.grid[y as usize][x as usize] = c;
            proof {
                assert(self.sgrid() =~= grid_set(g0, x as int, y as int, c));
            }
        }
    }
}

/// Draw the first `count` characters of `line` at row `y`, starting at
/// column `sx`.
pub open spec fn line_fold(g: Seq<Seq<char>>, line: Seq<char>, sx: int, y: int, count: int) -> Seq<
    Seq<char>,
>
    decreases count,
{
    if count <= 0 {
        g
    } else {
        grid_set(line_fold(g, line, sx, y, count - 1), sx + (count - 1), y, line[count - 1])
    }
}

/// As `line_fold`, but a character lands only strictly between columns
/// `xlo` and `xhi`.
pub open spec fn line_fold_clip(
    g: Seq<Seq<char>>,
    line: Seq<char>,
    sx: int,
    y: int,
    xlo: int,
    xhi: int,
    count: int,
) -> Seq<Seq<char>>
    decreases count,
{
    if count <= 0 {
        g
    } else {
        let g1 = line_fold_clip(g, line, sx, y, xlo, xhi, count - 1);
        let tx = sx + (count - 1);
        if xlo < tx < xhi {
            grid_set(g1, tx, y, line[count - 1])
        } else {
            g1
        }
    }
}

/// The first `count` centered lines of a borderless text node.
pub open spec fn text_node_fold(
    g: Seq<Seq<char>>,
    lines: Seq<Seq<char>>,
    nx: int,
    nw: int,
    start_y: int,
    count: int,
) -> Seq<Seq<char>>
    decreases count,
{
    if count <= 0 {
        g
    } else {
        let g1 = text_node_fold(g, lines, nx, nw, start_y, count - 1);
        let line = lines[count - 1];
        let tx0 = nx + sat_sub(nw, line.len() as int) / 2;
        line_fold(g1, line, tx0, start_y + (count - 1), line.len() as int)
    }
}

/// What `draw_text_node` draws: the wrapped text centered in the node's
/// box, at most `height` lines, and bracket markers when selected.
pub open spec fn spec_draw_text_node(g: Seq<Seq<char>>, n: NodeView) -> Seq<Seq<char>> {
    let lines = spec_wrap(n.text, n.width as int);
    let start_y = n.y + sat_sub(n.height as int, lines.len() as int) / 2;
    let count = vstd::math::min(lines.len() as int, n.height as int);
    let g1 = text_node_fold(g, lines, n.x as int, n.width as int, start_y, count);
    if n.selected {
        grid_set(
            grid_set(g1, sat_sub(n.x as int, 1), n.y as int, '['),
            n.x + n.width,
            n.y + n.height - 1,
            ']',
        )
    } else {
        g1
    }
}

impl Canvas {
    /// Draw a borderless text node: its text wrapped to the full node width,
    /// horizontally and vertically centered, with bracket markers just
    /// outside the extremes when the node is selected.
    pub fn draw_text_node(&mut self, node: &Node)
        requires
            old(self).wf(),
        ensures
            final(self).wf(),
            final(self).width == old(self).width,
            final(self).height == old(self).height,
            final(self).sgrid() == spec_draw_text_node(old(self).sgrid(), node@),
    {
        let ghost g0 = self.sgrid();
        let ghost lv = spec_wrap(node@.text, node@.width as int);
        let lines = crate::text::wrap_chars(&node.text, node.width);
        let total = lines.len();
        let nx = node.x as u32;
        let ny = node.y as u32;
        let pad: usize = if node.height as usize >= total {
            node.height as usize - total
        } else {
            0
        };
        let start_y: u32 = ny + (pad / 2) as u32;
        let ghost start_yv = n_start_y(node@, lv);
        proof {
            assert(start_yv == start_y as int);
            if node@.width >= 1 {
                crate::text::lemma_wrap_line_width(node@.text, node@.width as int);
            }
        }
        let count: usize = if total < node.height as usize {
            total
        } else {
            node.height as usize
        };
        for i in 0..count
            invariant
                self.wf(),
                self.width == old(self).width,
                self.height == old(self).height,
                count <= lines@.len(),
                count <= node@.height,
                views_of(lines@) == lv,
                forall|k: int| 0 <= k < lv.len() ==> #[trigger] lv[k].len() <= node@.width,
                nx == node@.x,
                start_y as int == start_yv,
                start_y <= 0x2_0000,
                self.sgrid() == text_node_fold(g0, lv, node@.x as int, node@.width as int, start_yv, i as int),
        {
            let line = &lines[i];
            proof {
                assert(views_of(lines@)[i as int] == lines@[i as int]@);
            }
            let len = line.len();
            let lpad: usize = if node.width as usize >= len {
                node.width as usize - len
            } else {
                0
            };
            let tx0: u32 = nx + (lpad / 2) as u32;
            let ty: u32 = start_y + i as u32;
            let ghost gl = self.sgrid();
            for j in 0..len
                invariant
                    self.wf(),
                    self.width == old(self).width,
                    self.height == old(self).height,
                    len == line@.len(),
                    len <= 0xffff,
                    tx0 <= 0x2_0000,
                    ty <= 0x4_0000,
                    self.sgrid() == line_fold(gl, line@, tx0 as int, ty as int, j as int),
            {
                self.put(tx0 + j as u32, ty, line[j]);
            }
            proof {
                assert(self.sgrid() == text_node_fold(
                    g0,
                    lv,
                    node@.x as int,
                    node@.width as int,
                    start_yv,
                    i + 1,
                ));
            }
        }
        proof {
            assert(vstd::math::min(lv.len() as int, node@.height as int) == count as int);
        }
        if node.selected {
            let mx: u32 = if nx >= 1 {
                nx - 1
            } else {
                0
            };
            self.put(mx, ny, '[');
            let yy: u32 = ny + node.height as u32;
            if yy >= 1 {
                self.put(nx + node.width as u32, yy - 1, ']');
            } else {
                proof {
                    assert(grid_set(
                        self.sgrid(),
                        node@.x + node@.width,
                        node@.y + node@.height - 1,
                        ']',
                    ) == self.sgrid());
                }
            }
        }
    }
}

/// The first `count` columns of the two horizontal edges of a rectangle,
/// from column `x1 + 1` rightwards.
pub open spec fn h_edges_fold(
    g: Seq<Seq<char>>,
    x1: int,
    y1: int,
    y2: int,
    c: char,
    count: int,
) -> Seq<Seq<char>>
    decreases count,
{
    if count <= 0 {
        g
    } else {
        let g1 = h_edges_fold(g, x1, y1, y2, c, count - 1);
        let x = x1 + 1 + (count - 1);
        grid_set(grid_set(g1, x, y1, c), x, y2, c)
    }
}

/// The first `count` rows of the two vertical edges of a rectangle, from
/// row `y1 + 1` downwards.
pub open spec fn v_edges_fold(
    g: Seq<Seq<char>>,
    x1: int,
    x2: int,
    y1: int,
    c: char,
    count: int,
) -> Seq<Seq<char>>
    decreases count,
{
    if count <= 0 {
        g
    } else {
        let g1 = v_edges_fold(g, x1, x2, y1, c, count - 1);
        let y = y1 + 1 + (count - 1);
        grid_set(grid_set(g1, x1, y, c), x2, y, c)
    }
}

/// The first `count` wrapped lines of a box's interior text, centered, each
/// clipped to the interior.
pub open spec fn box_text_fold(
    g: Seq<Seq<char>>,
    lines: Seq<Seq<char>>,
    x1: int,
    y1: int,
    x2: int,
    y2: int,
    aw: int,
    start_y: int,
    count: int,
) -> Seq<Seq<char>>
    decreases count,
{
    if count <= 0 {
        g
    } else {
        let g1 = box_text_fold(g, lines, x1, y1, x2, y2, aw, start_y, count - 1);
        let line = lines[count - 1];
        let ty = start_y + (count - 1);
        if y1 < ty < y2 {
            let tx0 = x1 + 1 + sat_sub(aw, line.len() as int) / 2;
            line_fold_clip(g1, line, tx0, ty, x1, x2, line.len() as int)
        } else {
            g1
        }
    }
}

/// What `draw_box` draws: the rectangle outline — corners, then horizontal,
/// then vertical edges, with the double-stroke glyphs when selected — and
/// the text wrapped to the interior width, centered and clipped to the
/// interior.
pub open spec fn spec_draw_box(g: Seq<Seq<char>>, n: NodeView) -> Seq<Seq<char>> {
    let x1 = n.x as int;
    let y1 = n.y as int;
    let x2 = x1 + n.width - 1;
    let y2 = y1 + n.height - 1;
    let corner = if n.selected {
        '#'
    } else {
        '+'
    };
    let horiz = if n.selected {
        '='
    } else {
        '-'
    };
    let vert = if n.selected {
        '#'
    } else {
        '|'
    };
    let ga = grid_set(grid_set(grid_set(grid_set(g, x1, y1, corner), x2, y1, corner), x1, y2, corner), x2, y2, corner);
    let gb = h_edges_fold(ga, x1, y1, y2, horiz, sat_sub(x2, x1 + 1));
    let gc = v_edges_fold(gb, x1, x2, y1, vert, sat_sub(y2, y1 + 1));
    let aw = sat_sub(n.width as int, 2);
    let ah = sat_sub(n.height as int, 2);
    if aw > 0 && ah > 0 {
        let lines = spec_wrap(n.text, aw);
        let start_y = y1 + 1 + sat_sub(ah, lines.len() as int) / 2;
        box_text_fold(gc, lines, x1, y1, x2, y2, aw, start_y, vstd::math::min(lines.len() as int, ah))
    } else {
        gc
    }
}

impl Canvas {
    /// Draw a rectangle node: outline with `+`/`-`/`|` (or `#`/`=`/`#` when
    /// selected), interior text wrapped to `width - 2`, vertically centered
    /// in `height - 2` rows, each line horizontally centered.
    pub fn draw_box(&mut self, node: &Node)
        requires
            old(self).wf(),
            node@.width >= 1,
            node@.height >= 1,
        ensures
            final(self).wf(),
            final(self).width == old(self).width,
            final(self).height == old(self).height,
            final(self).sgrid() == spec_draw_box(old(self).sgrid(), node@),
    {
        let x1 = node.x as u32;
        let y1 = node.y as u32;
        let x2 = x1 + node.width as u32 - 1;
        let y2 = y1 + node.height as u32 - 1;

        let corner = if node.selected {
            '#'
        } else {
            '+'
        };
        let horiz = if node.selected {
            '='
        } else {
            '-'
        };
        let vert = if node.selected {
            '#'
        } else {
            '|'
        };

        self.put(x1, y1, corner);
        self.put(x2, y1, corner);
        self.put(x1, y2, corner);
        self.put(x2, y2, corner);

        let ghost ga = self.sgrid();
        let hcount: u32 = if x2 > x1 + 1 {
            x2 - x1 - 1
        } else {
            0
        };
        for k in 0..hcount
            invariant
                self.wf(),
                self.width == old(self).width,
                self.height == old(self).height,
                x1 == node@.x,
                y1 == node@.y,
                x2 == x1 + node@.width - 1,
                y2 == y1 + node@.height - 1,
                hcount == sat_sub(x2 as int, x1 as int + 1),
                self.sgrid() == h_edges_fold(ga, x1 as int, y1 as int, y2 as int, horiz, k as int),
        {
            let x = x1 + 1 + k;
            self.put(x, y1, horiz);
            self.put(x, y2, horiz);
        }

        let ghost gb = self.sgrid();
        let vcount: u32 = if y2 > y1 + 1 {
            y2 - y1 - 1
        } else {
            0
        };
        for k in 0..vcount
            invariant
                self.wf(),
                self.width == old(self).width,
                self.height == old(self).height,
                x1 == node@.x,
                y1 == node@.y,
                x2 == x1 + node@.width - 1,
                y2 == y1 + node@.height - 1,
                vcount == sat_sub(y2 as int, y1 as int + 1),
                self.sgrid() == v_edges_fold(gb, x1 as int, x2 as int, y1 as int, vert, k as int),
        {
            let y = y1 + 1 + k;
            self.put(x1, y, vert);
            self.put(x2, y, vert);
        }

        let aw: u16 = if node.width >= 2 {
            node.width - 2
        } else {
            0
        };
        let ah: u16 = if node.height >= 2 {
            node.height - 2
        } else {
            0
        };
        if aw > 0 && ah > 0 {
            let ghost gc = self.sgrid();
            let ghost lv = spec_wrap(node@.text, aw as int);
            let lines = crate::text::wrap_chars(&node.text, aw);
            proof {
                crate::text::lemma_wrap_line_width(node@.text, aw as int);
            }
            let total = lines.len();
            let pad: usize = if ah as usize >= total {
                ah as usize - total
            } else {
                0
            };
            let start_y: u32 = y1 + 1 + (pad / 2) as u32;
            let count: usize = if total < ah as usize {
                total
            } else {
                ah as usize
            };
            for i in 0..count
                invariant
                    self.wf(),
                    self.width == old(self).width,
                    self.height == old(self).height,
                    count <= lines@.len(),
                    count <= ah,
                    aw == sat_sub(node@.width as int, 2),
                    ah == sat_sub(node@.height as int, 2),
                    views_of(lines@) == lv,
                    forall|k: int| 0 <= k < lv.len() ==> #[trigger] lv[k].len() <= aw,
                    x1 == node@.x,
                    y1 == node@.y,
                    x2 == x1 + node@.width - 1,
                    y2 == y1 + node@.height - 1,
                    start_y as int == y1 + 1 + sat_sub(ah as int, lv.len() as int) / 2,
                    start_y <= 0x2_0000,
                    self.sgrid() == box_text_fold(
                        gc,
                        lv,
                        x1 as int,
                        y1 as int,
                        x2 as int,
                        y2 as int,
                        aw as int,
                        start_y as int,
                        i as int,
                    ),
            {
                let ty: u32 = start_y + i as u32;
                if ty > y1 && ty < y2 {
                    let line = &lines[i];
                    proof {
                        assert(views_of(lines@)[i as int] == lines@[i as int]@);
                    }
                    let len = line.len();
                    let lpad: usize = if aw as usize >= len {
                        aw as usize - len
                    } else {
                        0
                    };
                    let tx0: u32 = x1 + 1 + (lpad / 2) as u32;
                    let ghost gl = self.sgrid();
                    for j in 0..len
                        invariant
                            self.wf(),
                            self.width == old(self).width,
                            self.height == old(self).height,
                            len == line@.len(),
                            len <= 0xffff,
                            tx0 <= 0x2_0000,
                            ty <= 0x4_0000,
                            x1 == node@.x,
                            x2 == x1 + node@.width - 1,
                            self.sgrid() == line_fold_clip(
                                gl,
                                line@,
                                tx0 as int,
                                ty as int,
                                x1 as int,
                                x2 as int,
                                j as int,
                            ),
                    {
                        let tx = tx0 + j as u32;
                        if tx > x1 && tx < x2 {
                            self.put(tx, ty, line[j]);
                        }
                    }
                }
                proof {
                    assert(self.sgrid() == box_text_fold(
                        gc,
                        lv,
                        x1 as int,
                        y1 as int,
                        x2 as int,
                        y2 as int,
                        aw as int,
                        start_y as int,
                        i + 1,
                    ));
                }
            }
            proof {
                assert(vstd::math::min(lv.len() as int, ah as int) == count as int);
            }
        }
    }
}

/// One Bresenham walk from `(x, y)` toward `(x2, y2)`: each step draws the
/// current cell unless it is an endpoint, stops at the target, and otherwise
/// advances along the error term. The step budget bounds the walk.
pub open spec fn bres_fold(
    g: Seq<Seq<char>>,
    x: int,
    y: int,
    x1: int,
    y1: int,
    x2: int,
    y2: int,
    err: int,
    dx: int,
    dy: int,
    sx: int,
    sy: int,
    c: char,
    fuel: nat,
) -> Seq<Seq<char>>
    decreases fuel,
{
    let g1 = if (x != x1 || y != y1) && (x != x2 || y != y2) {
        grid_set(g, x, y, c)
    } else {
        g
    };
    if (x == x2 && y == y2) || fuel == 0 {
        g1
    } else {
        let e2 = 2 * err;
        let xx = if e2 > -dy {
            x + sx
        } else {
            x
        };
        let err1 = if e2 > -dy {
            err - dy
        } else {
            err
        };
        let yy = if e2 < dx {
            y + sy
        } else {
            y
        };
        let err2 = if e2 < dx {
            err1 + dx
        } else {
            err1
        };
        bres_fold(g1, xx, yy, x1, y1, x2, y2, err2, dx, dy, sx, sy, c, (fuel - 1) as nat)
    }
}

/// What `draw_line` draws: the Bresenham line from `(x1, y1)` to
/// `(x2, y2)`, endpoints left untouched.
pub open spec fn spec_draw_line(
    g: Seq<Seq<char>>,
    x1: int,
    y1: int,
    x2: int,
    y2: int,
    c: char,
) -> Seq<Seq<char>> {
    let dx = vstd::math::abs(x2 - x1) as int;
    let dy = vstd::math::abs(y2 - y1) as int;
    let sx: int = if x1 < x2 {
        1
    } else {
        -1
    };
    let sy: int = if y1 < y2 {
        1
    } else {
        -1
    };
    bres_fold(g, x1, y1, x1, y1, x2, y2, dx - dy, dx, dy, sx, sy, c, (dx + dy) as nat)
}

impl Canvas {
    /// Draw a straight symmetric line between two points with Bresenham's
    /// integer algorithm, skipping the two endpoints.
    fn draw_line(&mut self, x1: u32, y1: u32, x2: u32, y2: u32, c: char)
        requires
            old(self).wf(),
        ensures
            final(self).wf(),
            final(self).width == old(self).width,
            final(self).height == old(self).height,
            final(self).sgrid() == spec_draw_line(
                old(self).sgrid(),
                x1 as int,
                y1 as int,
                x2 as int,
                y2 as int,
                c,
            ),
    {
        let dx: i64 = if x2 >= x1 {
            (x2 - x1) as i64
        } else {
            (x1 - x2) as i64
        };
        let dy: i64 = if y2 >= y1 {
            (y2 - y1) as i64
        } else {
            (y1 - y2) as i64
        };
        let sx: i64 = if x1 < x2 {
            1
        } else {
            -1
        };
        let sy: i64 = if y1 < y2 {
            1
        } else {
            -1
        };
        let mut err: i64 = dx - dy;
        let mut x: i64 = x1 as i64;
        let mut y: i64 = y1 as i64;
        let fuel0: i64 = dx + dy;
        let mut fuel: i64 = fuel0;
        let ghost b: int = if dx > dy {
            dx as int
        } else {
            dy as int
        };
        loop
            invariant_except_break
                self.wf(),
                self.width == old(self).width,
                self.height == old(self).height,
                0 <= dx <= 0xffff_ffff,
                0 <= dy <= 0xffff_ffff,
                b == vstd::math::max(dx as int, dy as int),
                sx == (if x1 < x2 { 1int } else { -1int }),
                sy == (if y1 < y2 { 1int } else { -1int }),
                fuel0 == dx + dy,
                0 <= fuel <= fuel0,
                x1 as int - (fuel0 - fuel) <= x <= x1 as int + (fuel0 - fuel),
                y1 as int - (fuel0 - fuel) <= y <= y1 as int + (fuel0 - fuel),
                -3 * b <= err <= 3 * b,
                spec_draw_line(
                    old(self).sgrid(),
                    x1 as int,
                    y1 as int,
                    x2 as int,
                    y2 as int,
                    c,
                ) == bres_fold(
                    self.sgrid(),
                    x as int,
                    y as int,
                    x1 as int,
                    y1 as int,
                    x2 as int,
                    y2 as int,
                    err as int,
                    dx as int,
                    dy as int,
                    sx as int,
                    sy as int,
                    c,
                    fuel as nat,
                ),
            ensures
                self.wf(),
                self.width == old(self).width,
                self.height == old(self).height,
                self.sgrid() == spec_draw_line(
                    old(self).sgrid(),
                    x1 as int,
                    y1 as int,
                    x2 as int,
                    y2 as int,
                    c,
                ),
            decreases fuel,
        {
            if (x != x1 as i64 || y != y1 as i64) && (x != x2 as i64 || y != y2 as i64) {
                self.put_i(x, y, c);
            }

            if x == x2 as i64 && y == y2 as i64 {
                break ;
            }
            if fuel == 0 {
                break ;
            }
            let e2: i64 = 2 * err;
            if e2 > -dy {
                err = err - dy;
                x = x + sx;
            }
            if e2 < dx {
                err = err + dx;
                y = y + sy;
            }
            fuel = fuel - 1;
        }
    }
}

/// The first `count` wrapped lines of a diamond's interior text, centered
/// on the node's full width and clipped to the diamond's inner columns.
pub open spec fn diamond_text_fold(
    g: Seq<Seq<char>>,
    lines: Seq<Seq<char>>,
    x1: int,
    y1: int,
    x2: int,
    y2: int,
    nw: int,
    start_y: int,
    count: int,
) -> Seq<Seq<char>>
    decreases count,
{
    if count <= 0 {
        g
    } else {
        let g1 = diamond_text_fold(g, lines, x1, y1, x2, y2, nw, start_y, count - 1);
        let line = lines[count - 1];
        let ty = start_y + (count - 1);
        if y1 < ty < y2 {
            let tx0 = x1 + sat_sub(nw, line.len() as int) / 2;
            line_fold_clip(g1, line, tx0, ty, x1 + 1, x2 - 1, line.len() as int)
        } else {
            g1
        }
    }
}

/// What `draw_diamond` draws: four Bresenham edges between the mid-edge
/// points, the four points re-marked, and the text wrapped to `width - 6`
/// (at least 1), centered within the inner box.
pub open spec fn spec_draw_diamond(g: Seq<Seq<char>>, n: NodeView) -> Seq<Seq<char>> {
    let x1 = n.x as int;
    let y1 = n.y as int;
    let x2 = x1 + n.width - 1;
    let y2 = y1 + n.height - 1;
    let cx = x1 + n.width / 2;
    let cy = y1 + n.height / 2;
    let point = if n.selected {
        '#'
    } else {
        '+'
    };
    let slash = if n.selected {
        '#'
    } else {
        '/'
    };
    let back = if n.selected {
        '#'
    } else {
        '\\'
    };
    let ga = spec_draw_line(g, cx, y1, x2, cy, slash);
    let gb = spec_draw_line(ga, x2, cy, cx, y2, back);
    let gc = spec_draw_line(gb, cx, y2, x1, cy, slash);
    let gd = spec_draw_line(gc, x1, cy, cx, y1, back);
    let ge = grid_set(
        grid_set(grid_set(grid_set(gd, cx, y1, point), cx, y2, point), x1, cy, point),
        x2,
        cy,
        point,
    );
    let aw = vstd::math::max(sat_sub(n.width as int, 6), 1);
    let ah = vstd::math::max(sat_sub(n.height as int, 2), 1);
    let lines = spec_wrap(n.text, aw);
    let start_y = y1 + 1 + sat_sub(ah, lines.len() as int) / 2;
    diamond_text_fold(
        ge,
        lines,
        x1,
        y1,
        x2,
        y2,
        n.width as int,
        start_y,
        vstd::math::min(lines.len() as int, ah),
    )
}

impl Canvas {
    /// Draw a decision diamond: four straight edges between the mid-edge
    /// points, point glyphs at those four points, and the interior text
    /// wrapped to `width - 6` (at least 1) and centered.
    pub fn draw_diamond(&mut self, node: &Node)
        requires
            old(self).wf(),
            node@.width >= 1,
            node@.height >= 1,
        ensures
            final(self).wf(),
            final(self).width == old(self).width,
            final(self).height == old(self).height,
            final(self).sgrid() == spec_draw_diamond(old(self).sgrid(), node@),
    {
        let x1 = node.x as u32;
        let y1 = node.y as u32;
        let x2 = x1 + node.width as u32 - 1;
        let y2 = y1 + node.height as u32 - 1;
        let cx = x1 + node.width as u32 / 2;
        let cy = y1 + node.height as u32 / 2;

        let point = if node.selected {
            '#'
        } else {
            '+'
        };

        self.draw_line(cx, y1, x2, cy, if node.selected {
            '#'
        } else {
            '/'
        });
        self.draw_line(x2, cy, cx, y2, if node.selected {
            '#'
        } else {
            '\\'
        });
        self.draw_line(cx, y2, x1, cy, if node.selected {
            '#'
        } else {
            '/'
        });
        self.draw_line(x1, cy, cx, y1, if node.selected {
            '#'
        } else {
            '\\'
        });

        self.put(cx, y1, point);
        self.put(cx, y2, point);
        self.put(x1, cy, point);
        self.put(x2, cy, point);

        let aw: u16 = if node.width >= 7 {
            node.width - 6
        } else {
            1
        };
        let ah: u16 = if node.height >= 3 {
            node.height - 2
        } else {
            1
        };
        let ghost ge = self.sgrid();
        let ghost lv = spec_wrap(node@.text, aw as int);
        let lines = crate::text::wrap_chars(&node.text, aw);
        proof {
            crate::text::lemma_wrap_line_width(node@.text, aw as int);
        }
        let total = lines.len();
        let pad: usize = if ah as usize >= total {
            ah as usize - total
        } else {
            0
        };
        let start_y: u32 = y1 + 1 + (pad / 2) as u32;
        let count: usize = if total < ah as usize {
            total
        } else {
            ah as usize
        };
        for i in 0..count
            invariant
                self.wf(),
                self.width == old(self).width,
                self.height == old(self).height,
                count <= lines@.len(),
                count <= ah,
                aw == vstd::math::max(sat_sub(node@.width as int, 6), 1),
                ah == vstd::math::max(sat_sub(node@.height as int, 2), 1),
                views_of(lines@) == lv,
                forall|k: int| 0 <= k < lv.len() ==> #[trigger] lv[k].len() <= aw,
                x1 == node@.x,
                y1 == node@.y,
                x2 == x1 + node@.width - 1,
                y2 == y1 + node@.height - 1,
                start_y as int == y1 + 1 + sat_sub(ah as int, lv.len() as int) / 2,
                start_y <= 0x2_0000,
                self.sgrid() == diamond_text_fold(
                    ge,
                    lv,
                    x1 as int,
                    y1 as int,
                    x2 as int,
                    y2 as int,
                    node@.width as int,
                    start_y as int,
                    i as int,
                ),
        {
            let ty: u32 = start_y + i as u32;
            let line = &lines[i];
            proof {
                assert(views_of(lines@)[i as int] == lines@[i as int]@);
            }
            let len = line.len();
            let lpad: usize = if node.width as usize >= len {
                node.width as usize - len
            } else {
                0
            };
            let tx0: u32 = x1 + (lpad / 2) as u32;
            if ty > y1 && ty < y2 {
                let ghost gl = self.sgrid();
                for j in 0..len
                    invariant
                        self.wf(),
                        self.width == old(self).width,
                        self.height == old(self).height,
                        len == line@.len(),
                        len <= 0xffff,
                        tx0 <= 0x2_0000,
                        ty <= 0x4_0000,
                        x1 == node@.x,
                        x2 == x1 + node@.width - 1,
                        self.sgrid() == line_fold_clip(
                            gl,
                            line@,
                            tx0 as int,
                            ty as int,
                            x1 as int + 1,
                            x2 as int - 1,
                            j as int,
                        ),
                {
                    let tx = tx0 + j as u32;
                    if tx > x1 + 1 && tx + 1 < x2 {
                        self.put(tx, ty, line[j]);
                    }
                }
            }
            proof {
                assert(self.sgrid() == diamond_text_fold(
                    ge,
                    lv,
                    x1 as int,
                    y1 as int,
                    x2 as int,
                    y2 as int,
                    node@.width as int,
                    start_y as int,
                    i + 1,
                ));
            }
        }
        proof {
            assert(vstd::math::min(lv.len() as int, ah as int) == count as int);
        }
    }
}

/// Where the first wrapped line of a text node starts vertically.
pub open spec fn n_start_y(n: NodeView, lines: Seq<Seq<char>>) -> int {
    n.y + sat_sub(n.height as int, lines.len() as int) / 2
}

/// `v` clamped to the `u16` range.
pub open spec fn clamp_u16(v: int) -> int {
    if v < 0 {
        0
    } else if v > 0xffff {
        0xffff
    } else {
        v
    }
}

/// A node moved from world to screen coordinates: its position less the
/// camera offset, clamped to the screen's edge.
pub open spec fn shift_node(n: NodeView, cam: (i32, i32)) -> NodeView {
    NodeView {
        x: clamp_u16(n.x - cam.0) as u16,
        y: clamp_u16(n.y - cam.1) as u16,
        ..n
    }
}

/// All nodes moved from world to screen coordinates.
pub open spec fn shifted_nodes(nodes: Seq<NodeView>, cam: (i32, i32)) -> Seq<NodeView> {
    Seq::new(nodes.len(), |i: int| shift_node(nodes[i], cam))
}

/// The in-progress connector's pointer position moved to screen
/// coordinates.
pub open spec fn shift_partial(p: Option<PartialConnection>, cam: (i32, i32)) -> Option<
    PartialConnection,
> {
    match p {
        Some(PartialConnection::Starting { from_id, from_offset, current_pos }) => Some(
            PartialConnection::Starting {
                from_id,
                from_offset,
                current_pos: (
                    clamp_u16(current_pos.0 - cam.0) as u16,
                    clamp_u16(current_pos.1 - cam.1) as u16,
                ),
            },
        ),
        None => None,
    }
}

/// One node drawn by its shape's outline algorithm; a frame uses the same
/// titled-rectangle primitive as a box.
pub open spec fn spec_draw_node(g: Seq<Seq<char>>, n: NodeView) -> Seq<Seq<char>> {
    match n.shape {
        ShapeType::Box => spec_draw_box(g, n),
        ShapeType::Frame => spec_draw_box(g, n),
        ShapeType::Diamond => spec_draw_diamond(g, n),
        ShapeType::Text => spec_draw_text_node(g, n),
    }
}

/// The first `count` nodes drawn in z-order, back to front.
pub open spec fn nodes_fold(g: Seq<Seq<char>>, nodes: Seq<NodeView>, count: int) -> Seq<Seq<char>>
    decreases count,
{
    if count <= 0 {
        g
    } else {
        spec_draw_node(nodes_fold(g, nodes, count - 1), nodes[count - 1])
    }
}

/// The first `count` connections drawn in order.
pub open spec fn conns_fold(g: Seq<Seq<char>>, s: AppStateView, count: int) -> Seq<Seq<char>>
    decreases count,
{
    if count <= 0 {
        g
    } else {
        spec_draw_connection(conns_fold(g, s, count - 1), s, count - 1)
    }
}

/// The camera-adjusted state that one frame is drawn from: the nodes and
/// the pointer of the in-progress connector moved to screen coordinates,
/// every transient drag field cleared.
pub open spec fn render_temp(s: AppStateView) -> AppStateView {
    AppStateView {
        title: s.title,
        nodes: shifted_nodes(s.nodes, s.camera_offset),
        connections: s.connections,
        dragging_node_id: None,
        drag_offset: (0u16, 0u16),
        camera_offset: (0i32, 0i32),
        partial_connection: shift_partial(s.partial_connection, s.camera_offset),
        selected_connection_index: s.selected_connection_index,
        resizing_node_id: None,
        connection_source_id: None,
        connection_has_arrow: false,
        mode: AppMode::Normal,
    }
}

/// What `render_to_canvas` produces on a `w` by `h` blank grid: all nodes
/// in z-order, then all connections, then the in-progress connector on top,
/// each drawn from camera-adjusted coordinates.
pub open spec fn spec_render(s: AppStateView, w: int, h: int) -> Seq<Seq<char>> {
    let temp = render_temp(s);
    let g1 = nodes_fold(blank_grid(w, h), temp.nodes, temp.nodes.len() as int);
    let g2 = conns_fold(g1, temp, temp.connections.len() as int);
    match temp.partial_connection {
        Some(PartialConnection::Starting { from_id, from_offset, current_pos }) => match find_node(
            temp.nodes,
            from_id,
        ) {
            Some(n) => spec_draw_partial(g2, n, from_offset, current_pos),
            None => g2,
        },
        None => g2,
    }
}

/// Every node that carries an outline has a positive size, so the outline
/// arithmetic is defined.
pub open spec fn nodes_drawable(nodes: Seq<NodeView>) -> bool {
    forall|i: int|
        0 <= i < nodes.len() ==> (#[trigger] nodes[i].shape == ShapeType::Text || (nodes[i].width
            >= 1 && nodes[i].height >= 1))
}

/// Do all outlined nodes have a positive size? Callers of
/// `render_to_canvas` test this before rendering a loaded diagram.
pub fn check_nodes_drawable(nodes: &Vec<Node>) -> (r: bool)
    ensures
        r == nodes_drawable(nodes.deep_view()),
{
    let n = nodes.len();
    for i in 0..n
        invariant
            n == nodes@.len(),
            forall|j: int|
                0 <= j < i ==> (#[trigger] nodes.deep_view()[j].shape == ShapeType::Text || (
                nodes.deep_view()[j].width >= 1 && nodes.deep_view()[j].height >= 1)),
    {
        let node = &nodes[i];
        if !(node.shape == ShapeType::Text) && (node.width == 0 || node.height == 0) {
            proof {
                assert(nodes.deep_view()[i as int] == nodes@[i as int]@);
                assert(!(nodes.deep_view()[i as int].shape == ShapeType::Text || (
                nodes.deep_view()[i as int].width >= 1 && nodes.deep_view()[i as int].height
                    >= 1)));
            }
            return false;
        }
        proof {
            assert(nodes.deep_view()[i as int] == nodes@[i as int]@);
        }
    }
    true
}

/// `v - cam`, clamped to the `u16` range.
fn clamp_world(v: u16, cam: i32) -> (r: u16)
    ensures
        r as int == clamp_u16(v as int - cam as int),
{
    let d: i64 = v as i64 - cam as i64;
    if d < 0 {
        0
    } else if d > 0xffff {
        0xffff
    } else {
        d as u16
    }
}

/// Render one frame: a fresh `width` by `height` character grid holding
/// every node (back to front), every connection and any in-progress
/// connector, all translated by the camera offset and clipped to the grid.
/// A pure function of its arguments: rendering the same state twice at the
/// same size yields the same grid.
pub fn render_to_canvas(state: &AppState, width: u16, height: u16) -> (r: Canvas)
    requires
        nodes_drawable(state@.nodes),
    ensures
        r.wf(),
        r.width == width,
        r.height == height,
        r.sgrid() == spec_render(state@, width as int, height as int),
{
    let mut canvas = Canvas::new(width, height);

    let mut nodes: Vec<Node> = Vec::new();
    let n = state.nodes.len();
    for i in 0..n
        invariant
            n == state.nodes@.len(),
            nodes@.len() == i,
            forall|j: int|
                0 <= j < i ==> #[trigger] nodes@[j]@ == shift_node(
                    state.nodes@[j]@,
                    state.camera_offset,
                ),
    {
        let nd = &state.nodes[i];
        nodes.push(
            Node {
                id: nd.id,
                shape: nd.shape,
                x: clamp_world(nd.x, state.camera_offset.0),
                y: clamp_world(nd.y, state.camera_offset.1),
                width: nd.width,
                height: nd.height,
                text: nd.text.clone(),
                selected: nd.selected,
            },
        );
    }
    proof {
        assert forall|j: int| 0 <= j < n implies nodes.deep_view()[j] == shifted_nodes(
            state@.nodes,
            state@.camera_offset,
        )[j] by {
            assert(nodes@[j]@ == shift_node(state.nodes@[j]@, state.camera_offset));
            assert(state@.nodes[j] == state.nodes@[j]@);
        }
        assert(nodes.deep_view() =~= shifted_nodes(state@.nodes, state@.camera_offset));
    }

    let mut temp = AppState::new(state.title.clone());
    temp.nodes = nodes;
    temp.connections = crate::model::copy_connections(&state.connections);
    temp.selected_connection_index = state.selected_connection_index;

    if let Some(PartialConnection::Starting { from_id, from_offset, current_pos }) =
        &state.partial_connection {
        temp.partial_connection = Some(
            PartialConnection::Starting {
                from_id: *from_id,
                from_offset: *from_offset,
                current_pos: (
                    clamp_world(current_pos.0, state.camera_offset.0),
                    clamp_world(current_pos.1, state.camera_offset.1),
                ),
            },
        );
    }

    let ghost tv = render_temp(state@);
    proof {
        assert(temp@.nodes =~= tv.nodes);
        assert(temp@.connections =~= tv.connections);
        assert(temp@.partial_connection == tv.partial_connection);
        assert(temp@ == tv);
    }

    let ghost g0 = blank_grid(width as int, height as int);
    let nn = temp.nodes.len();
    proof {
        assert(tv.nodes == shifted_nodes(state@.nodes, state@.camera_offset));
        assert(temp@.nodes.len() == temp.nodes@.len());
    }
    for i in 0..nn
        invariant
            nn == temp.nodes@.len(),
            nn == state@.nodes.len(),
            temp@ == tv,
            tv == render_temp(state@),
            nodes_drawable(state@.nodes),
            canvas.wf(),
            canvas.width == width,
            canvas.height == height,
            canvas.sgrid() == nodes_fold(g0, tv.nodes, i as int),
    {
        let node = &temp.nodes[i];
        proof {
            assert(tv.nodes == shifted_nodes(state@.nodes, state@.camera_offset));
            assert(tv.nodes[i as int] == temp.nodes@[i as int]@);
            assert(shifted_nodes(state@.nodes, state@.camera_offset)[i as int] == shift_node(
                state@.nodes[i as int],
                state@.camera_offset,
            ));
            assert(state@.nodes[i as int].shape == ShapeType::Text || (state@.nodes[i as int].width
                >= 1 && state@.nodes[i as int].height >= 1));
        }
        match node.shape {
            ShapeType::Box => canvas.draw_box(node),
            ShapeType::Frame => canvas.draw_box(node),
            ShapeType::Diamond => canvas.draw_diamond(node),
            ShapeType::Text => canvas.draw_text_node(node),
        }
    }

    let ghost g1 = nodes_fold(g0, tv.nodes, tv.nodes.len() as int);
    let nc = temp.connections.len();
    for i in 0..nc
        invariant
            nc == temp.connections@.len(),
            temp@ == tv,
            tv == render_temp(state@),
            canvas.wf(),
            canvas.width == width,
            canvas.height == height,
            g1 == nodes_fold(g0, tv.nodes, tv.nodes.len() as int),
            canvas.sgrid() == conns_fold(g1, tv, i as int),
    {
        canvas.draw_connection(&temp, i);
    }

    if let Some(PartialConnection::Starting { from_id, from_offset, current_pos }) =
        &temp.partial_connection {
        if let Some(idx) = find_node_position(&temp.nodes, *from_id) {
            canvas.draw_partial_connection(&temp.nodes[idx], *from_offset, *current_pos);
            proof {
                assert(tv.nodes[idx as int] == temp.nodes@[idx as int]@);
            }
        }
    }

    canvas
}

/// A horizontal run of `c` over columns `xa..=xb` of row `y`.
pub open spec fn hseg_fold(g: Seq<Seq<char>>, xa: int, xb: int, y: int, c: char) -> Seq<Seq<char>>
    decreases xb + 1 - xa,
{
    if xa > xb {
        g
    } else {
        hseg_fold(grid_set(g, xa, y, c), xa + 1, xb, y, c)
    }
}

/// A vertical run of `c` over rows `ya..=yb` of column `x`.
pub open spec fn vseg_fold(g: Seq<Seq<char>>, x: int, ya: int, yb: int, c: char) -> Seq<Seq<char>>
    decreases yb + 1 - ya,
{
    if ya > yb {
        g
    } else {
        vseg_fold(grid_set(g, x, ya, c), x, ya + 1, yb, c)
    }
}

/// The arrowhead for the final segment's direction.
pub open spec fn route_arrow_glyph(
    x1: int,
    y1: int,
    x2: int,
    y2: int,
    mid_x: int,
    mid_y: int,
    vertical_first: bool,
) -> char {
    if vertical_first {
        if y2 != mid_y {
            if y1 < y2 {
                'v'
            } else {
                '^'
            }
        } else {
            if x1 < x2 {
                '>'
            } else {
                '<'
            }
        }
    } else {
        if x2 != mid_x {
            if x1 < x2 {
                '>'
            } else {
                '<'
            }
        } else {
            if y1 < y2 {
                'v'
            } else {
                '^'
            }
        }
    }
}

/// What `draw_route` draws: the three orthogonal segments through the
/// midpoint row or column, junction glyphs at the bends, a terminator at
/// the start, and an arrowhead or terminator at the end. Highlighted routes
/// use the `=`/`#`/`@` glyph set.
pub open spec fn spec_draw_route(
    g: Seq<Seq<char>>,
    x1: int,
    y1: int,
    x2: int,
    y2: int,
    arrow: bool,
    highlighted: bool,
    vertical_first: bool,
) -> Seq<Seq<char>> {
    let horiz = if highlighted {
        '='
    } else {
        '-'
    };
    let vert = if highlighted {
        '#'
    } else {
        '|'
    };
    let join = if highlighted {
        '#'
    } else {
        '+'
    };
    let cap = if highlighted {
        '@'
    } else {
        'o'
    };
    let mid_y = (y1 + y2) / 2;
    let mid_x = (x1 + x2) / 2;
    let g3 = if vertical_first {
        let ga = vseg_fold(g, x1, vstd::math::min(y1, mid_y), vstd::math::max(y1, mid_y), vert);
        let gb = hseg_fold(ga, vstd::math::min(x1, x2), vstd::math::max(x1, x2), mid_y, horiz);
        let gc = vseg_fold(gb, x2, vstd::math::min(mid_y, y2), vstd::math::max(mid_y, y2), vert);
        if x1 != x2 {
            grid_set(grid_set(gc, x1, mid_y, join), x2, mid_y, join)
        } else {
            gc
        }
    } else {
        let ga = hseg_fold(g, vstd::math::min(x1, mid_x), vstd::math::max(x1, mid_x), y1, horiz);
        let gb = vseg_fold(ga, mid_x, vstd::math::min(y1, y2), vstd::math::max(y1, y2), vert);
        let gc = hseg_fold(gb, vstd::math::min(mid_x, x2), vstd::math::max(mid_x, x2), y2, horiz);
        if y1 != y2 {
            grid_set(grid_set(gc, mid_x, y1, join), mid_x, y2, join)
        } else {
            gc
        }
    };
    let g4 = grid_set(g3, x1, y1, cap);
    if arrow {
        grid_set(g4, x2, y2, route_arrow_glyph(x1, y1, x2, y2, mid_x, mid_y, vertical_first))
    } else {
        grid_set(g4, x2, y2, cap)
    }
}

impl Canvas {
    /// Draw the three-segment orthogonal route between two points.
    fn draw_route(
        &mut self,
        x1: u32,
        y1: u32,
        x2: u32,
        y2: u32,
        arrow: bool,
        highlighted: bool,
        vertical_first: bool,
    )
        requires
            old(self).wf(),
            x1 <= 0x2_0000,
            y1 <= 0x2_0000,
            x2 <= 0x2_0000,
            y2 <= 0x2_0000,
        ensures
            final(self).wf(),
            final(self).width == old(self).width,
            final(self).height == old(self).height,
            final(self).sgrid() == spec_draw_route(
                old(self).sgrid(),
                x1 as int,
                y1 as int,
                x2 as int,
                y2 as int,
                arrow,
                highlighted,
                vertical_first,
            ),
    {
        let horiz = if highlighted {
            '='
        } else {
            '-'
        };
        let vert = if highlighted {
            '#'
        } else {
            '|'
        };
        let join = if highlighted {
            '#'
        } else {
            '+'
        };
        let cap = if highlighted {
            '@'
        } else {
            'o'
        };

        let mid_y = (y1 + y2) / 2;
        let mid_x = (x1 + x2) / 2;

        if vertical_first {
            let iy1 = crate::model::umin(y1, mid_y);
            let iy2 = crate::model::umax(y1, mid_y);
            let ghost ga0 = self.sgrid();
            let mut y = iy1;
            while y <= iy2
                invariant
                    self.wf(),
                    self.width == old(self).width,
                    self.height == old(self).height,
                    iy1 <= y <= iy2 + 1,
                    iy2 <= 0x2_0000,
                    vseg_fold(ga0, x1 as int, iy1 as int, iy2 as int, vert) == vseg_fold(
                        self.sgrid(),
                        x1 as int,
                        y as int,
                        iy2 as int,
                        vert,
                    ),
                decreases iy2 + 1 - y,
            {
                self.put(x1, y, vert);
                y = y + 1;
            }
            let ix1 = crate::model::umin(x1, x2);
            let ix2 = crate::model::umax(x1, x2);
            let ghost gb0 = self.sgrid();
            let mut x = ix1;
            while x <= ix2
                invariant
                    self.wf(),
                    self.width == old(self).width,
                    self.height == old(self).height,
                    ix1 <= x <= ix2 + 1,
                    ix2 <= 0x2_0000,
                    hseg_fold(gb0, ix1 as int, ix2 as int, mid_y as int, horiz) == hseg_fold(
                        self.sgrid(),
                        x as int,
                        ix2 as int,
                        mid_y as int,
                        horiz,
                    ),
                decreases ix2 + 1 - x,
            {
                self.put(x, mid_y, horiz);
                x = x + 1;
            }
            let iy3 = crate::model::umin(mid_y, y2);
            let iy4 = crate::model::umax(mid_y, y2);
            let ghost gc0 = self.sgrid();
            let mut y = iy3;
            while y <= iy4
                invariant
                    self.wf(),
                    self.width == old(self).width,
                    self.height == old(self).height,
                    iy3 <= y <= iy4 + 1,
                    iy4 <= 0x2_0000,
                    vseg_fold(gc0, x2 as int, iy3 as int, iy4 as int, vert) == vseg_fold(
                        self.sgrid(),
                        x2 as int,
                        y as int,
                        iy4 as int,
                        vert,
                    ),
                decreases iy4 + 1 - y,
            {
                self.put(x2, y, vert);
                y = y + 1;
            }
            if x1 != x2 {
                self.put(x1, mid_y, join);
                self.put(x2, mid_y, join);
            }
        } else {
            let ix1 = crate::model::umin(x1, mid_x);
            let ix2 = crate::model::umax(x1, mid_x);
            let ghost ga0 = self.sgrid();
            let mut x = ix1;
            while x <= ix2
                invariant
                    self.wf(),
                    self.width == old(self).width,
                    self.height == old(self).height,
                    ix1 <= x <= ix2 + 1,
                    ix2 <= 0x2_0000,
                    hseg_fold(ga0, ix1 as int, ix2 as int, y1 as int, horiz) == hseg_fold(
                        self.sgrid(),
                        x as int,
                        ix2 as int,
                        y1 as int,
                        horiz,
                    ),
                decreases ix2 + 1 - x,
            {
                self.put(x, y1, horiz);
                x = x + 1;
            }
            let iy1 = crate::model::umin(y1, y2);
            let iy2 = crate::model::umax(y1, y2);
            let ghost gb0 = self.sgrid();
            let mut y = iy1;
            while y <= iy2
                invariant
                    self.wf(),
                    self.width == old(self).width,
                    self.height == old(self).height,
                    iy1 <= y <= iy2 + 1,
                    iy2 <= 0x2_0000,
                    vseg_fold(gb0, mid_x as int, iy1 as int, iy2 as int, vert) == vseg_fold(
                        self.sgrid(),
                        mid_x as int,
                        y as int,
                        iy2 as int,
                        vert,
                    ),
                decreases iy2 + 1 - y,
            {
                self.put(mid_x, y, vert);
                y = y + 1;
            }
            let ix3 = crate::model::umin(mid_x, x2);
            let ix4 = crate::model::umax(mid_x, x2);
            let ghost gc0 = self.sgrid();
            let mut x = ix3;
            while x <= ix4
                invariant
                    self.wf(),
                    self.width == old(self).width,
                    self.height == old(self).height,
                    ix3 <= x <= ix4 + 1,
                    ix4 <= 0x2_0000,
                    hseg_fold(gc0, ix3 as int, ix4 as int, y2 as int, horiz) == hseg_fold(
                        self.sgrid(),
                        x as int,
                        ix4 as int,
                        y2 as int,
                        horiz,
                    ),
                decreases ix4 + 1 - x,
            {
                self.put(x, y2, horiz);
                x = x + 1;
            }
            if y1 != y2 {
                self.put(mid_x, y1, join);
                self.put(mid_x, y2, join);
            }
        }

        self.put(x1, y1, cap);

        if arrow {
            let arrow_char = if vertical_first {
                if y2 != mid_y {
                    if y1 < y2 {
                        'v'
                    } else {
                        '^'
                    }
                } else {
                    if x1 < x2 {
                        '>'
                    } else {
                        '<'
                    }
                }
            } else {
                if x2 != mid_x {
                    if x1 < x2 {
                        '>'
                    } else {
                        '<'
                    }
                } else {
                    if y1 < y2 {
                        'v'
                    } else {
                        '^'
                    }
                }
            };
            self.put(x2, y2, arrow_char);
        } else {
            self.put(x2, y2, cap);
        }
    }
}

/// What `draw_connection` draws: nothing when either endpoint's node is
/// gone; otherwise the route between the two anchors, the target endpoint
/// pulled one cell outward when arrowed, vertical-first exactly when the
/// source anchor sits on the top or bottom edge, highlighted when this
/// connection is the selected one.
pub open spec fn spec_draw_connection(g: Seq<Seq<char>>, s: AppStateView, index: int) -> Seq<
    Seq<char>,
> {
    let conn = s.connections[index];
    match (find_node(s.nodes, conn.from_id), find_node(s.nodes, conn.to_id)) {
        (Some(f), Some(t)) => {
            let x1 = f.x + conn.from_offset.0;
            let y1 = f.y + conn.from_offset.1;
            let x2 = t.x + conn.to_offset.0;
            let y2 = t.y + conn.to_offset.1;
            let ax2 = if conn.has_arrow && !(conn.to_offset.1 == 0) && !(conn.to_offset.1
                == t.height - 1) && conn.to_offset.0 == 0 {
                sat_sub(x2, 1)
            } else if conn.has_arrow && !(conn.to_offset.1 == 0) && !(conn.to_offset.1 == t.height
                - 1) && !(conn.to_offset.0 == 0) && conn.to_offset.0 == t.width - 1 {
                x2 + 1
            } else {
                x2
            };
            let ay2 = if conn.has_arrow && conn.to_offset.1 == 0 {
                sat_sub(y2, 1)
            } else if conn.has_arrow && !(conn.to_offset.1 == 0) && conn.to_offset.1 == t.height
                - 1 {
                y2 + 1
            } else {
                y2
            };
            let vertical_first = conn.from_offset.1 == 0 || conn.from_offset.1 == f.height - 1;
            let is_selected = s.selected_connection_index == Some(index as usize);
            spec_draw_route(g, x1, y1, ax2, ay2, conn.has_arrow, is_selected, vertical_first)
        },
        _ => g,
    }
}

impl Canvas {
    /// Draw the connection at `index`: its orthogonal route between the two
    /// anchors, with an arrowhead just outside the target when arrowed, and
    /// highlighted glyphs when it is the selected connection.
    pub fn draw_connection(&mut self, state: &AppState, index: usize)
        requires
            old(self).wf(),
            index < state@.connections.len(),
        ensures
            final(self).wf(),
            final(self).width == old(self).width,
            final(self).height == old(self).height,
            final(self).sgrid() == spec_draw_connection(old(self).sgrid(), state@, index as int),
    {
        let conn = &state.connections[index];
        let from = find_node_position(&state.nodes, conn.from_id);
        let to = find_node_position(&state.nodes, conn.to_id);
        proof {
            lemma_node_index(state@.nodes, conn.from_id);
            lemma_node_index(state@.nodes, conn.to_id);
        }
        if let (Some(fi), Some(ti)) = (from, to) {
            let f = &state.nodes[fi];
            let t = &state.nodes[ti];
            proof {
                assert(state@.nodes[fi as int] == state.nodes@[fi as int]@);
                assert(state@.nodes[ti as int] == state.nodes@[ti as int]@);
            }
            let x1 = f.x as u32 + conn.from_offset.0 as u32;
            let y1 = f.y as u32 + conn.from_offset.1 as u32;
            let mut x2 = t.x as u32 + conn.to_offset.0 as u32;
            let mut y2 = t.y as u32 + conn.to_offset.1 as u32;

            if conn.has_arrow {
                if conn.to_offset.1 == 0 {
                    y2 = if y2 >= 1 {
                        y2 - 1
                    } else {
                        0
                    };
                } else if t.height > 0 && conn.to_offset.1 == t.height - 1 {
                    y2 = y2 + 1;
                } else if conn.to_offset.0 == 0 {
                    x2 = if x2 >= 1 {
                        x2 - 1
                    } else {
                        0
                    };
                } else if t.width > 0 && conn.to_offset.0 == t.width - 1 {
                    x2 = x2 + 1;
                }
            }

            let vertical_first = conn.from_offset.1 == 0 || (f.height > 0 && conn.from_offset.1
                == f.height - 1);
            let is_selected = match state.selected_connection_index {
                Some(j) => j == index,
                None => false,
            };
            self.draw_route(x1, y1, x2, y2, conn.has_arrow, is_selected, vertical_first);
        }
    }

    /// Draw the in-progress connector from its source anchor to the live
    /// pointer position, highlighted and arrowed.
    pub fn draw_partial_connection(&mut self, from_node: &Node, offset: (u16, u16), target: (
        u16,
        u16,
    ))
        requires
            old(self).wf(),
        ensures
            final(self).wf(),
            final(self).width == old(self).width,
            final(self).height == old(self).height,
            final(self).sgrid() == spec_draw_partial(old(self).sgrid(), from_node@, offset, target),
    {
        let x1 = from_node.x as u32 + offset.0 as u32;
        let y1 = from_node.y as u32 + offset.1 as u32;
        let x2 = target.0 as u32;
        let y2 = target.1 as u32;

        let vertical_first = offset.1 == 0 || (from_node.height > 0 && offset.1 == from_node.height
            - 1);
        self.draw_route(x1, y1, x2, y2, true, true, vertical_first);
    }
}

/// What `draw_partial_connection` draws: a highlighted, arrowed route from
/// the source anchor to the pointer.
pub open spec fn spec_draw_partial(
    g: Seq<Seq<char>>,
    n: NodeView,
    offset: (u16, u16),
    target: (u16, u16),
) -> Seq<Seq<char>> {
    let vertical_first = offset.1 == 0 || offset.1 == n.height - 1;
    spec_draw_route(
        g,
        n.x + offset.0,
        n.y + offset.1,
        target.0 as int,
        target.1 as int,
        true,
        true,
        vertical_first,
    )
}

/// The rows of `g` joined, each row followed by a newline.
pub open spec fn grid_string(g: Seq<Seq<char>>) -> Seq<char>
    decreases g.len(),
{
    if g.len() == 0 {
        Seq::empty()
    } else {
        grid_string(g.drop_last()) + g.last() + seq!['\n']
    }
}

impl Canvas {
    /// The grid as one string: rows in order, a newline after each.
    pub fn to_string(&self) -> (r: String)
        ensures
            r@ == grid_string(self.sgrid()),
    {
        let mut out: Vec<char> = Vec::new();
        let h = self.grid.len();
        for y in 0..h
            invariant
                h == self.grid@.len(),
                out@ == grid_string(self.sgrid().take(y as int)),
        {
            let ghost before = out@;
            let row_len = self.grid[y].len();
            for x in 0..row_len
                invariant
                    y < self.grid@.len(),
                    row_len == self.grid@[y as int]@.len(),
                    out@ == before + self.grid@[y as int]@.take(x as int),
            {
                out.push(self.grid[y][x]);
                proof {
                    assert(out@ =~= before + self.grid@[y as int]@.take(x + 1));
                }
            }
            out.push('\n');
            proof {
                assert(self.sgrid().take(y as int) =~= self.sgrid().take(y + 1).drop_last());
                assert(self.sgrid().take(y + 1).last() == self.sgrid()[y as int]);
                assert(self.sgrid()[y as int] == self.grid@[y as int]@);
                assert(self.grid@[y as int]@.take(row_len as int) =~= self.grid@[y as int]@);
                assert(out@ =~= grid_string(self.sgrid().take(y as int)) + self.sgrid()[y as int]
                    + seq!['\n']);
            }
        }
        proof {
            assert(self.sgrid().take(h as int) =~= self.sgrid());
        }
        chars_to_string(&out)
    }
}

} // verus!
