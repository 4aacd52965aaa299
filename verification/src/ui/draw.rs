use vstd::prelude::*;

use crate::dialog::parse::chars_of;
use crate::ui::{fits_i32, intersect_fits, law_intersect_inside, same_but_children, sort_by_focus, spec_intersect, tree_shaped, TextLabel, UINode, UI};

verus! {

/// One node to draw: the node, where its own origin lies on the screen, and the rectangle
/// that drawing is clipped to.
#[derive(Clone, Copy, Debug, PartialEq, Eq)]
pub struct DrawCall {
    pub node: usize,
    pub offset: (i32, i32),
    pub clip: (i32, i32, u32, u32),
}

/// The draw calls for node `n` and everything under it, parents before children and children
/// in the order of the list, with `clip` the rectangle that `n` may draw into and `offset` the
/// screen position of its parent's origin. A child is drawn only where its parent's clip
/// rectangle, moved to the parent's origin, overlaps `clip`, and into that overlap. `None`
/// where a coordinate leaves `i32` on the way.
pub open spec fn spec_traverse(nodes: Seq<UINode>, n: int, clip: (i32, i32, u32, u32), offset: (i32, i32)) -> Option<Seq<DrawCall>>
    decreases nodes.len() - n, nodes[n].children@.len() + 1,
{
    if 0 <= n < nodes.len() && fits_i32(offset.0 + nodes[n].x) && fits_i32(offset.1 + nodes[n].y) {
        let local = ((offset.0 + nodes[n].x) as i32, (offset.1 + nodes[n].y) as i32);
        match spec_traverse_children(nodes, n, nodes[n].children@.len() as int, clip, local) {
            Some(rest) => Some(seq![DrawCall { node: n as usize, offset: local, clip }] + rest),
            None => None,
        }
    } else {
        None
    }
}

/// The draw calls for the first `k` children of node `n` and what lies under them; `local`
/// is the screen position of `n`'s origin.
pub open spec fn spec_traverse_children(
    nodes: Seq<UINode>,
    n: int,
    k: int,
    clip: (i32, i32, u32, u32),
    local: (i32, i32),
) -> Option<Seq<DrawCall>>
    decreases nodes.len() - n, k,
{
    if k <= 0 || !(0 <= n < nodes.len()) {
        Some(Seq::empty())
    } else {
        match spec_traverse_children(nodes, n, k - 1, clip, local) {
            None => None,
            Some(prefix) => {
                let c = nodes[n].children@[k - 1] as int;
                let cx = nodes[n].clip.0 + local.0;
                let cy = nodes[n].clip.1 + local.1;
                if !(fits_i32(cx) && fits_i32(cy)) {
                    None
                } else {
                    let child_clip = (cx as i32, cy as i32, nodes[n].clip.2, nodes[n].clip.3);
                    if !intersect_fits(clip, child_clip) {
                        None
                    } else {
                        match spec_intersect(clip, child_clip) {
                            None => Some(prefix),
                            Some(inner) => {
                                if n < c < nodes.len() {
                                    match spec_traverse(nodes, c, inner, local) {
                                        Some(s) => Some(prefix + s),
                                        None => None,
                                    }
                                } else {
                                    Some(prefix)
                                }
                            },
                        }
                    }
                }
            },
        }
    }
}

/// Once a child's draw calls cannot be computed, neither can those of the later children.
proof fn lemma_traverse_children_fails_on(
    nodes: Seq<UINode>,
    n: int,
    k: int,
    m: int,
    clip: (i32, i32, u32, u32),
    local: (i32, i32),
)
    requires
        0 <= n < nodes.len(),
        0 <= k <= m,
        spec_traverse_children(nodes, n, k, clip, local) is None,
    ensures
        spec_traverse_children(nodes, n, m, clip, local) is None,
    decreases m - k,
{
    if m > k {
        lemma_traverse_children_fails_on(nodes, n, k, m - 1, clip, local);
    }
}

/// Whether the arithmetic of `UI::intersect` on `a` and `b` stays within `i32`.
fn intersect_arith_fits(a: (i32, i32, u32, u32), b: (i32, i32, u32, u32)) -> (ok: bool)
    ensures
        ok == intersect_fits(a, b),
{
    let lo: i64 = -2147483648;
    let hi: i64 = 2147483647;
    let ax2: i64 = a.0 as i64 + (a.2 as i32) as i64;
    let ay2: i64 = a.1 as i64 + (a.3 as i32) as i64;
    let bx2: i64 = b.0 as i64 + (b.2 as i32) as i64;
    let by2: i64 = b.1 as i64 + (b.3 as i32) as i64;
    if !(lo <= ax2 && ax2 <= hi && lo <= ay2 && ay2 <= hi && lo <= bx2 && bx2 <= hi && lo <= by2 && by2 <= hi) {
        return false;
    }
    let x1: i64 = if a.0 > b.0 { a.0 as i64 } else { b.0 as i64 };
    let y1: i64 = if a.1 > b.1 { a.1 as i64 } else { b.1 as i64 };
    let x2: i64 = if ax2 < bx2 { ax2 } else { bx2 };
    let y2: i64 = if ay2 < by2 { ay2 } else { by2 };
    if x2 > x1 && y2 > y1 {
        x2 - x1 <= hi && y2 - y1 <= hi
    } else {
        true
    }
}

impl UI {
    /// The draw calls for `node` and everything under it (see `spec_traverse`); `None` where a
    /// coordinate would leave `i32`.
    pub fn traverse_render(&self, node: usize, clip: (i32, i32, u32, u32), local_offset: (i32, i32)) -> (calls: Option<Vec<DrawCall>>)
        requires
            self.wf(),
            node < self.nodes@.len(),
        ensures
            calls.is_some() == spec_traverse(self.nodes@, node as int, clip, local_offset).is_some(),
            calls matches Some(v) ==> spec_traverse(self.nodes@, node as int, clip, local_offset) == Some(v@),
        decreases self.nodes@.len() - node,
    {
        let ghost nodes = self.nodes@;
        let ox = match local_offset.0.checked_add(self.nodes[node].x) {
            Some(v) => v,
            None => return None,
        };
        let oy = match local_offset.1.checked_add(self.nodes[node].y) {
            Some(v) => v,
            None => return None,
        };
        let local = (ox, oy);
        let parent_clip = self.nodes[node].clip;
        let n_children = self.nodes[node].children.len();
        let mut rest: Vec<DrawCall> = Vec::new();
        let mut k: usize = 0;
        while k < n_children
            invariant
                self.wf(),
                nodes == self.nodes@,
                node < nodes.len(),
                n_children == nodes[node as int].children@.len(),
                parent_clip == nodes[node as int].clip,
                local == ((local_offset.0 + nodes[node as int].x) as i32, (local_offset.1 + nodes[node as int].y) as i32),
                k <= n_children,
                spec_traverse_children(nodes, node as int, k as int, clip, local) == Some(rest@),
            decreases n_children - k,
        {
            let c = self.nodes[node].children[k];
            proof {
                assert(tree_shaped(nodes));
                assert(node < nodes[node as int].children@[k as int] < nodes.len());
            }
            let cx = match parent_clip.0.checked_add(local.0) {
                Some(v) => v,
                None => {
                    proof { lemma_traverse_children_fails_on(nodes, node as int, k + 1, n_children as int, clip, local); }
                    return None;
                },
            };
            let cy = match parent_clip.1.checked_add(local.1) {
                Some(v) => v,
                None => {
                    proof { lemma_traverse_children_fails_on(nodes, node as int, k + 1, n_children as int, clip, local); }
                    return None;
                },
            };
            let child_clip = (cx, cy, parent_clip.2, parent_clip.3);
            if !intersect_arith_fits(clip, child_clip) {
                proof { lemma_traverse_children_fails_on(nodes, node as int, k + 1, n_children as int, clip, local); }
                return None;
            }
            match UI::intersect(clip, child_clip) {
                None => {},
                Some(inner) => {
                    match self.traverse_render(c, inner, local) {
                        None => {
                            proof { lemma_traverse_children_fails_on(nodes, node as int, k + 1, n_children as int, clip, local); }
                            return None;
                        },
                        Some(sub) => {
                            let mut sub = sub;
                            rest.append(&mut sub);
                        },
                    }
                },
            }
            k += 1;
        }
        let mut calls: Vec<DrawCall> = Vec::new();
        calls.push(DrawCall { node, offset: local, clip });
        calls.append(&mut rest);
        Some(calls)
    }
}

/// The characters of the font texture, row by row.
pub const FONT_CHARS: &'static str = "ABCDEFGHIJKLMNOPQRSTUVWXYZabcdefghijklmnopqrstuvwxyz0123456789 .!,- ?  _";

/// How many characters a row of the font texture holds.
pub const FONT_WIDTH: usize = 10;

/// One character to draw: where, and which cell (column, row) of the font texture.
#[derive(Clone, Copy, Debug, PartialEq, Eq, Structural)]
pub struct Glyph {
    pub x: i32,
    pub y: i32,
    pub column: usize,
    pub row: usize,
}

/// The font cell of a character: where it first occurs in `FONT_CHARS`, and the cell
/// (7, 6) for a character that the font lacks.
pub open spec fn font_cell(c: char) -> (usize, usize) {
    match FONT_CHARS@.index_of_first(c) {
        Some(i) => ((i % (FONT_WIDTH as int)) as usize, (i / (FONT_WIDTH as int)) as usize),
        None => (7usize, 6usize),
    }
}

/// The glyphs of `message`, written from `(x, y)` on a line that starts at `line_x`: a
/// character advances the pen by 6, a line break moves it to the start of a line 10 lower,
/// and a space draws nothing. `None` where the pen would leave `i32`.
pub open spec fn spec_layout(message: Seq<char>, line_x: int, x: int, y: int) -> Option<Seq<Glyph>>
    decreases message.len(),
{
    if message.len() == 0 {
        Some(Seq::empty())
    } else {
        let c = message[0];
        let rest = message.drop_first();
        if c == '\n' {
            if fits_i32(y + 10) {
                spec_layout(rest, line_x, line_x, y + 10)
            } else {
                None
            }
        } else if fits_i32(x + 6) {
            let tail = spec_layout(rest, line_x, x + 6, y);
            if c == ' ' {
                tail
            } else {
                match tail {
                    Some(t) => Some(seq![Glyph { x: x as i32, y: y as i32, column: font_cell(c).0, row: font_cell(c).1 }] + t),
                    None => None,
                }
            }
        } else {
            None
        }
    }
}

/// The glyphs of a text label whose parent's origin is at `offset` on the screen.
pub open spec fn text_layout(text: TextLabel, offset: (i32, i32)) -> Option<Seq<Glyph>> {
    if fits_i32(text.x + offset.0) && fits_i32(text.y + offset.1) {
        spec_layout(text.message@, text.x + offset.0, text.x + offset.0, text.y + offset.1)
    } else {
        None
    }
}

/// `prefix` followed by what `rest` holds, if anything.
pub open spec fn then_glyphs(prefix: Seq<Glyph>, rest: Option<Seq<Glyph>>) -> Option<Seq<Glyph>> {
    match rest {
        Some(r) => Some(prefix + r),
        None => None,
    }
}

/// The font cell of `c`; `font` holds `FONT_CHARS`.
fn find_font_cell(font: &Vec<char>, c: char) -> (cell: (usize, usize))
    requires
        font@ == FONT_CHARS@,
    ensures
        cell == font_cell(c),
{
    let mut i: usize = 0;
    while i < font.len()
        invariant
            font@ == FONT_CHARS@,
            i <= font@.len(),
            forall|j: int| 0 <= j < i ==> font@[j] != c,
        decreases font@.len() - i,
    {
        if font[i] == c {
            proof {
                font@.index_of_first_ensures(c);
                assert(font@.contains(c));
                let idx = font@.index_of_first(c)->0;
                if idx < i {
                    assert(font@[idx] != c);
                }
                if idx > i {
                    assert(font@[i as int] != c);
                }
                assert(idx == i);
            }
            return (i % FONT_WIDTH, i / FONT_WIDTH);
        }
        i += 1;
    }
    proof {
        font@.index_of_first_ensures(c);
        assert(!font@.contains(c));
    }
    (7, 6)
}

impl UI {
    /// The glyphs that draw a text label whose parent's origin is at `local_offset` (see
    /// `spec_layout`); `None` where the pen would leave `i32`.
    pub fn render_text_label(text: &TextLabel, local_offset: (i32, i32)) -> (glyphs: Option<Vec<Glyph>>)
        ensures
            glyphs.is_some() == text_layout(*text, local_offset).is_some(),
            glyphs matches Some(g) ==> text_layout(*text, local_offset) == Some(g@),
    {
        let line_x = match text.x.checked_add(local_offset.0) {
            Some(v) => v,
            None => return None,
        };
        let mut y = match text.y.checked_add(local_offset.1) {
            Some(v) => v,
            None => return None,
        };
        let mut x = line_x;
        let font = chars_of(FONT_CHARS);
        let message = chars_of(text.message.as_str());
        let ghost msg = message@;
        let mut glyphs: Vec<Glyph> = Vec::new();
        let mut i: usize = 0;
        proof {
            assert(msg.skip(0) =~= msg);
            match spec_layout(msg, line_x as int, x as int, y as int) {
                Some(t) => {
                    assert(glyphs@ + t =~= t);
                },
                None => {},
            }
        }
        while i < message.len()
            invariant
                msg == message@,
                msg == text.message@,
                font@ == FONT_CHARS@,
                i <= msg.len(),
                text_layout(*text, local_offset) == then_glyphs(glyphs@, spec_layout(msg.skip(i as int), line_x as int, x as int, y as int)),
                line_x == text.x + local_offset.0,
            decreases msg.len() - i,
        {
            let c = message[i];
            let ghost tail = msg.skip(i as int);
            proof {
                assert(tail[0] == c);
                assert(tail.drop_first() =~= msg.skip(i + 1));
            }
            if c == '\n' {
                y = match y.checked_add(10) {
                    Some(v) => v,
                    None => return None,
                };
                x = line_x;
            } else {
                let next_x = match x.checked_add(6) {
                    Some(v) => v,
                    None => return None,
                };
                if c != ' ' {
                    let cell = find_font_cell(&font, c);
                    let ghost before = glyphs@;
                    glyphs.push(Glyph { x, y, column: cell.0, row: cell.1 });
                    proof {
                        let g = Glyph { x, y, column: cell.0, row: cell.1 };
                        match spec_layout(msg.skip(i + 1), line_x as int, next_x as int, y as int) {
                            Some(t) => {
                                assert(before + (seq![g] + t) =~= glyphs@ + t);
                            },
                            None => {},
                        }
                    }
                }
                x = next_x;
            }
            i += 1;
        }
        proof {
            assert(msg.skip(i as int) =~= Seq::<char>::empty());
            assert(glyphs@ + Seq::<Glyph>::empty() =~= glyphs@);
        }
        Some(glyphs)
    }
}

/// The scissor box of OpenGL for a clip rectangle, on a screen `screen_h` high: the corner
/// is counted from the bottom of the screen. `None` where that leaves `i32`.
pub open spec fn spec_scissor(screen_h: u32, clip: (i32, i32, u32, u32)) -> Option<(i32, i32, i32, i32)> {
    let a = (screen_h as i32) - clip.1;
    let b = a - (clip.3 as i32);
    if fits_i32(a) && fits_i32(b) {
        Some((clip.0, b as i32, clip.2 as i32, clip.3 as i32))
    } else {
        None
    }
}

impl UI {
    /// Sorts the children of every node by focus, then lists the draw calls of the whole
    /// tree, from the root, clipped to the screen.
    pub fn draw_calls(&mut self) -> (calls: Option<Vec<DrawCall>>)
        requires
            old(self).wf(),
        ensures
            final(self).wf(),
            final(self).nodes@.len() == old(self).nodes@.len(),
            forall|i: int| 0 <= i < old(self).nodes@.len() ==> same_but_children(#[trigger] final(self).nodes@[i], old(self).nodes@[i]),
            forall|i: int| 0 <= i < old(self).nodes@.len() ==> #[trigger] final(self).nodes@[i].children@ == sort_by_focus(old(self).nodes@, old(self).nodes@[i].children@),
            final(self).current_node == old(self).current_node,
            final(self).parent_nodes@ == old(self).parent_nodes@,
            final(self).last_modified == old(self).last_modified,
            final(self).current_global_origin == old(self).current_global_origin,
            final(self).same_settings(old(self)),
            calls.is_some() == spec_traverse(final(self).nodes@, 0, (0i32, 0i32, old(self).screen_size.0, old(self).screen_size.1), (0i32, 0i32)).is_some(),
            calls matches Some(v) ==> spec_traverse(final(self).nodes@, 0, (0i32, 0i32, old(self).screen_size.0, old(self).screen_size.1), (0i32, 0i32)) == Some(v@),
    {
        UINode::sort_all(&mut self.nodes);
        let screen = (0i32, 0i32, self.screen_size.0, self.screen_size.1);
        self.traverse_render(self.tree, screen, (0, 0))
    }

    /// The scissor box for drawing into `clip` (see `spec_scissor`).
    pub fn scissor_rect(&self, clip: (i32, i32, u32, u32)) -> (r: Option<(i32, i32, i32, i32)>)
        ensures
            r == spec_scissor(self.screen_size.1, clip),
    {
        let a = match (self.screen_size.1 as i32).checked_sub(clip.1) {
            Some(v) => v,
            None => return None,
        };
        let b = match a.checked_sub(clip.3 as i32) {
            Some(v) => v,
            None => return None,
        };
        Some((clip.0, b, clip.2 as i32, clip.3 as i32))
    }
}

/// `r` lies inside `c`.
pub open spec fn rect_within(r: (i32, i32, u32, u32), c: (i32, i32, u32, u32)) -> bool {
    &&& r.0 >= c.0
    &&& r.1 >= c.1
    &&& r.0 + r.2 <= c.0 + (c.2 as i32)
    &&& r.1 + r.3 <= c.1 + (c.3 as i32)
}

/// The width and height of `c` fit in `i32`.
pub open spec fn small_rect(c: (i32, i32, u32, u32)) -> bool {
    c.2 <= i32::MAX && c.3 <= i32::MAX
}

proof fn lemma_traverse_within(nodes: Seq<UINode>, n: int, clip: (i32, i32, u32, u32), offset: (i32, i32))
    requires
        small_rect(clip),
        spec_traverse(nodes, n, clip, offset) is Some,
    ensures
        forall|i: int| 0 <= i < spec_traverse(nodes, n, clip, offset)->0.len() ==>
            rect_within(#[trigger] spec_traverse(nodes, n, clip, offset)->0[i].clip, clip),
    decreases nodes.len() - n, nodes[n].children@.len() + 1,
{
    let local = ((offset.0 + nodes[n].x) as i32, (offset.1 + nodes[n].y) as i32);
    lemma_traverse_children_within(nodes, n, nodes[n].children@.len() as int, clip, local);
    let s = spec_traverse(nodes, n, clip, offset)->0;
    let rest = spec_traverse_children(nodes, n, nodes[n].children@.len() as int, clip, local)->0;
    assert forall|i: int| 0 <= i < s.len() implies rect_within(#[trigger] s[i].clip, clip) by {
        if i > 0 {
            assert(s[i] == rest[i - 1]);
        }
    }
}

proof fn lemma_traverse_children_within(
    nodes: Seq<UINode>,
    n: int,
    k: int,
    clip: (i32, i32, u32, u32),
    local: (i32, i32),
)
    requires
        small_rect(clip),
        spec_traverse_children(nodes, n, k, clip, local) is Some,
    ensures
        forall|i: int| 0 <= i < spec_traverse_children(nodes, n, k, clip, local)->0.len() ==>
            rect_within(#[trigger] spec_traverse_children(nodes, n, k, clip, local)->0[i].clip, clip),
    decreases nodes.len() - n, k,
{
    if k > 0 && 0 <= n < nodes.len() {
        lemma_traverse_children_within(nodes, n, k - 1, clip, local);
        let prefix = spec_traverse_children(nodes, n, k - 1, clip, local)->0;
        let c = nodes[n].children@[k - 1] as int;
        let cx = nodes[n].clip.0 + local.0;
        let cy = nodes[n].clip.1 + local.1;
        let child_clip = (cx as i32, cy as i32, nodes[n].clip.2, nodes[n].clip.3);
        match spec_intersect(clip, child_clip) {
            Some(inner) => {
                if n < c < nodes.len() {
                    law_intersect_inside(clip, child_clip);
                    assert(small_rect(inner));
                    lemma_traverse_within(nodes, c, inner, local);
                    let sub = spec_traverse(nodes, c, inner, local)->0;
                    let all = spec_traverse_children(nodes, n, k, clip, local)->0;
                    assert(all == prefix + sub);
                    assert forall|i: int| 0 <= i < all.len() implies rect_within(#[trigger] all[i].clip, clip) by {
                        if i >= prefix.len() {
                            assert(all[i] == sub[i - prefix.len()]);
                            assert(rect_within(sub[i - prefix.len()].clip, inner));
                        } else {
                            assert(all[i] == prefix[i]);
                        }
                    }
                }
            },
            None => {},
        }
    }
}

/// Law: every node is drawn inside the clip rectangle that its subtree was given; with the
/// screen as the root's rectangle, nothing is drawn outside the screen.
pub proof fn law_draw_calls_within_clip(nodes: Seq<UINode>, n: int, clip: (i32, i32, u32, u32), offset: (i32, i32))
    requires
        small_rect(clip),
        spec_traverse(nodes, n, clip, offset) is Some,
    ensures
        forall|i: int| 0 <= i < spec_traverse(nodes, n, clip, offset)->0.len() ==>
            rect_within(#[trigger] spec_traverse(nodes, n, clip, offset)->0[i].clip, clip),
{
    lemma_traverse_within(nodes, n, clip, offset);
}

} // verus!
