use vstd::prelude::*;

pub mod draw;
pub mod implement;

verus! {

/// The look of a frame: plain, or with a title bar and close and resize corners.
#[derive(Clone, Copy, Debug, PartialEq, Eq, Structural)]
pub enum FrameType {
    Simple,
    Interactable,
}

impl FrameType {
    /// Where the frame's nine cells start in the frame texture.
    pub fn get_texture_origin(&self) -> (o: (u32, u32))
        ensures
            o == (match *self {
                FrameType::Simple => (0u32, 0u32),
                FrameType::Interactable => (48u32, 0u32),
            }),
    {
        match self {
            Self::Simple => (0, 0),
            Self::Interactable => (48, 0),
        }
    }
}

/// What the mouse did to an interactable frame. A scroll over the frame's body is reported
/// as `Scroll`; the amount is the input's scroll value.
#[derive(Clone, Copy, Debug, PartialEq, Eq, Structural)]
pub enum FrameInteraction {
    Close,
    DragBegin,
    ResizeBegin,
    Scroll,
    OtherContentsClicked,
}

/// What the mouse did to a slider: whether it was clicked, and the progress under the mouse.
#[derive(Clone, Copy, Debug, PartialEq, Eq, Structural)]
pub struct SliderInteraction {
    pub clicked: bool,
    pub progress: u32,
}

#[derive(Debug)]
pub struct NineCell {
    pub x: i32,
    pub y: i32,
    pub w: u32,
    pub h: u32,
    pub frame_type: FrameType,
}

#[derive(Debug)]
pub struct TextLabel {
    pub x: i32,
    pub y: i32,
    pub message: String,
}

#[derive(Debug)]
pub struct TextureLabel {
    pub x: i32,
    pub y: i32,
    pub w: u32,
    pub h: u32,
    pub tx: u32,
    pub ty: u32,
    pub tw: u32,
    pub th: u32,
    pub texture: String,
}

#[derive(Debug)]
pub struct Slider {
    pub x: i32,
    pub y: i32,
    pub size: u32,
    pub slider_pos: u32,
    pub vertical: bool,
}

/// What a node of the interface draws.
#[derive(Debug)]
pub enum ElementType {
    NineCell(NineCell),
    TextLabel(TextLabel),
    TextureLabel(TextureLabel),
    TitledNineCell(NineCell, String),
    Slider(Slider),
    Blank,
}

/// A node of the interface tree. Its children are the indices of other nodes of the store
/// that holds it (see `UI`).
#[derive(Debug)]
pub struct UINode {
    pub children: Vec<usize>,
    pub clip: (i32, i32, u32, u32),
    pub draw: ElementType,
    pub focus: u32,
    pub x: i32,
    pub y: i32,
}

/// `n` is the root of a fresh tree.
pub open spec fn is_root(n: UINode) -> bool {
    &&& n.children@.len() == 0
    &&& n.clip == (0i32, 0i32, 1280u32, 960u32)
    &&& n.draw is Blank
    &&& n.focus == 0
    &&& n.x == 0
    &&& n.y == 0
}

/// Inserts `c` into the list `s`, which is ordered by the focus of the nodes it names,
/// after every node whose focus is not greater.
pub open spec fn insert_by_focus(nodes: Seq<UINode>, s: Seq<usize>, c: usize) -> Seq<usize>
    decreases s.len(),
{
    if s.len() == 0 {
        seq![c]
    } else if nodes[s.last() as int].focus <= nodes[c as int].focus {
        s.push(c)
    } else {
        insert_by_focus(nodes, s.drop_last(), c).push(s.last())
    }
}

/// The list `s` of nodes sorted by focus; nodes of equal focus keep their order.
pub open spec fn sort_by_focus(nodes: Seq<UINode>, s: Seq<usize>) -> Seq<usize>
    decreases s.len(),
{
    if s.len() == 0 {
        s
    } else {
        insert_by_focus(nodes, sort_by_focus(nodes, s.drop_last()), s.last())
    }
}

/// `a` and `b` agree on everything but their children.
pub open spec fn same_but_children(a: UINode, b: UINode) -> bool {
    &&& a.clip == b.clip
    &&& a.draw == b.draw
    &&& a.focus == b.focus
    &&& a.x == b.x
    &&& a.y == b.y
}

/// Every child index names a later node of the store.
pub open spec fn tree_shaped(nodes: Seq<UINode>) -> bool {
    forall|i: int, k: int|
        0 <= i < nodes.len() && 0 <= k < nodes[i].children@.len() ==> i < #[trigger] nodes[i].children@[k] < nodes.len()
}

pub proof fn lemma_insert_by_focus_contains(nodes: Seq<UINode>, s: Seq<usize>, c: usize)
    ensures
        insert_by_focus(nodes, s, c).len() == s.len() + 1,
        forall|x: usize| #[trigger] insert_by_focus(nodes, s, c).contains(x) <==> (s.contains(x) || x == c),
    decreases s.len(),
{
    if s.len() > 0 && !(nodes[s.last() as int].focus <= nodes[c as int].focus) {
        lemma_insert_by_focus_contains(nodes, s.drop_last(), c);
        let r = insert_by_focus(nodes, s.drop_last(), c);
        assert(insert_by_focus(nodes, s, c) == r.push(s.last()));
        assert forall|x: usize| #[trigger] insert_by_focus(nodes, s, c).contains(x) <==> (s.contains(x) || x == c) by {
            if s.contains(x) || x == c {
                if x == c || s.drop_last().contains(x) {
                    assert(r.contains(x));
                    let m = choose|m: int| 0 <= m < r.len() && r[m] == x;
                    assert(r.push(s.last())[m] == x);
                } else {
                    let j = choose|j: int| 0 <= j < s.len() && s[j] == x;
                    if j < s.len() - 1 {
                        assert(s.drop_last()[j] == x);
                    }
                    assert(r.push(s.last())[r.len() as int] == x);
                }
            }
            if r.push(s.last()).contains(x) {
                let m = choose|m: int| 0 <= m < r.len() + 1 && r.push(s.last())[m] == x;
                if m < r.len() {
                    assert(r[m] == x);
                    assert(r.contains(x));
                    if s.drop_last().contains(x) {
                        let j = choose|j: int| 0 <= j < s.len() - 1 && s.drop_last()[j] == x;
                        assert(s[j] == x);
                    }
                } else {
                    assert(s[s.len() - 1] == x);
                }
            }
        }
    } else if s.len() > 0 {
        assert forall|x: usize| #[trigger] s.push(c).contains(x) <==> (s.contains(x) || x == c) by {
            if s.push(c).contains(x) {
                let m = choose|m: int| 0 <= m < s.len() + 1 && s.push(c)[m] == x;
                if m < s.len() {
                    assert(s[m] == x);
                }
            }
            if s.contains(x) {
                let j = choose|j: int| 0 <= j < s.len() && s[j] == x;
                assert(s.push(c)[j] == x);
            }
            if x == c {
                assert(s.push(c)[s.len() as int] == x);
            }
        }
    } else {
        assert forall|x: usize| #[trigger] seq![c].contains(x) <==> (s.contains(x) || x == c) by {
            if x == c {
                assert(seq![c][0] == x);
            }
        }
    }
}

pub proof fn lemma_sort_by_focus_contains(nodes: Seq<UINode>, s: Seq<usize>)
    ensures
        sort_by_focus(nodes, s).len() == s.len(),
        forall|x: usize| #[trigger] sort_by_focus(nodes, s).contains(x) <==> s.contains(x),
    decreases s.len(),
{
    if s.len() > 0 {
        lemma_sort_by_focus_contains(nodes, s.drop_last());
        lemma_insert_by_focus_contains(nodes, sort_by_focus(nodes, s.drop_last()), s.last());
        assert forall|x: usize| #[trigger] sort_by_focus(nodes, s).contains(x) <==> s.contains(x) by {
            if s.contains(x) {
                let j = choose|j: int| 0 <= j < s.len() && s[j] == x;
                if j < s.len() - 1 {
                    assert(s.drop_last()[j] == x);
                }
            }
            if s.drop_last().contains(x) {
                let j = choose|j: int| 0 <= j < s.len() - 1 && s.drop_last()[j] == x;
                assert(s[j] == x);
            }
        }
    }
}

/// Sorts a list of children by focus, keeping the order of equal ones.
fn sort_children(nodes: &Vec<UINode>, children: &Vec<usize>) -> (sorted: Vec<usize>)
    requires
        forall|k: int| 0 <= k < children@.len() ==> #[trigger] children@[k] < nodes@.len(),
    ensures
        sorted@ == sort_by_focus(nodes@, children@),
{
    let mut sorted: Vec<usize> = Vec::new();
    let mut i: usize = 0;
    while i < children.len()
        invariant
            0 <= i <= children@.len(),
            forall|k: int| 0 <= k < children@.len() ==> #[trigger] children@[k] < nodes@.len(),
            sorted@ == sort_by_focus(nodes@, children@.take(i as int)),
            forall|k: int| 0 <= k < sorted@.len() ==> #[trigger] sorted@[k] < nodes@.len(),
        decreases children@.len() - i,
    {
        let c = children[i];
        assert(children@.take(i + 1).drop_last() =~= children@.take(i as int));
        let ghost target = insert_by_focus(nodes@, sorted@, c);
        let mut p = sorted.len();
        assert(sorted@.take(p as int) =~= sorted@);
        assert(sorted@.skip(p as int) =~= Seq::<usize>::empty());
        assert(target =~= insert_by_focus(nodes@, sorted@.take(p as int), c) + sorted@.skip(p as int));
        while p > 0 && nodes[sorted[p - 1]].focus > nodes[c].focus
            invariant
                0 <= p <= sorted@.len(),
                c < nodes@.len(),
                forall|k: int| 0 <= k < sorted@.len() ==> #[trigger] sorted@[k] < nodes@.len(),
                target == insert_by_focus(nodes@, sorted@.take(p as int), c) + sorted@.skip(p as int),
            decreases p,
        {
            assert(sorted@.take(p as int).drop_last() =~= sorted@.take(p - 1));
            assert(sorted@.take(p as int).last() == sorted@[p - 1]);
            assert(insert_by_focus(nodes@, sorted@.take(p - 1), c).push(sorted@[p - 1]) + sorted@.skip(p as int)
                =~= insert_by_focus(nodes@, sorted@.take(p - 1), c) + sorted@.skip(p - 1));
            p -= 1;
        }
        proof {
            if p > 0 {
                assert(sorted@.take(p as int).last() == sorted@[p - 1]);
            }
            assert(insert_by_focus(nodes@, sorted@.take(p as int), c) =~= sorted@.take(p as int).push(c));
        }
        sorted.insert(p, c);
        assert(sorted@ =~= target);
        i += 1;
    }
    assert(children@.take(children@.len() as int) =~= children@);
    sorted
}

impl UINode {
    pub fn root() -> (n: Self)
        ensures
            is_root(n),
    {
        Self { children: Vec::new(), clip: (0, 0, 640 * 2, 480 * 2), draw: ElementType::Blank, focus: 0, x: 0, y: 0 }
    }

    /// Sorts the children of every node of the store by focus (nodes of equal focus keep
    /// their order), so that nodes of higher focus are drawn later.
    pub fn sort_all(nodes: &mut Vec<UINode>)
        requires
            tree_shaped(old(nodes)@),
        ensures
            final(nodes)@.len() == old(nodes)@.len(),
            tree_shaped(final(nodes)@),
            forall|i: int| 0 <= i < old(nodes)@.len() ==> same_but_children(#[trigger] final(nodes)@[i], old(nodes)@[i]),
            forall|i: int| 0 <= i < old(nodes)@.len() ==> #[trigger] final(nodes)@[i].children@ == sort_by_focus(old(nodes)@, old(nodes)@[i].children@),
    {
        let ghost orig = nodes@;
        let mut i: usize = 0;
        while i < nodes.len()
            invariant
                0 <= i <= nodes@.len() == orig.len(),
                tree_shaped(orig),
                tree_shaped(nodes@),
                forall|j: int| 0 <= j < orig.len() ==> same_but_children(#[trigger] nodes@[j], orig[j]),
                forall|j: int| 0 <= j < i ==> #[trigger] nodes@[j].children@ == sort_by_focus(orig, orig[j].children@),
                forall|j: int| i <= j < orig.len() ==> #[trigger] nodes@[j].children@ == orig[j].children@,
            decreases orig.len() - i,
        {
            assert(forall|k: int| 0 <= k < nodes@[i as int].children@.len() ==> #[trigger] nodes@[i as int].children@[k] < nodes@.len());
            let sorted = sort_children(nodes, &nodes[i].children);
            proof {
                lemma_sort_by_focus_contains(nodes@, nodes@[i as int].children@);
                assert forall|j: int| 0 <= j < orig.len() implies #[trigger] nodes@[j].focus == orig[j].focus by {}
                assert(sort_by_focus(nodes@, orig[i as int].children@) == sort_by_focus(orig, orig[i as int].children@)) by {
                    lemma_sort_by_focus_same_focus(nodes@, orig, orig[i as int].children@);
                }
            }
            nodes[i].children = sorted;
            proof {
                assert forall|k: int| 0 <= k < nodes@[i as int].children@.len() implies i < #[trigger] nodes@[i as int].children@[k] < nodes@.len() by {
                    assert(sort_by_focus(orig, orig[i as int].children@).contains(nodes@[i as int].children@[k]));
                    let m = choose|m: int| 0 <= m < orig[i as int].children@.len() && orig[i as int].children@[m] == nodes@[i as int].children@[k];
                }
            }
            i += 1;
        }
    }
}

/// Sorting by focus only looks at the focus of the nodes.
pub proof fn lemma_sort_by_focus_same_focus(a: Seq<UINode>, b: Seq<UINode>, s: Seq<usize>)
    requires
        a.len() == b.len(),
        forall|j: int| 0 <= j < a.len() ==> #[trigger] a[j].focus == b[j].focus,
        forall|k: int| 0 <= k < s.len() ==> #[trigger] s[k] < a.len(),
    ensures
        sort_by_focus(a, s) == sort_by_focus(b, s),
    decreases s.len(),
{
    if s.len() > 0 {
        lemma_sort_by_focus_same_focus(a, b, s.drop_last());
        lemma_sort_by_focus_contains(a, s.drop_last());
        lemma_insert_by_focus_same_focus(a, b, sort_by_focus(a, s.drop_last()), s.last());
    }
}

pub proof fn lemma_insert_by_focus_same_focus(a: Seq<UINode>, b: Seq<UINode>, s: Seq<usize>, c: usize)
    requires
        a.len() == b.len(),
        forall|j: int| 0 <= j < a.len() ==> #[trigger] a[j].focus == b[j].focus,
        forall|x: usize| s.contains(x) ==> x < a.len(),
        c < a.len(),
    ensures
        insert_by_focus(a, s, c) == insert_by_focus(b, s, c),
    decreases s.len(),
{
    if s.len() > 0 {
        assert(s.contains(s.last()));
        assert forall|x: usize| s.drop_last().contains(x) implies x < a.len() by {
            let j = choose|j: int| 0 <= j < s.len() - 1 && s.drop_last()[j] == x;
            assert(s[j] == x);
            assert(s.contains(x));
        }
        lemma_insert_by_focus_same_focus(a, b, s.drop_last(), c);
    }
}


pub open spec fn fits_i32(v: int) -> bool {
    i32::MIN <= v <= i32::MAX
}

/// `new` is `old` with a node added at its end, as a new last child of `parent`.
pub open spec fn node_added(old: Seq<UINode>, new: Seq<UINode>, parent: int) -> bool {
    &&& new.len() == old.len() + 1
    &&& same_but_children(new[parent], old[parent])
    &&& new[parent].children@ == old[parent].children@.push(old.len() as usize)
    &&& forall|i: int| 0 <= i < old.len() && i != parent ==> #[trigger] new[i] == old[i]
}

/// `new` is `old` with `child` added at its end, as a new last child of `parent`.
pub open spec fn child_added(old: Seq<UINode>, new: Seq<UINode>, parent: int, child: UINode) -> bool {
    &&& node_added(old, new, parent)
    &&& new[old.len() as int] == child
}

/// Adds `node` to the store and returns its index.
fn node_ptr(nodes: &mut Vec<UINode>, node: UINode) -> (index: usize)
    ensures
        index == old(nodes)@.len(),
        final(nodes)@ == old(nodes)@.push(node),
{
    nodes.push(node);
    nodes.len() - 1
}

/// An immediate mode interface: every frame, `begin` starts a new tree, and the frames,
/// labels, images and sliders that the frame's code asks for are added to it. A frame
/// becomes the current node, which later elements go into, until `pop`.
pub struct UI {
    pub nodes: Vec<UINode>,
    pub tree: usize,
    pub current_node: usize,
    pub parent_nodes: Vec<usize>,
    pub last_modified: usize,
    pub screen_size: (u32, u32),
    pub mouse_captured: bool,
    pub inc_focus: u32,
    pub current_global_origin: (i32, i32),
}

impl UI {
    /// The nodes of the tree; the root is the first.
    pub open spec fn nodes(&self) -> Seq<UINode> {
        self.nodes@
    }

    /// The node that new elements go into.
    pub open spec fn current(&self) -> int {
        self.current_node as int
    }

    /// The nodes that `pop` goes back to, the last one first.
    pub open spec fn parents(&self) -> Seq<usize> {
        self.parent_nodes@
    }

    /// The node added last, which `set_focus` changes.
    pub open spec fn last_modified(&self) -> int {
        self.last_modified as int
    }

    /// Where the current node stands on the screen.
    pub open spec fn origin(&self) -> (i32, i32) {
        self.current_global_origin
    }

    pub open spec fn wf(&self) -> bool {
        &&& self.nodes@.len() >= 1
        &&& self.tree == 0
        &&& self.current_node < self.nodes@.len()
        &&& self.last_modified < self.nodes@.len()
        &&& forall|k: int| 0 <= k < self.parent_nodes@.len() ==> #[trigger] self.parent_nodes@[k] < self.nodes@.len()
        &&& tree_shaped(self.nodes@)
    }

    /// `self` and `other` agree on everything but the tree, the cursor and the origin.
    pub open spec fn same_settings(&self, other: &UI) -> bool {
        &&& self.screen_size == other.screen_size
        &&& self.mouse_captured == other.mouse_captured
        &&& self.inc_focus == other.inc_focus
    }

    pub fn new() -> (ui: Self)
        ensures
            ui.wf(),
            ui.nodes().len() == 1,
            is_root(ui.nodes()[0]),
            ui.current() == 0,
            ui.last_modified() == 0,
            ui.parents() == Seq::<usize>::empty(),
            ui.origin() == (0i32, 0i32),
            ui.screen_size == (1280u32, 960u32),
            !ui.mouse_captured,
            ui.inc_focus == 0,
    {
        let mut nodes: Vec<UINode> = Vec::new();
        let tree = node_ptr(&mut nodes, UINode::root());
        Self {
            nodes,
            tree,
            current_node: tree,
            parent_nodes: Vec::new(),
            screen_size: (640 * 2, 480 * 2),
            mouse_captured: false,
            inc_focus: 0,
            last_modified: tree,
            current_global_origin: (0, 0),
        }
    }

    /// Starts a new tree, made of a root only.
    pub fn begin(&mut self)
        ensures
            final(self).wf(),
            final(self).nodes().len() == 1,
            is_root(final(self).nodes()[0]),
            final(self).current() == 0,
            final(self).last_modified() == 0,
            final(self).parents() == Seq::<usize>::empty(),
            final(self).origin() == (0i32, 0i32),
            !final(self).mouse_captured,
            final(self).screen_size == old(self).screen_size,
            final(self).inc_focus == old(self).inc_focus,
    {
        let mut nodes: Vec<UINode> = Vec::new();
        self.tree = node_ptr(&mut nodes, UINode::root());
        self.nodes = nodes;
        self.current_node = self.tree;
        self.last_modified = self.tree;
        self.parent_nodes.clear();
        self.mouse_captured = false;
        self.current_global_origin = (0, 0);
    }

    fn add_child(&mut self, element: UINode)
        requires
            old(self).wf(),
            element.children@.len() == 0,
        ensures
            final(self).wf(),
            child_added(old(self).nodes(), final(self).nodes(), old(self).current(), element),
            final(self).last_modified() == old(self).nodes().len(),
            final(self).current() == old(self).current(),
            final(self).parents() == old(self).parents(),
            final(self).origin() == old(self).origin(),
            final(self).same_settings(old(self)),
    {
        let element = node_ptr(&mut self.nodes, element);
        self.nodes[self.current_node].children.push(element);
        self.last_modified = element;
    }

    fn add_child_as_current(&mut self, element: UINode)
        requires
            old(self).wf(),
            element.children@.len() == 0,
            fits_i32(old(self).origin().0 + element.x),
            fits_i32(old(self).origin().1 + element.y),
        ensures
            final(self).wf(),
            child_added(old(self).nodes(), final(self).nodes(), old(self).current(), element),
            final(self).last_modified() == old(self).nodes().len(),
            final(self).current() == old(self).nodes().len(),
            final(self).parents() == old(self).parents().push(old(self).current() as usize),
            final(self).origin() == ((old(self).origin().0 + element.x) as i32, (old(self).origin().1 + element.y) as i32),
            final(self).same_settings(old(self)),
    {
        self.current_global_origin.0 += element.x;
        self.current_global_origin.1 += element.y;
        let element = node_ptr(&mut self.nodes, element);
        self.nodes[self.current_node].children.push(element);
        self.parent_nodes.push(self.current_node);
        self.current_node = element;
        self.last_modified = element;
    }
}


/// The node that `_frame` adds.
pub open spec fn is_frame_node(n: UINode, x: i32, y: i32, w: u32, h: u32, frame: FrameType, title: Seq<char>, focus: u32) -> bool {
    let cell = NineCell { x: 0, y: 0, w, h, frame_type: frame };
    &&& n.children@.len() == 0
    &&& n.clip == (1i32, 17i32, (w - 2) as u32, (h - 18) as u32)
    &&& n.focus == focus
    &&& n.x == x
    &&& n.y == y
    &&& if title.len() == 0 {
        n.draw == ElementType::NineCell(cell)
    } else {
        n.draw matches ElementType::TitledNineCell(c, t) && c == cell && t@ == title
    }
}

/// The node that `text` adds.
pub open spec fn is_text_node(n: UINode, x: i32, y: i32, message: Seq<char>, focus: u32) -> bool {
    &&& n.children@.len() == 0
    &&& n.clip == (0i32, 0i32, 100u32, 100u32)
    &&& n.focus == focus
    &&& n.x == x
    &&& n.y == y
    &&& n.draw matches ElementType::TextLabel(l) && l.x == 0 && l.y == 0 && l.message@ == message
}

/// The node that `image` adds.
pub open spec fn is_image_node(
    n: UINode,
    x: i32,
    y: i32,
    w: u32,
    h: u32,
    tx: (u32, u32),
    tx_size: (u32, u32),
    texture: Seq<char>,
    focus: u32,
) -> bool {
    &&& n.children@.len() == 0
    &&& n.clip == (0i32, 0i32, w, h)
    &&& n.focus == focus
    &&& n.x == x
    &&& n.y == y
    &&& n.draw matches ElementType::TextureLabel(l) && l.x == 0 && l.y == 0 && l.w == w && l.h == h && l.tx
        == tx.0 && l.ty == tx.1 && l.tw == tx_size.0 && l.th == tx_size.1 && l.texture@ == texture
}

/// The node that `_slider` adds.
pub open spec fn is_slider_node(n: UINode, x: i32, y: i32, size: u32, progress: u32, vertical: bool, focus: u32) -> bool {
    &&& n.children@.len() == 0
    &&& n.clip == (0i32, 0i32, if vertical { 32u32 } else { size }, if vertical { size } else { 32u32 })
    &&& n.focus == focus
    &&& n.x == x
    &&& n.y == y
    &&& n.draw == ElementType::Slider(Slider { x: 0, y: 0, size, slider_pos: progress, vertical })
}

/// The point lies strictly inside the rectangle whose corners are `(x0, y0)` and `(x1, y1)`.
pub open spec fn strictly_inside(mx: int, my: int, x0: int, y0: int, x1: int, y1: int) -> bool {
    mx > x0 && mx < x1 && my > y0 && my < y1
}

/// The arithmetic of a test `strictly_inside(mx, my, x0, y0, x0 + w, y0 + h)`, evaluated left to
/// right and stopping at the first false comparison, stays within `i32`.
pub open spec fn inside_fits(mx: int, my: int, x0: int, y0: int, w: int, h: int) -> bool {
    &&& mx > x0 ==> fits_i32(x0 + w)
    &&& (mx > x0 && mx < x0 + w && my > y0) ==> fits_i32(y0 + h)
}

impl UI {
    /// The clip rectangle of the current node, placed on the screen.
    pub open spec fn global_clip(&self) -> (int, int, u32, u32) {
        let c = self.nodes@[self.current_node as int].clip;
        (c.0 + self.current_global_origin.0, c.1 + self.current_global_origin.1, c.2, c.3)
    }

    pub open spec fn global_clip_fits(&self) -> bool {
        fits_i32(self.global_clip().0) && fits_i32(self.global_clip().1)
    }

    /// Whether the mouse is inside the current node's clip rectangle.
    pub open spec fn spec_mouse_in_clip_rect(&self, mpx: i32, mpy: i32) -> bool {
        let c = self.global_clip();
        strictly_inside(mpx as int, mpy as int, c.0, c.1, c.0 + (c.2 as i32), c.1 + (c.3 as i32))
    }

    pub open spec fn mouse_in_clip_rect_fits(&self, mpx: i32, mpy: i32) -> bool {
        let c = self.global_clip();
        &&& self.global_clip_fits()
        &&& inside_fits(mpx as int, mpy as int, c.0, c.1, (c.2 as i32) as int, (c.3 as i32) as int)
    }

    /// Whether the mouse is inside the current frame, its title bar and the strip below it included.
    pub open spec fn spec_mouse_in_frame(&self, mpx: i32, mpy: i32) -> bool {
        let c = self.global_clip();
        strictly_inside(mpx as int, mpy as int, c.0, c.1 - 16, c.0 + (c.2 as i32), c.1 + (c.3 as i32) + 16)
    }

    pub open spec fn mouse_in_frame_fits(&self, mpx: i32, mpy: i32) -> bool {
        let c = self.global_clip();
        &&& self.global_clip_fits()
        &&& (mpx > c.0 ==> fits_i32(c.0 + (c.2 as i32)))
        &&& (mpx > c.0 && mpx < c.0 + (c.2 as i32)) ==> fits_i32(c.1 - 16)
        &&& (mpx > c.0 && mpx < c.0 + (c.2 as i32) && mpy > c.1 - 16) ==> fits_i32(c.1 + (c.3 as i32))
            && fits_i32(c.1 + (c.3 as i32) + 16)
    }

    fn _frame(&mut self, x: i32, y: i32, w: u32, h: u32, frame: FrameType, title: &str)
        requires
            old(self).wf(),
            w >= 2,
            h >= 18,
            old(self).inc_focus < u32::MAX,
            fits_i32(old(self).current_global_origin.0 + x),
            fits_i32(old(self).current_global_origin.1 + y),
        ensures
            final(self).wf(),
            node_added(old(self).nodes@, final(self).nodes@, old(self).current_node as int),
            is_frame_node(final(self).nodes@[old(self).nodes@.len() as int], x, y, w, h, frame, title@, old(self).inc_focus),
            final(self).current_node == old(self).nodes@.len(),
            final(self).last_modified == old(self).nodes@.len(),
            final(self).parent_nodes@ == old(self).parent_nodes@.push(old(self).current_node),
            final(self).current_global_origin == ((old(self).current_global_origin.0 + x) as i32, (old(self).current_global_origin.1 + y) as i32),
            final(self).inc_focus == old(self).inc_focus + 1,
            final(self).screen_size == old(self).screen_size,
            final(self).mouse_captured == old(self).mouse_captured,
    {
        if title.is_empty() {
            self.add_child_as_current(UINode {
                children: Vec::new(),
                clip: (1, 17, w - 2, h - 18),
                draw: ElementType::NineCell(NineCell { x: 0, y: 0, w, h, frame_type: frame }),
                focus: self.inc_focus,
                x,
                y,
            });
        } else {
            self.add_child_as_current(UINode {
                children: Vec::new(),
                clip: (1, 17, w - 2, h - 18),
                draw: ElementType::TitledNineCell(NineCell { x: 0, y: 0, w, h, frame_type: frame }, String::from_str(title)),
                focus: self.inc_focus,
                x,
                y,
            });
        }
        self.inc_focus += 1;
    }

    /// Adds a plain frame, which becomes the current node.
    pub fn frame(&mut self, x: i32, y: i32, w: u32, h: u32)
        requires
            old(self).wf(),
            w >= 2,
            h >= 18,
            old(self).inc_focus < u32::MAX,
            fits_i32(old(self).current_global_origin.0 + x),
            fits_i32(old(self).current_global_origin.1 + y),
        ensures
            final(self).wf(),
            node_added(old(self).nodes@, final(self).nodes@, old(self).current_node as int),
            is_frame_node(final(self).nodes@[old(self).nodes@.len() as int], x, y, w, h, FrameType::Simple, Seq::empty(), old(self).inc_focus),
            final(self).current_node == old(self).nodes@.len(),
            final(self).last_modified == old(self).nodes@.len(),
            final(self).parent_nodes@ == old(self).parent_nodes@.push(old(self).current_node),
            final(self).current_global_origin == ((old(self).current_global_origin.0 + x) as i32, (old(self).current_global_origin.1 + y) as i32),
            final(self).inc_focus == old(self).inc_focus + 1,
            final(self).screen_size == old(self).screen_size,
            final(self).mouse_captured == old(self).mouse_captured,
    {
        proof { reveal_strlit(""); }
        self._frame(x, y, w, h, FrameType::Simple, "");
    }

    /// Sets the focus of the node added last.
    pub fn set_focus(&mut self, focus: u32)
        requires
            old(self).wf(),
        ensures
            final(self).wf(),
            final(self).nodes@.len() == old(self).nodes@.len(),
            final(self).nodes@[old(self).last_modified as int].focus == focus,
            final(self).nodes@[old(self).last_modified as int].children == old(self).nodes@[old(self).last_modified as int].children,
            final(self).nodes@[old(self).last_modified as int].clip == old(self).nodes@[old(self).last_modified as int].clip,
            final(self).nodes@[old(self).last_modified as int].draw == old(self).nodes@[old(self).last_modified as int].draw,
            final(self).nodes@[old(self).last_modified as int].x == old(self).nodes@[old(self).last_modified as int].x,
            final(self).nodes@[old(self).last_modified as int].y == old(self).nodes@[old(self).last_modified as int].y,
            forall|i: int| 0 <= i < old(self).nodes@.len() && i != old(self).last_modified ==> #[trigger] final(self).nodes@[i] == old(self).nodes@[i],
            final(self).current_node == old(self).current_node,
            final(self).last_modified == old(self).last_modified,
            final(self).parent_nodes@ == old(self).parent_nodes@,
            final(self).current_global_origin == old(self).current_global_origin,
            final(self).inc_focus == old(self).inc_focus,
            final(self).screen_size == old(self).screen_size,
            final(self).mouse_captured == old(self).mouse_captured,
    {
        self.nodes[self.last_modified].focus = focus;
    }

    fn global_clip_rect(&self) -> (r: (i32, i32, u32, u32))
        requires
            self.wf(),
            self.global_clip_fits(),
        ensures
            r == (self.global_clip().0 as i32, self.global_clip().1 as i32, self.global_clip().2, self.global_clip().3),
    {
        let mut clip = self.nodes[self.current_node].clip;
        clip.0 += self.current_global_origin.0;
        clip.1 += self.current_global_origin.1;
        clip
    }

    /// Whether the mouse is inside the current node's clip rectangle.
    pub fn mouse_in_clip_rect(&self, mpx: i32, mpy: i32) -> (b: bool)
        requires
            self.wf(),
            self.mouse_in_clip_rect_fits(mpx, mpy),
        ensures
            b == self.spec_mouse_in_clip_rect(mpx, mpy),
    {
        let clip = self.global_clip_rect();
        mpx > clip.0 && mpx < clip.0 + clip.2 as i32 && mpy > clip.1 && mpy < clip.1 + clip.3 as i32
    }

    /// Whether the mouse is inside the current frame, title bar included.
    pub fn mouse_in_frame(&self, mpx: i32, mpy: i32) -> (b: bool)
        requires
            self.wf(),
            self.mouse_in_frame_fits(mpx, mpy),
        ensures
            b == self.spec_mouse_in_frame(mpx, mpy),
    {
        let clip = self.global_clip_rect();
        mpx > clip.0 && mpx < clip.0 + clip.2 as i32 && mpy > clip.1 - 16 && mpy < clip.1 + clip.3 as i32 + 16
    }
}


/// The arithmetic of the hit tests of `interactable_frame` (close corner, title bar, body,
/// resize corner), each evaluated left to right and stopping at the first false comparison,
/// stays within `i32`; `(gx, gy)` is the frame's corner on the screen.
pub open spec fn frame_tests_fit(mx: int, my: int, gx: int, gy: int, w: int, h: int) -> bool {
    &&& fits_i32(gx + w)
    &&& fits_i32(gx + w - 16)
    &&& (mx > gx + w - 16 && mx < gx + w && my > gy) ==> fits_i32(gy + 16)
    &&& (mx > gx && mx < gx + w) ==> fits_i32(gy + 16)
    &&& (mx > gx && mx < gx + w && my > gy + 16) ==> fits_i32(gy + h)
    &&& (mx > gx + w - 16 && mx < gx + w) ==> fits_i32(gy + h) && fits_i32(gy + h - 16)
}

/// The progress a slider reads from the mouse: the mouse's distance from the slider's start,
/// clamped to `0..=size`.
pub open spec fn slider_progress(m: int, g: int, size: u32) -> u32 {
    let d = m - g;
    let lo = if d > 0 { d } else { 0 };
    let hi = size as i32;
    (if lo < hi { lo } else { hi as int }) as u32
}

impl UI {
    /// Adds a text label to the current node.
    pub fn text(&mut self, x: i32, y: i32, message: &str)
        requires
            old(self).wf(),
            old(self).inc_focus < u32::MAX,
        ensures
            final(self).wf(),
            node_added(old(self).nodes@, final(self).nodes@, old(self).current_node as int),
            is_text_node(final(self).nodes@[old(self).nodes@.len() as int], x, y, message@, old(self).inc_focus),
            final(self).last_modified == old(self).nodes@.len(),
            final(self).current_node == old(self).current_node,
            final(self).parent_nodes@ == old(self).parent_nodes@,
            final(self).current_global_origin == old(self).current_global_origin,
            final(self).inc_focus == old(self).inc_focus + 1,
            final(self).screen_size == old(self).screen_size,
            final(self).mouse_captured == old(self).mouse_captured,
    {
        self.add_child(UINode {
            children: Vec::new(),
            clip: (0, 0, 100, 100),
            draw: ElementType::TextLabel(TextLabel { message: String::from_str(message), x: 0, y: 0 }),
            focus: self.inc_focus,
            x,
            y,
        });
        self.inc_focus += 1;
    }

    /// Adds an image, a part of a texture, to the current node.
    pub fn image(&mut self, x: i32, y: i32, w: u32, h: u32, tx: (u32, u32), tx_size: (u32, u32), texture: &str)
        requires
            old(self).wf(),
            old(self).inc_focus < u32::MAX,
        ensures
            final(self).wf(),
            node_added(old(self).nodes@, final(self).nodes@, old(self).current_node as int),
            is_image_node(final(self).nodes@[old(self).nodes@.len() as int], x, y, w, h, tx, tx_size, texture@, old(self).inc_focus),
            final(self).last_modified == old(self).nodes@.len(),
            final(self).current_node == old(self).current_node,
            final(self).parent_nodes@ == old(self).parent_nodes@,
            final(self).current_global_origin == old(self).current_global_origin,
            final(self).inc_focus == old(self).inc_focus + 1,
            final(self).screen_size == old(self).screen_size,
            final(self).mouse_captured == old(self).mouse_captured,
    {
        self.add_child(UINode {
            children: Vec::new(),
            clip: (0, 0, w, h),
            draw: ElementType::TextureLabel(TextureLabel {
                x: 0,
                y: 0,
                w,
                h,
                tx: tx.0,
                ty: tx.1,
                th: tx_size.1,
                tw: tx_size.0,
                texture: String::from_str(texture),
            }),
            focus: self.inc_focus,
            x,
            y,
        });
        self.inc_focus += 1;
    }

    /// Adds an image that acts as a button; true when it is clicked. The mouse over it is
    /// captured by the interface. `mouse` is the mouse position, `clicked` whether the left
    /// button was just pressed.
    pub fn image_button(
        &mut self,
        mouse: (i32, i32),
        clicked: bool,
        x: i32,
        y: i32,
        w: u32,
        h: u32,
        tx: (u32, u32),
        tx_size: (u32, u32),
        texture: &str,
    ) -> (pressed: bool)
        requires
            old(self).wf(),
            old(self).inc_focus < u32::MAX,
            old(self).mouse_in_clip_rect_fits(mouse.0, mouse.1),
            fits_i32(x + old(self).current_global_origin.0),
            fits_i32(y + old(self).current_global_origin.1),
            old(self).spec_mouse_in_clip_rect(mouse.0, mouse.1) ==> inside_fits(
                mouse.0 as int,
                mouse.1 as int,
                x + old(self).current_global_origin.0,
                y + old(self).current_global_origin.1,
                (w as i32) as int,
                (h as i32) as int,
            ),
        ensures
            ({
                let gx = x + old(self).current_global_origin.0;
                let gy = y + old(self).current_global_origin.1;
                let over = old(self).spec_mouse_in_clip_rect(mouse.0, mouse.1)
                    && strictly_inside(mouse.0 as int, mouse.1 as int, gx, gy, gx + (w as i32), gy + (h as i32));
                &&& pressed == (over && clicked)
                &&& final(self).mouse_captured == (old(self).mouse_captured || over)
            }),
            final(self).wf(),
            node_added(old(self).nodes@, final(self).nodes@, old(self).current_node as int),
            is_image_node(final(self).nodes@[old(self).nodes@.len() as int], x, y, w, h, tx, tx_size, texture@, old(self).inc_focus),
            final(self).last_modified == old(self).nodes@.len(),
            final(self).current_node == old(self).current_node,
            final(self).parent_nodes@ == old(self).parent_nodes@,
            final(self).current_global_origin == old(self).current_global_origin,
            final(self).inc_focus == old(self).inc_focus + 1,
            final(self).screen_size == old(self).screen_size,
    {
        self.image(x, y, w, h, tx, tx_size, texture);
        let mpx = mouse.0;
        let mpy = mouse.1;
        let gx = x + self.current_global_origin.0;
        let gy = y + self.current_global_origin.1;
        if self.mouse_in_clip_rect(mpx, mpy) && mpx > gx && mpx < gx + w as i32 && mpy > gy && mpy < gy + h as i32 {
            self.mouse_captured = true;
            if clicked {
                return true;
            }
        }
        false
    }

    fn _slider(&mut self, mouse: (i32, i32), clicked: bool, x: i32, y: i32, size: u32, progress: u32, vertical: bool) -> (r: SliderInteraction)
        requires
            old(self).wf(),
            old(self).inc_focus < u32::MAX,
            old(self).mouse_in_clip_rect_fits(mouse.0, mouse.1),
            fits_i32(x + old(self).current_global_origin.0),
            fits_i32(y + old(self).current_global_origin.1),
            fits_i32(if vertical { mouse.1 - (y + old(self).current_global_origin.1) } else { mouse.0 - (x + old(self).current_global_origin.0) }),
            fits_i32(if vertical { x + old(self).current_global_origin.0 - 20 } else { y + old(self).current_global_origin.1 - 20 }),
            old(self).spec_mouse_in_clip_rect(mouse.0, mouse.1) ==> inside_fits(
                mouse.0 as int,
                mouse.1 as int,
                if vertical { x + old(self).current_global_origin.0 - 20 } else { x + old(self).current_global_origin.0 },
                if vertical { y + old(self).current_global_origin.1 } else { y + old(self).current_global_origin.1 - 20 },
                ((if vertical { 40u32 } else { size }) as i32) as int,
                ((if vertical { size } else { 40u32 }) as i32) as int,
            ),
        ensures
            ({
                let gx = x + old(self).current_global_origin.0;
                let gy = y + old(self).current_global_origin.1;
                let p = if vertical { slider_progress(mouse.1 as int, gy, size) } else { slider_progress(mouse.0 as int, gx, size) };
                let hx = if vertical { gx - 20 } else { gx };
                let hy = if vertical { gy } else { gy - 20 };
                let hw = if vertical { 40u32 } else { size };
                let hh = if vertical { size } else { 40u32 };
                let over = old(self).spec_mouse_in_clip_rect(mouse.0, mouse.1)
                    && strictly_inside(mouse.0 as int, mouse.1 as int, hx, hy, hx + (hw as i32), hy + (hh as i32));
                r == SliderInteraction { clicked: over && clicked, progress: p }
            }),
            final(self).wf(),
            node_added(old(self).nodes@, final(self).nodes@, old(self).current_node as int),
            is_slider_node(final(self).nodes@[old(self).nodes@.len() as int], x, y, size, progress, vertical, old(self).inc_focus),
            final(self).last_modified == old(self).nodes@.len(),
            final(self).current_node == old(self).current_node,
            final(self).parent_nodes@ == old(self).parent_nodes@,
            final(self).current_global_origin == old(self).current_global_origin,
            final(self).inc_focus == old(self).inc_focus + 1,
            final(self).screen_size == old(self).screen_size,
            final(self).mouse_captured == old(self).mouse_captured,
    {
        self.add_child(UINode {
            children: Vec::new(),
            clip: (0, 0, if vertical { 32 } else { size }, if vertical { size } else { 32 }),
            draw: ElementType::Slider(Slider { x: 0, y: 0, size, slider_pos: progress, vertical }),
            focus: self.inc_focus,
            x,
            y,
        });
        self.inc_focus += 1;

        let mpx = mouse.0;
        let mpy = mouse.1;
        let mut gx = x + self.current_global_origin.0;
        let mut gy = y + self.current_global_origin.1;

        let d = if vertical { mpy - gy } else { mpx - gx };
        let lo = if d > 0 { d } else { 0 };
        let hi = size as i32;
        let progress = (if lo < hi { lo } else { hi }) as u32;

        let w = if vertical { 40 } else { size };
        let h = if vertical { size } else { 40 };

        if vertical {
            gx -= 20;
        } else {
            gy -= 20;
        }

        if self.mouse_in_clip_rect(mpx, mpy) && mpx > gx && mpx < gx + w as i32 && mpy > gy && mpy < gy + h as i32 {
            if clicked {
                return SliderInteraction { clicked: true, progress };
            }
        }

        SliderInteraction { clicked: false, progress }
    }
}


/// The interaction an interactable frame reports for the mouse at `(mx, my)`, with the frame's
/// corner at `(gx, gy)` on the screen and its current node's test results `in_frame`.
pub open spec fn frame_interaction(
    mx: int,
    my: int,
    gx: int,
    gy: int,
    w: int,
    h: int,
    in_frame: bool,
    clicked: bool,
    scrolled: bool,
) -> Option<FrameInteraction> {
    let within_x = strictly_inside(mx, my, gx + w - 16, gy, gx + w, gy + 16);
    let within_bar = strictly_inside(mx, my, gx, gy, gx + w, gy + 16);
    let within_body = strictly_inside(mx, my, gx, gy + 16, gx + w, gy + h);
    let within_resize = strictly_inside(mx, my, gx + w - 16, gy + h - 16, gx + w, gy + h);
    if in_frame && clicked {
        if within_x {
            Some(FrameInteraction::Close)
        } else if within_resize {
            Some(FrameInteraction::ResizeBegin)
        } else if within_bar {
            Some(FrameInteraction::DragBegin)
        } else {
            Some(FrameInteraction::OtherContentsClicked)
        }
    } else if in_frame && within_body && scrolled {
        Some(FrameInteraction::Scroll)
    } else {
        None
    }
}

/// `a` and `b` intersect, with the arithmetic of `intersect` on them within `i32`.
pub open spec fn intersect_fits(a: (i32, i32, u32, u32), b: (i32, i32, u32, u32)) -> bool {
    let ax2 = a.0 + (a.2 as i32);
    let ay2 = a.1 + (a.3 as i32);
    let bx2 = b.0 + (b.2 as i32);
    let by2 = b.1 + (b.3 as i32);
    let x1 = if a.0 > b.0 { a.0 as int } else { b.0 as int };
    let y1 = if a.1 > b.1 { a.1 as int } else { b.1 as int };
    let x2 = if ax2 < bx2 { ax2 } else { bx2 };
    let y2 = if ay2 < by2 { ay2 } else { by2 };
    &&& fits_i32(ax2) && fits_i32(ay2) && fits_i32(bx2) && fits_i32(by2)
    &&& (x2 > x1 && y2 > y1) ==> fits_i32(x2 - x1) && fits_i32(y2 - y1)
}

/// The overlap of two rectangles, `None` when it is empty.
pub open spec fn spec_intersect(a: (i32, i32, u32, u32), b: (i32, i32, u32, u32)) -> Option<(i32, i32, u32, u32)> {
    let ax2 = a.0 + (a.2 as i32);
    let ay2 = a.1 + (a.3 as i32);
    let bx2 = b.0 + (b.2 as i32);
    let by2 = b.1 + (b.3 as i32);
    let x1 = if a.0 > b.0 { a.0 as int } else { b.0 as int };
    let y1 = if a.1 > b.1 { a.1 as int } else { b.1 as int };
    let x2 = if ax2 < bx2 { ax2 } else { bx2 };
    let y2 = if ay2 < by2 { ay2 } else { by2 };
    if x2 > x1 && y2 > y1 {
        Some((x1 as i32, y1 as i32, ((x2 - x1) as i32) as u32, ((y2 - y1) as i32) as u32))
    } else {
        None
    }
}

impl UI {
    /// A horizontal slider; see `_slider`.
    pub fn slider(&mut self, mouse: (i32, i32), clicked: bool, x: i32, y: i32, size: u32, progress: u32) -> (r: SliderInteraction)
        requires
            old(self).wf(),
            old(self).inc_focus < u32::MAX,
            old(self).mouse_in_clip_rect_fits(mouse.0, mouse.1),
            fits_i32(x + old(self).current_global_origin.0),
            fits_i32(y + old(self).current_global_origin.1),
            fits_i32(mouse.0 - (x + old(self).current_global_origin.0)),
            fits_i32(y + old(self).current_global_origin.1 - 20),
            old(self).spec_mouse_in_clip_rect(mouse.0, mouse.1) ==> inside_fits(
                mouse.0 as int,
                mouse.1 as int,
                x + old(self).current_global_origin.0,
                y + old(self).current_global_origin.1 - 20,
                (size as i32) as int,
                40,
            ),
        ensures
            ({
                let gx = x + old(self).current_global_origin.0;
                let gy = y + old(self).current_global_origin.1;
                let over = old(self).spec_mouse_in_clip_rect(mouse.0, mouse.1)
                    && strictly_inside(mouse.0 as int, mouse.1 as int, gx, gy - 20, gx + (size as i32), gy - 20 + 40);
                r == SliderInteraction { clicked: over && clicked, progress: slider_progress(mouse.0 as int, gx, size) }
            }),
            final(self).wf(),
            node_added(old(self).nodes@, final(self).nodes@, old(self).current_node as int),
            is_slider_node(final(self).nodes@[old(self).nodes@.len() as int], x, y, size, progress, false, old(self).inc_focus),
            final(self).last_modified == old(self).nodes@.len(),
            final(self).current_node == old(self).current_node,
            final(self).parent_nodes@ == old(self).parent_nodes@,
            final(self).current_global_origin == old(self).current_global_origin,
            final(self).inc_focus == old(self).inc_focus + 1,
            final(self).screen_size == old(self).screen_size,
            final(self).mouse_captured == old(self).mouse_captured,
    {
        self._slider(mouse, clicked, x, y, size, progress, false)
    }

    /// A vertical slider; see `_slider`.
    pub fn vertical_slider(&mut self, mouse: (i32, i32), clicked: bool, x: i32, y: i32, size: u32, progress: u32) -> (r: SliderInteraction)
        requires
            old(self).wf(),
            old(self).inc_focus < u32::MAX,
            old(self).mouse_in_clip_rect_fits(mouse.0, mouse.1),
            fits_i32(x + old(self).current_global_origin.0),
            fits_i32(y + old(self).current_global_origin.1),
            fits_i32(mouse.1 - (y + old(self).current_global_origin.1)),
            fits_i32(x + old(self).current_global_origin.0 - 20),
            old(self).spec_mouse_in_clip_rect(mouse.0, mouse.1) ==> inside_fits(
                mouse.0 as int,
                mouse.1 as int,
                x + old(self).current_global_origin.0 - 20,
                y + old(self).current_global_origin.1,
                40,
                (size as i32) as int,
            ),
        ensures
            ({
                let gx = x + old(self).current_global_origin.0;
                let gy = y + old(self).current_global_origin.1;
                let over = old(self).spec_mouse_in_clip_rect(mouse.0, mouse.1)
                    && strictly_inside(mouse.0 as int, mouse.1 as int, gx - 20, gy, gx - 20 + 40, gy + (size as i32));
                r == SliderInteraction { clicked: over && clicked, progress: slider_progress(mouse.1 as int, gy, size) }
            }),
            final(self).wf(),
            node_added(old(self).nodes@, final(self).nodes@, old(self).current_node as int),
            is_slider_node(final(self).nodes@[old(self).nodes@.len() as int], x, y, size, progress, true, old(self).inc_focus),
            final(self).last_modified == old(self).nodes@.len(),
            final(self).current_node == old(self).current_node,
            final(self).parent_nodes@ == old(self).parent_nodes@,
            final(self).current_global_origin == old(self).current_global_origin,
            final(self).inc_focus == old(self).inc_focus + 1,
            final(self).screen_size == old(self).screen_size,
            final(self).mouse_captured == old(self).mouse_captured,
    {
        self._slider(mouse, clicked, x, y, size, progress, true)
    }

    /// Adds a frame with a title bar, a close corner and a resize corner, which becomes the
    /// current node; reports what a click or a scroll of the mouse did to it. The mouse over
    /// the frame is captured by the interface.
    pub fn interactable_frame(
        &mut self,
        mouse: (i32, i32),
        clicked: bool,
        scrolled: bool,
        title: &str,
        x: i32,
        y: i32,
        w: u32,
        h: u32,
    ) -> (r: Option<FrameInteraction>)
        requires
            old(self).wf(),
            w >= 2,
            h >= 18,
            old(self).inc_focus < u32::MAX,
            fits_i32(old(self).current_global_origin.0 + x),
            fits_i32(old(self).current_global_origin.1 + y),
            frame_tests_fit(
                mouse.0 as int,
                mouse.1 as int,
                x + old(self).current_global_origin.0,
                y + old(self).current_global_origin.1,
                (w as i32) as int,
                (h as i32) as int,
            ),
            ({
                let c = ((1 + x + old(self).current_global_origin.0) as i32, (17 + y + old(self).current_global_origin.1) as i32, (w - 2) as u32, (h - 18) as u32);
                &&& fits_i32(1 + x + old(self).current_global_origin.0)
                &&& fits_i32(17 + y + old(self).current_global_origin.1)
                &&& (mouse.0 > c.0 ==> fits_i32(c.0 + (c.2 as i32)))
                &&& (mouse.0 > c.0 && mouse.0 < c.0 + (c.2 as i32)) ==> fits_i32(c.1 - 16)
                &&& (mouse.0 > c.0 && mouse.0 < c.0 + (c.2 as i32) && mouse.1 > c.1 - 16) ==> fits_i32(c.1 + (c.3 as i32))
                    && fits_i32(c.1 + (c.3 as i32) + 16)
            }),
        ensures
            ({
                let gx = x + old(self).current_global_origin.0;
                let gy = y + old(self).current_global_origin.1;
                let c = ((1 + gx) as i32, (17 + gy) as i32, (w - 2) as u32, (h - 18) as u32);
                let in_frame = strictly_inside(mouse.0 as int, mouse.1 as int, c.0 as int, c.1 - 16, c.0 + (c.2 as i32), c.1 + (c.3 as i32) + 16);
                let within_bar = strictly_inside(mouse.0 as int, mouse.1 as int, gx, gy, gx + (w as i32), gy + 16);
                let within_body = strictly_inside(mouse.0 as int, mouse.1 as int, gx, gy + 16, gx + (w as i32), gy + (h as i32));
                &&& r == frame_interaction(mouse.0 as int, mouse.1 as int, gx, gy, (w as i32) as int, (h as i32) as int, in_frame, clicked, scrolled)
                &&& final(self).mouse_captured == (old(self).mouse_captured || within_bar || within_body)
            }),
            final(self).wf(),
            node_added(old(self).nodes@, final(self).nodes@, old(self).current_node as int),
            is_frame_node(final(self).nodes@[old(self).nodes@.len() as int], x, y, w, h, FrameType::Interactable, title@, old(self).inc_focus),
            final(self).current_node == old(self).nodes@.len(),
            final(self).last_modified == old(self).nodes@.len(),
            final(self).parent_nodes@ == old(self).parent_nodes@.push(old(self).current_node),
            final(self).current_global_origin == ((old(self).current_global_origin.0 + x) as i32, (old(self).current_global_origin.1 + y) as i32),
            final(self).inc_focus == old(self).inc_focus + 1,
            final(self).screen_size == old(self).screen_size,
    {
        let mpx = mouse.0;
        let mpy = mouse.1;
        let gx = x + self.current_global_origin.0;
        let gy = y + self.current_global_origin.1;
        let mouse_within_x = mpx > gx + w as i32 - 16 && mpx < gx + w as i32 && mpy > gy && mpy < gy + 16;
        let mouse_within_bar = mpx > gx as i32 && mpx < gx + w as i32 && mpy > gy && mpy < gy + 16;
        let mouse_within_body = mpx > gx as i32 && mpx < gx + w as i32 && mpy > gy + 16 && mpy < gy + h as i32;
        let mouse_within_resize = mpx > gx + w as i32 - 16 && mpx < gx + w as i32 && mpy > gy + h as i32 - 16 && mpy < gy + h as i32;

        self._frame(x, y, w, h, FrameType::Interactable, title);

        if mouse_within_body || mouse_within_bar {
            self.mouse_captured = true;
        }

        if self.mouse_in_frame(mpx, mpy) && clicked {
            if mouse_within_x {
                return Some(FrameInteraction::Close);
            } else if mouse_within_resize {
                return Some(FrameInteraction::ResizeBegin);
            } else if mouse_within_bar {
                return Some(FrameInteraction::DragBegin);
            } else {
                return Some(FrameInteraction::OtherContentsClicked);
            }
        }

        if self.mouse_in_frame(mpx, mpy) && mouse_within_body {
            if scrolled {
                return Some(FrameInteraction::Scroll);
            }
        }

        None
    }

    /// Goes back to the node that was current before the current one.
    pub fn pop(&mut self)
        requires
            old(self).wf(),
            old(self).parent_nodes@.len() > 0,
            fits_i32(old(self).current_global_origin.0 - old(self).nodes@[old(self).current_node as int].x),
            fits_i32(old(self).current_global_origin.1 - old(self).nodes@[old(self).current_node as int].y),
        ensures
            final(self).wf(),
            final(self).nodes@ == old(self).nodes@,
            final(self).current_node == old(self).parent_nodes@.last(),
            final(self).parent_nodes@ == old(self).parent_nodes@.drop_last(),
            final(self).current_global_origin == (
                (old(self).current_global_origin.0 - old(self).nodes@[old(self).current_node as int].x) as i32,
                (old(self).current_global_origin.1 - old(self).nodes@[old(self).current_node as int].y) as i32,
            ),
            final(self).last_modified == old(self).last_modified,
            final(self).inc_focus == old(self).inc_focus,
            final(self).screen_size == old(self).screen_size,
            final(self).mouse_captured == old(self).mouse_captured,
    {
        self.current_global_origin.0 -= self.nodes[self.current_node].x;
        self.current_global_origin.1 -= self.nodes[self.current_node].y;
        self.current_node = self.parent_nodes.pop().unwrap();
    }

    /// The overlap of two rectangles; `None` if the rect would be empty.
    pub fn intersect(a: (i32, i32, u32, u32), b: (i32, i32, u32, u32)) -> (r: Option<(i32, i32, u32, u32)>)
        requires
            intersect_fits(a, b),
        ensures
            r == spec_intersect(a, b),
    {
        let ax2 = a.0 + a.2 as i32;
        let ay2 = a.1 + a.3 as i32;
        let bx2 = b.0 + b.2 as i32;
        let by2 = b.1 + b.3 as i32;

        let x1 = if a.0 > b.0 { a.0 } else { b.0 };
        let y1 = if a.1 > b.1 { a.1 } else { b.1 };
        let x2 = if ax2 < bx2 { ax2 } else { bx2 };
        let y2 = if ay2 < by2 { ay2 } else { by2 };

        if x2 > x1 && y2 > y1 {
            Some((x1, y1, (x2 - x1) as u32, (y2 - y1) as u32))
        } else {
            None
        }
    }
}


/// The list `s` of nodes is ordered by focus.
pub open spec fn ordered_by_focus(nodes: Seq<UINode>, s: Seq<usize>) -> bool {
    forall|i: int, j: int| 0 <= i <= j < s.len() ==> nodes[#[trigger] s[i] as int].focus <= nodes[#[trigger] s[j] as int].focus
}

proof fn lemma_insert_by_focus_ordered(nodes: Seq<UINode>, s: Seq<usize>, c: usize)
    requires
        ordered_by_focus(nodes, s),
    ensures
        ordered_by_focus(nodes, insert_by_focus(nodes, s, c)),
    decreases s.len(),
{
    if s.len() > 0 {
        let last = s.last();
        if nodes[last as int].focus <= nodes[c as int].focus {
            let r = s.push(c);
            assert forall|i: int, j: int| 0 <= i <= j < r.len() implies nodes[#[trigger] r[i] as int].focus <= nodes[#[trigger] r[j] as int].focus by {
                if j == s.len() {
                    if i < s.len() {
                        assert(r[i] == s[i]);
                        assert(nodes[s[i] as int].focus <= nodes[s[s.len() - 1] as int].focus);
                    }
                } else {
                    assert(r[i] == s[i] && r[j] == s[j]);
                }
            }
        } else {
            let t = s.drop_last();
            assert forall|i: int, j: int| 0 <= i <= j < t.len() implies nodes[#[trigger] t[i] as int].focus <= nodes[#[trigger] t[j] as int].focus by {
                assert(t[i] == s[i] && t[j] == s[j]);
            }
            lemma_insert_by_focus_ordered(nodes, t, c);
            lemma_insert_by_focus_contains(nodes, t, c);
            let q = insert_by_focus(nodes, t, c);
            let r = q.push(last);
            assert forall|i: int, j: int| 0 <= i <= j < r.len() implies nodes[#[trigger] r[i] as int].focus <= nodes[#[trigger] r[j] as int].focus by {
                if j == q.len() {
                    if i < q.len() {
                        assert(r[i] == q[i]);
                        assert(q.contains(q[i]));
                        if q[i] != c {
                            assert(t.contains(q[i]));
                            let m = choose|m: int| 0 <= m < t.len() && t[m] == q[i];
                            assert(s[m] == q[i]);
                            assert(nodes[s[m] as int].focus <= nodes[s[s.len() - 1] as int].focus);
                        }
                    }
                } else {
                    assert(r[i] == q[i] && r[j] == q[j]);
                }
            }
        }
    }
}

/// Law: after sorting, a node's children are ordered by focus, so that the nodes with the
/// highest focus are drawn last, above the others.
pub proof fn law_sorted_children_ordered(nodes: Seq<UINode>, s: Seq<usize>)
    ensures
        ordered_by_focus(nodes, sort_by_focus(nodes, s)),
    decreases s.len(),
{
    if s.len() > 0 {
        law_sorted_children_ordered(nodes, s.drop_last());
        lemma_insert_by_focus_ordered(nodes, sort_by_focus(nodes, s.drop_last()), s.last());
    }
}

/// Law: sorting keeps a node's children, and only reorders them.
pub proof fn law_sorted_children_same(nodes: Seq<UINode>, s: Seq<usize>)
    ensures
        sort_by_focus(nodes, s).len() == s.len(),
        forall|x: usize| #[trigger] sort_by_focus(nodes, s).contains(x) <==> s.contains(x),
{
    lemma_sort_by_focus_contains(nodes, s);
}

/// Law: children that are already ordered by focus stay as they are.
pub proof fn law_sort_ordered_unchanged(nodes: Seq<UINode>, s: Seq<usize>)
    requires
        ordered_by_focus(nodes, s),
    ensures
        sort_by_focus(nodes, s) == s,
    decreases s.len(),
{
    if s.len() > 0 {
        let t = s.drop_last();
        assert forall|i: int, j: int| 0 <= i <= j < t.len() implies nodes[#[trigger] t[i] as int].focus <= nodes[#[trigger] t[j] as int].focus by {
            assert(t[i] == s[i] && t[j] == s[j]);
        }
        law_sort_ordered_unchanged(nodes, t);
        if t.len() > 0 {
            assert(t.last() == s[s.len() - 2]);
            assert(nodes[s[s.len() - 2] as int].focus <= nodes[s[s.len() - 1] as int].focus);
            assert(t.push(s.last()) =~= s);
        } else {
            assert(seq![s.last()] =~= s);
        }
    }
}

/// The nodes of focus `f`.
pub open spec fn of_focus(nodes: Seq<UINode>, f: u32) -> spec_fn(usize) -> bool {
    |x: usize| nodes[x as int].focus == f
}

proof fn lemma_filter_push(s: Seq<usize>, x: usize, p: spec_fn(usize) -> bool)
    ensures
        s.push(x).filter(p) == (if p(x) { s.filter(p).push(x) } else { s.filter(p) }),
{
    reveal(Seq::filter);
    assert(s.push(x).drop_last() =~= s);
}

/// Inserting `c` puts it after every node of its focus already there, and moves no other
/// node of any focus relative to the nodes of its own focus.
proof fn lemma_insert_by_focus_stable(nodes: Seq<UINode>, s: Seq<usize>, c: usize, f: u32)
    ensures
        insert_by_focus(nodes, s, c).filter(of_focus(nodes, f)) == (if nodes[c as int].focus == f {
            s.filter(of_focus(nodes, f)).push(c)
        } else {
            s.filter(of_focus(nodes, f))
        }),
    decreases s.len(),
{
    let p = of_focus(nodes, f);
    if s.len() == 0 {
        assert(seq![c] =~= s.push(c));
        lemma_filter_push(s, c, p);
    } else if nodes[s.last() as int].focus <= nodes[c as int].focus {
        lemma_filter_push(s, c, p);
    } else {
        let t = s.drop_last();
        lemma_insert_by_focus_stable(nodes, t, c, f);
        lemma_filter_push(insert_by_focus(nodes, t, c), s.last(), p);
        lemma_filter_push(t, s.last(), p);
        assert(t.push(s.last()) =~= s);
        if nodes[c as int].focus == f {
            assert(!p(s.last()));
        }
    }
}

proof fn lemma_insert_by_focus_multiset(nodes: Seq<UINode>, s: Seq<usize>, c: usize)
    ensures
        insert_by_focus(nodes, s, c).to_multiset() == s.to_multiset().insert(c),
    decreases s.len(),
{
    broadcast use vstd::seq_lib::to_multiset_build;
    broadcast use vstd::multiset::group_multiset_axioms;

    if s.len() == 0 {
        assert(seq![c] =~= s.push(c));
    } else if nodes[s.last() as int].focus <= nodes[c as int].focus {
    } else {
        let t = s.drop_last();
        lemma_insert_by_focus_multiset(nodes, t, c);
        assert(t.push(s.last()) =~= s);
        assert(s.to_multiset() == t.to_multiset().insert(s.last()));
        assert(insert_by_focus(nodes, s, c).to_multiset() =~= s.to_multiset().insert(c));
    }
}

/// Law: sorting a node's children is a permutation: every child occurs in the sorted list
/// as many times as in the list before.
pub proof fn law_sort_is_permutation(nodes: Seq<UINode>, s: Seq<usize>)
    ensures
        sort_by_focus(nodes, s).to_multiset() == s.to_multiset(),
    decreases s.len(),
{
    broadcast use vstd::seq_lib::to_multiset_build;

    if s.len() > 0 {
        let t = s.drop_last();
        law_sort_is_permutation(nodes, t);
        lemma_insert_by_focus_multiset(nodes, sort_by_focus(nodes, t), s.last());
        assert(t.push(s.last()) =~= s);
    } else {
        assert(s =~= Seq::<usize>::empty());
    }
}

/// Law: sorting is stable: the children of any one focus keep their order.
pub proof fn law_sort_is_stable(nodes: Seq<UINode>, s: Seq<usize>, f: u32)
    ensures
        sort_by_focus(nodes, s).filter(of_focus(nodes, f)) == s.filter(of_focus(nodes, f)),
    decreases s.len(),
{
    if s.len() > 0 {
        let t = s.drop_last();
        law_sort_is_stable(nodes, t, f);
        lemma_insert_by_focus_stable(nodes, sort_by_focus(nodes, t), s.last(), f);
        lemma_filter_push(t, s.last(), of_focus(nodes, f));
        assert(t.push(s.last()) =~= s);
    }
}

/// Law: the overlap of two rectangles does not depend on their order.
pub proof fn law_intersect_symmetric(a: (i32, i32, u32, u32), b: (i32, i32, u32, u32))
    ensures
        spec_intersect(a, b) == spec_intersect(b, a),
{
}

/// Law: the overlap of two rectangles lies inside both.
pub proof fn law_intersect_inside(a: (i32, i32, u32, u32), b: (i32, i32, u32, u32))
    requires
        intersect_fits(a, b),
    ensures
        spec_intersect(a, b) matches Some(r) ==> {
            &&& r.0 >= a.0 && r.0 >= b.0
            &&& r.1 >= a.1 && r.1 >= b.1
            &&& r.0 + r.2 <= a.0 + (a.2 as i32) && r.0 + r.2 <= b.0 + (b.2 as i32)
            &&& r.1 + r.3 <= a.1 + (a.3 as i32) && r.1 + r.3 <= b.1 + (b.3 as i32)
            &&& r.2 > 0 && r.3 > 0
        },
{
}

/// Law: `pop` undoes what opening a frame did to the cursor: after a frame at `(x, y)` is
/// added and popped, new elements go into the node they went into before, at the same
/// origin, with the same nodes to go back to.
pub proof fn law_pop_undoes_frame(before: UI, framed: UI, after: UI, x: i32, y: i32)
    requires
        framed.current_node == before.nodes@.len(),
        framed.nodes@.len() == before.nodes@.len() + 1,
        framed.nodes@[framed.current_node as int].x == x,
        framed.nodes@[framed.current_node as int].y == y,
        framed.parent_nodes@ == before.parent_nodes@.push(before.current_node),
        framed.current_global_origin == ((before.current_global_origin.0 + x) as i32, (before.current_global_origin.1 + y) as i32),
        fits_i32(before.current_global_origin.0 + x),
        fits_i32(before.current_global_origin.1 + y),
        after.current_node == framed.parent_nodes@.last(),
        after.parent_nodes@ == framed.parent_nodes@.drop_last(),
        after.current_global_origin == (
            (framed.current_global_origin.0 - framed.nodes@[framed.current_node as int].x) as i32,
            (framed.current_global_origin.1 - framed.nodes@[framed.current_node as int].y) as i32,
        ),
    ensures
        after.current_node == before.current_node,
        after.parent_nodes@ == before.parent_nodes@,
        after.current_global_origin == before.current_global_origin,
{
    assert(before.parent_nodes@.push(before.current_node).drop_last() =~= before.parent_nodes@);
}

} // verus!
