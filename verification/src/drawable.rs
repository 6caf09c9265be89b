//! What an overlay is painted from: a tree of boxes, some of which carry a
//! [`Drawable`]. Sizes are in hundredths of the text size, which the screen
//! gives; where a box ends up is whole pixels.

use crate::config::ColorConfig;
use vstd::prelude::*;

verus! {

// ----- Units of paint --------------------------------------------------------------------------

/// The unit of paint that a box may carry.
#[derive(Debug)]
pub enum Drawable {
    /// A line of text.
    Text { content: String, size: u32, color: ColorConfig },
    /// A single weather glyph.
    Icon { glyph: char, size: u32, color: ColorConfig },
    /// Rounded-rect fill, sized by its box: typically carried by a parent, so
    /// that it paints behind the children.
    Background { color: ColorConfig, radius: u32 },
    /// A weather glyph followed by text on a shared baseline.
    IconText {
        icon: char,
        icon_size: u32,
        gap: u32,
        text: String,
        text_size: u32,
        color: ColorConfig,
    },
}

/// A `Drawable` with its text as a sequence of characters.
pub ghost enum DrawableView {
    Text { content: Seq<char>, size: u32, color: ColorConfig },
    Icon { glyph: char, size: u32, color: ColorConfig },
    Background { color: ColorConfig, radius: u32 },
    IconText {
        icon: char,
        icon_size: u32,
        gap: u32,
        text: Seq<char>,
        text_size: u32,
        color: ColorConfig,
    },
}

impl View for Drawable {
    type V = DrawableView;

    open spec fn view(&self) -> DrawableView {
        match self {
            Drawable::Text { content, size, color } => DrawableView::Text {
                content: content@,
                size: *size,
                color: *color,
            },
            Drawable::Icon { glyph, size, color } => DrawableView::Icon {
                glyph: *glyph,
                size: *size,
                color: *color,
            },
            Drawable::Background { color, radius } => DrawableView::Background {
                color: *color,
                radius: *radius,
            },
            Drawable::IconText { icon, icon_size, gap, text, text_size, color } => {
                DrawableView::IconText {
                    icon: *icon,
                    icon_size: *icon_size,
                    gap: *gap,
                    text: text@,
                    text_size: *text_size,
                    color: *color,
                }
            },
        }
    }
}

/// A typeface.
#[derive(Debug, Clone, Copy, PartialEq, Eq, Structural)]
pub enum Face {
    Text,
    Icon,
}

/// Characters set in one face and size.
#[derive(Debug)]
pub struct Run {
    pub face: Face,
    pub text: String,
    pub size: u32,
}

/// A `Run` with its text as a sequence of characters.
pub ghost struct RunView {
    pub face: Face,
    pub text: Seq<char>,
    pub size: u32,
}

impl View for Run {
    type V = RunView;

    open spec fn view(&self) -> RunView {
        RunView { face: self.face, text: self.text@, size: self.size }
    }
}

impl DrawableView {
    /// What is set on the drawable's line, from left to right.
    pub open spec fn runs(self) -> Seq<RunView> {
        match self {
            DrawableView::Text { content, size, .. } => seq![
                RunView { face: Face::Text, text: content, size },
            ],
            DrawableView::Icon { glyph, size, .. } => seq![
                RunView { face: Face::Icon, text: seq![glyph], size },
            ],
            DrawableView::Background { .. } => Seq::empty(),
            DrawableView::IconText { icon, icon_size, text, text_size, .. } => seq![
                RunView { face: Face::Icon, text: seq![icon], size: icon_size },
                RunView { face: Face::Text, text, size: text_size },
            ],
        }
    }

    /// The space between two runs.
    pub open spec fn run_gap(self) -> u32 {
        match self {
            DrawableView::IconText { gap, .. } => gap,
            _ => 0,
        }
    }
}

fn glyph_text(glyph: char) -> (r: String)
    ensures
        r@ == seq![glyph],
{
    let mut s = String::new();
    s.push(glyph);
    assert(s@ == seq![glyph]);
    s
}

impl Drawable {
    /// What is set on the drawable's line, from left to right, on one baseline.
    /// A background sets nothing: its size is its box's.
    pub fn runs(&self) -> (r: Vec<Run>)
        ensures
            r@.map_values(|run: Run| run@) == self@.runs(),
    {
        let mut out: Vec<Run> = Vec::new();
        match self {
            Drawable::Text { content, size, .. } => {
                out.push(Run { face: Face::Text, text: content.clone(), size: *size });
            },
            Drawable::Icon { glyph, size, .. } => {
                out.push(Run { face: Face::Icon, text: glyph_text(*glyph), size: *size });
            },
            Drawable::Background { .. } => {},
            Drawable::IconText { icon, icon_size, text, text_size, .. } => {
                out.push(Run { face: Face::Icon, text: glyph_text(*icon), size: *icon_size });
                out.push(Run { face: Face::Text, text: text.clone(), size: *text_size });
            },
        }
        assert(out@.map_values(|run: Run| run@) == self@.runs());
        out
    }

    /// The space between two runs.
    pub fn run_gap(&self) -> (r: u32)
        ensures
            r == self@.run_gap(),
    {
        match self {
            Drawable::IconText { gap, .. } => *gap,
            _ => 0,
        }
    }
}

// ----- Trees to lay out --------------------------------------------------------------------------

/// How a box is laid out within its parent and lays out its children.
#[derive(Debug, Clone, Copy, PartialEq, Eq, Structural)]
pub enum BoxStyle {
    /// As the layout engine does by default.
    Plain,
    /// A column with space around it and between its rows.
    Stack { padding: u32, gap: u32 },
    /// A column whose rows are centred.
    Cell,
    /// Centred in its column, with space above.
    Centred { top: u32 },
    /// A centred row with space between its columns and above.
    Row { gap: u32, top: u32 },
}

/// A box that is still to be laid out.
#[derive(Debug)]
pub struct Node {
    pub style: BoxStyle,
    pub drawable: Option<Drawable>,
    pub children: Vec<Node>,
}

/// A `Node` as values.
pub ghost struct NodeView {
    pub style: BoxStyle,
    pub drawable: Option<DrawableView>,
    pub children: Seq<NodeView>,
}

/// The view of what a box may carry.
pub open spec fn paint(drawable: Option<Drawable>) -> Option<DrawableView> {
    match drawable {
        Some(d) => Some(d@),
        None => None,
    }
}

impl Node {
    /// This box and those in it.
    pub open spec fn tree(&self) -> NodeView
        decreases self,
    {
        NodeView {
            style: self.style,
            drawable: paint(self.drawable),
            children: Seq::new(
                self.children@.len(),
                |i: int|
                    if 0 <= i < self.children@.len() {
                        self.children@[i].tree()
                    } else {
                        arbitrary()
                    },
            ),
        }
    }
}

/// The trees of a list of boxes.
pub open spec fn trees(list: Seq<Node>) -> Seq<NodeView> {
    list.map_values(|n: Node| n.tree())
}

/// A box with children.
pub fn branch(style: BoxStyle, drawable: Option<Drawable>, children: Vec<Node>) -> (r: Node)
    ensures
        r.tree() == (NodeView {
            style,
            drawable: paint(drawable),
            children: trees(children@),
        }),
{
    let r = Node { style, drawable, children };
    assert(r.tree().children == trees(children@));
    r
}

/// A box without children.
pub fn leaf(style: BoxStyle, drawable: Drawable) -> (r: Node)
    ensures
        r.tree() == (NodeView {
            style,
            drawable: Some(drawable@),
            children: Seq::empty(),
        }),
{
    let r = branch(style, Some(drawable), Vec::new());
    assert(r.tree().children == Seq::<NodeView>::empty());
    r
}

// ----- Trees that are laid out -----------------------------------------------------------------

/// A box that has been laid out: its place relative to its parent's, and its size.
#[derive(Debug)]
pub struct LaidOut {
    pub x: i32,
    pub y: i32,
    pub width: i32,
    pub height: i32,
    pub drawable: Option<Drawable>,
    pub children: Vec<LaidOut>,
}

/// A drawable with where it is painted and how large its box is.
#[derive(Debug)]
pub struct Visit<'a> {
    pub x: i64,
    pub y: i64,
    pub width: i32,
    pub height: i32,
    pub drawable: &'a Drawable,
}

/// A `Visit` as values.
pub ghost struct VisitView {
    pub x: i64,
    pub y: i64,
    pub width: i32,
    pub height: i32,
    pub drawable: DrawableView,
}

impl<'a> View for Visit<'a> {
    type V = VisitView;

    open spec fn view(&self) -> VisitView {
        VisitView {
            x: self.x,
            y: self.y,
            width: self.width,
            height: self.height,
            drawable: self.drawable@,
        }
    }
}

/// A position moved by an offset, stopping at the limits of its type.
pub open spec fn moved(from: i64, by: i32) -> i64 {
    if from + by > i64::MAX {
        i64::MAX
    } else if from + by < i64::MIN {
        i64::MIN
    } else {
        (from + by) as i64
    }
}

fn move_by(from: i64, by: i32) -> (r: i64)
    ensures
        r == moved(from, by),
{
    let to: i128 = from as i128 + by as i128;
    if to > i64::MAX as i128 {
        i64::MAX
    } else if to < i64::MIN as i128 {
        i64::MIN
    } else {
        to as i64
    }
}

/// What a box itself has painted.
pub open spec fn own_visit(node: LaidOut, ox: i64, oy: i64) -> Seq<VisitView> {
    match node.drawable {
        Some(d) => seq![
            VisitView {
                x: moved(ox, node.x),
                y: moved(oy, node.y),
                width: node.width,
                height: node.height,
                drawable: d@,
            },
        ],
        None => Seq::empty(),
    }
}

/// The order in which a tree is painted from an origin: a box before what is in
/// it, and what is in it one after the other.
pub open spec fn visits(node: LaidOut, ox: i64, oy: i64) -> Seq<VisitView>
    decreases node, 0nat,
{
    own_visit(node, ox, oy) + visits_in(
        node.children@,
        moved(ox, node.x),
        moved(oy, node.y),
    )
}

/// The order in which boxes side by side are painted.
pub open spec fn visits_in(nodes: Seq<LaidOut>, ox: i64, oy: i64) -> Seq<VisitView>
    decreases nodes, 1nat,
{
    if nodes.len() == 0 {
        Seq::empty()
    } else {
        visits_in(nodes.drop_last(), ox, oy) + visits(nodes.last(), ox, oy)
    }
}

/// The views of a list of visits.
pub open spec fn visit_views(list: Seq<Visit<'_>>) -> Seq<VisitView> {
    list.map_values(|v: Visit<'_>| v@)
}

fn walk_into<'a>(node: &'a LaidOut, ox: i64, oy: i64, out: &mut Vec<Visit<'a>>)
    ensures
        visit_views(final(out)@) == visit_views(old(out)@) + visits(*node, ox, oy),
    decreases node,
{
    let x: i64 = move_by(ox, node.x);
    let y: i64 = move_by(oy, node.y);
    let ghost before = visit_views(out@);
    match &node.drawable {
        Some(drawable) => {
            let v = Visit { x, y, width: node.width, height: node.height, drawable };
            let ghost seen = v@;
            out.push(v);
            assert(visit_views(out@) == before.push(seen));
        },
        None => {},
    }
    let ghost own = own_visit(*node, ox, oy);
    assert(visit_views(out@) == before + own);
    let n: usize = node.children.len();
    let mut i: usize = 0;
    assert(node.children@.take(0) == Seq::<LaidOut>::empty());
    while i < n
        invariant
            n == node.children@.len(),
            i <= n,
            x == moved(ox, node.x),
            y == moved(oy, node.y),
            visit_views(out@) == before + own + visits_in(node.children@.take(i as int), x, y),
        decreases n - i,
    {
        let ghost so_far = visits_in(node.children@.take(i as int), x, y);
        walk_into(&node.children[i], x, y, out);
        proof {
            let longer = node.children@.take(i + 1);
            assert(longer.drop_last() == node.children@.take(i as int));
            assert(visits_in(longer, x, y) == so_far + visits(node.children@[i as int], x, y));
        }
        i = i + 1;
    }
    assert(node.children@.take(n as int) == node.children@);
}

/// Depth-first walk over a laid-out tree. Visits each box that carries a
/// `Drawable`, with its absolute position and size, parent before children so
/// that a `Background` on a parent paints first and its children draw on top.
///
/// `(ox, oy)` is the origin that the positions are relative to: typically the
/// anchor point on the larger canvas.
pub fn walk(node: &LaidOut, ox: i64, oy: i64) -> (r: Vec<Visit<'_>>)
    ensures
        visit_views(r@) == visits(*node, ox, oy),
{
    let mut out: Vec<Visit<'_>> = Vec::new();
    walk_into(node, ox, oy, &mut out);
    assert(visit_views(out@) == visits(*node, ox, oy));
    out
}

// ----- Laws ------------------------------------------------------------------------------------------

/// A box that carries a drawable is painted before everything in it.
pub proof fn law_parent_before_children(node: LaidOut, ox: i64, oy: i64)
    requires
        node.drawable is Some,
    ensures
        visits(node, ox, oy).len() > 0,
        visits(node, ox, oy)[0].drawable == paint(node.drawable)->0,
        visits(node, ox, oy).drop_first() == visits_in(
            node.children@,
            moved(ox, node.x),
            moved(oy, node.y),
        ),
{
    assert(visits(node, ox, oy).drop_first() == visits_in(
        node.children@,
        moved(ox, node.x),
        moved(oy, node.y),
    ));
}

/// How many boxes of a tree carry a drawable.
pub open spec fn drawables(node: LaidOut) -> nat
    decreases node, 0nat,
{
    (if node.drawable is Some {
        1nat
    } else {
        0
    }) + drawables_in(node.children@)
}

/// How many boxes of a list of trees carry a drawable.
pub open spec fn drawables_in(nodes: Seq<LaidOut>) -> nat
    decreases nodes, 1nat,
{
    if nodes.len() == 0 {
        0
    } else {
        drawables_in(nodes.drop_last()) + drawables(nodes.last())
    }
}

/// Every box that carries a drawable is painted once.
pub proof fn law_each_drawable_once(node: LaidOut, ox: i64, oy: i64)
    ensures
        visits(node, ox, oy).len() == drawables(node),
    decreases node, 0nat,
{
    lemma_each_once(node.children@, moved(ox, node.x), moved(oy, node.y));
}

proof fn lemma_each_once(nodes: Seq<LaidOut>, ox: i64, oy: i64)
    ensures
        visits_in(nodes, ox, oy).len() == drawables_in(nodes),
    decreases nodes, 1nat,
{
    if nodes.len() > 0 {
        lemma_each_once(nodes.drop_last(), ox, oy);
        law_each_drawable_once(nodes.last(), ox, oy);
    }
}

/// A box is painted at the sum of its own place, its parent's and so on, and the
/// origin, in the size that it was laid out in.
pub proof fn law_boxes_are_painted_where_they_lie(node: LaidOut, ox: i64, oy: i64)
    requires
        node.drawable is Some,
    ensures
        i64::MIN <= ox + node.x <= i64::MAX ==> visits(node, ox, oy)[0].x == ox + node.x,
        i64::MIN <= oy + node.y <= i64::MAX ==> visits(node, ox, oy)[0].y == oy + node.y,
        visits(node, ox, oy)[0].width == node.width,
        visits(node, ox, oy)[0].height == node.height,
        node.drawable matches Some(d) && visits(node, ox, oy)[0].drawable == d@,
{
}

/// What is in a box is painted relative to the box: where the box is moved, what is
/// in it moves by as much, and the order stays.
pub proof fn law_children_go_with_their_box(node: LaidOut, ox: i64, oy: i64)
    requires
        i64::MIN <= ox + node.x <= i64::MAX,
        i64::MIN <= oy + node.y <= i64::MAX,
    ensures
        visits(node, ox, oy) == own_visit(node, ox, oy) + visits_in(
            node.children@,
            (ox + node.x) as i64,
            (oy + node.y) as i64,
        ),
        node.drawable is None ==> own_visit(node, ox, oy).len() == 0,
{
}

/// Boxes side by side are painted one after the other, in the order that they are
/// listed, each wholly before the next.
pub proof fn law_siblings_in_order(before: Seq<LaidOut>, node: LaidOut, ox: i64, oy: i64)
    ensures
        visits_in(Seq::empty(), ox, oy) == Seq::<VisitView>::empty(),
        visits_in(before.push(node), ox, oy) == visits_in(before, ox, oy) + visits(node, ox, oy),
{
    assert(before.push(node).drop_last() == before);
}

/// What is set for a drawable: text in the text face, a glyph in the icon face, both
/// in this order, with the gap, for an icon with text; each in its own size.
pub proof fn law_runs_of_each_drawable(
    content: Seq<char>,
    icon: char,
    size: u32,
    icon_size: u32,
    gap: u32,
    color: ColorConfig,
)
    ensures
        ({
            let text = (DrawableView::Text { content, size, color });
            let glyph = (DrawableView::Icon { glyph: icon, size: icon_size, color });
            let both = (DrawableView::IconText {
                icon,
                icon_size,
                gap,
                text: content,
                text_size: size,
                color,
            });
            let plain = (DrawableView::Background { color, radius: size });
            &&& both.runs() == glyph.runs() + text.runs()
            &&& both.run_gap() == gap
            &&& text.runs().len() == 1 && text.runs()[0] == (RunView {
                face: Face::Text,
                text: content,
                size,
            })
            &&& glyph.runs().len() == 1 && glyph.runs()[0] == (RunView {
                face: Face::Icon,
                text: seq![icon],
                size: icon_size,
            })
            &&& plain.runs().len() == 0
            &&& text.run_gap() == 0 && glyph.run_gap() == 0
        }),
{
}

/// A box's tree has the box's style, what it carries, and the trees of the boxes in it,
/// in their order.
pub proof fn law_tree_mirrors_the_box(node: Node, i: int)
    ensures
        node.tree().style == node.style,
        node.drawable is None <==> node.tree().drawable is None,
        node.drawable matches Some(d) ==> node.tree().drawable == Some(d@),
        node.tree().children.len() == node.children@.len(),
        0 <= i < node.children@.len() ==> node.tree().children[i] == node.children@[i].tree(),
{
}

} // verus!
