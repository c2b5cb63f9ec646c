//! The layout engine: turns a style tree into a tree of boxes with
//! concrete geometry, in thousandths of a pixel.
//!
//! The tree is built first (one box per styled node, `display: none`
//! subtrees contributing nothing), then geometry is computed top-down: each
//! box's width is solved against its containing block, its position is
//! taken from the parent's content origin and accumulated height, its
//! children are laid out in flow, and an explicit height overrides the
//! accumulated one. Inline-block children flow along a horizontal cursor
//! and wrap onto a new line when they overrun the containing width. All
//! arithmetic saturates at the `i64` range.

use vstd::prelude::*;

use crate::css::{Unit, Value, ValueV};
use crate::num::{
    half, pct_of, parse_str_units, sadd, sat_add, sat_sub, shalf, spct, ssub, str_units,
};
use crate::style::{
    display_of, num_or_spec, style_lookup, Display, StyledNode, StyledNodeV,
};

verus! {

broadcast use vstd::std_specs::vec::group_vec_axioms;

// ---------------------------------------------------------------------------
// Geometry
// ---------------------------------------------------------------------------
/// A rectangle, in thousandths of a pixel; the origin is the top left and
/// `y` grows downward.
#[derive(Clone, Copy, PartialEq, Eq, Structural, Debug)]
pub struct Rectangle {
    pub x: i64,
    pub y: i64,
    pub width: i64,
    pub height: i64,
}

/// Four edge thicknesses, in thousandths of a pixel.
#[derive(Clone, Copy, PartialEq, Eq, Structural, Debug)]
pub struct EdgeSizes {
    pub left: i64,
    pub right: i64,
    pub top: i64,
    pub bottom: i64,
}

/// A box's geometry: its content rectangle and the padding, border and
/// margin edges around it.
#[derive(Clone, Copy, PartialEq, Eq, Structural, Debug)]
pub struct Dimensions {
    pub content: Rectangle,
    pub padding: EdgeSizes,
    pub border: EdgeSizes,
    pub margin: EdgeSizes,
}

/// A rectangle grown on each side by the given edges.
pub open spec fn expanded_spec(r: Rectangle, e: EdgeSizes) -> Rectangle {
    Rectangle {
        x: ssub(r.x, e.left),
        y: ssub(r.y, e.top),
        width: sadd(sadd(r.width, e.left), e.right),
        height: sadd(sadd(r.height, e.top), e.bottom),
    }
}

pub open spec fn padding_box_spec(d: Dimensions) -> Rectangle {
    expanded_spec(d.content, d.padding)
}

pub open spec fn border_box_spec(d: Dimensions) -> Rectangle {
    expanded_spec(padding_box_spec(d), d.border)
}

pub open spec fn margin_box_spec(d: Dimensions) -> Rectangle {
    expanded_spec(border_box_spec(d), d.margin)
}

pub open spec fn zero_rect() -> Rectangle {
    Rectangle { x: 0, y: 0, width: 0, height: 0 }
}

pub open spec fn zero_edges() -> EdgeSizes {
    EdgeSizes { left: 0, right: 0, top: 0, bottom: 0 }
}

pub open spec fn default_dimensions() -> Dimensions {
    Dimensions { content: zero_rect(), padding: zero_edges(), border: zero_edges(), margin: zero_edges() }
}

impl Rectangle {
    /// This rectangle grown on each side by the given edges.
    pub fn expanded(&self, e: EdgeSizes) -> (r: Rectangle)
        ensures
            r == expanded_spec(*self, e),
    {
        Rectangle {
            x: sat_sub(self.x, e.left),
            y: sat_sub(self.y, e.top),
            width: sat_add(sat_add(self.width, e.left), e.right),
            height: sat_add(sat_add(self.height, e.top), e.bottom),
        }
    }
}

impl Default for Rectangle {
    fn default() -> (r: Rectangle)
        ensures
            r == zero_rect(),
    {
        Rectangle { x: 0, y: 0, width: 0, height: 0 }
    }
}

impl Default for EdgeSizes {
    fn default() -> (r: EdgeSizes)
        ensures
            r == zero_edges(),
    {
        EdgeSizes { left: 0, right: 0, top: 0, bottom: 0 }
    }
}

impl Default for Dimensions {
    fn default() -> (r: Dimensions)
        ensures
            r == default_dimensions(),
    {
        Dimensions {
            content: Rectangle::default(),
            padding: EdgeSizes::default(),
            border: EdgeSizes::default(),
            margin: EdgeSizes::default(),
        }
    }
}

impl Dimensions {
    /// The content rectangle grown by the padding.
    pub fn padding_box(&self) -> (r: Rectangle)
        ensures
            r == padding_box_spec(*self),
    {
        self.content.expanded(self.padding)
    }

    /// The content rectangle grown by padding and border.
    pub fn border_box(&self) -> (r: Rectangle)
        ensures
            r == border_box_spec(*self),
    {
        self.padding_box().expanded(self.border)
    }

    /// The content rectangle grown by padding, border and margin.
    pub fn margin_box(&self) -> (r: Rectangle)
        ensures
            r == margin_box_spec(*self),
    {
        self.border_box().expanded(self.margin)
    }
}

// ---------------------------------------------------------------------------
// The layout tree
// ---------------------------------------------------------------------------
/// The kind of box a styled node becomes.
#[derive(Clone, Copy, PartialEq, Eq, Structural, Debug)]
pub enum BoxType {
    Block,
    Inline,
    InlineBlock,
    Anonymous,
}

/// A box of the layout tree: its geometry, its kind, the styled node it
/// lays out, and its child boxes.
pub struct LayoutBox<'a> {
    pub dimensions: Dimensions,
    pub box_type: BoxType,
    pub styled_node: &'a StyledNode<'a>,
    pub children: Vec<LayoutBox<'a>>,
}

pub struct LayoutBoxV {
    pub dimensions: Dimensions,
    pub box_type: BoxType,
    pub styled: StyledNodeV,
    pub children: Seq<LayoutBoxV>,
}

pub open spec fn layout_box_view(b: LayoutBox) -> LayoutBoxV
    decreases b,
{
    LayoutBoxV {
        dimensions: b.dimensions,
        box_type: b.box_type,
        styled: b.styled_node@,
        children: layout_box_views(b.children@),
    }
}

pub open spec fn layout_box_views(s: Seq<LayoutBox>) -> Seq<LayoutBoxV>
    decreases s,
{
    if s.len() == 0 {
        Seq::empty()
    } else {
        layout_box_views(s.drop_last()).push(layout_box_view(s.last()))
    }
}

impl<'a> View for LayoutBox<'a> {
    type V = LayoutBoxV;

    open spec fn view(&self) -> LayoutBoxV {
        layout_box_view(*self)
    }
}

pub proof fn lemma_layout_box_views_push(s: Seq<LayoutBox>, x: LayoutBox)
    ensures
        layout_box_views(s.push(x)) == layout_box_views(s).push(layout_box_view(x)),
{
    assert(s.push(x).drop_last() =~= s);
    assert(s.push(x).last() == x);
}

pub proof fn lemma_layout_box_views_index(s: Seq<LayoutBox>, i: int)
    requires
        0 <= i < s.len(),
    ensures
        layout_box_views(s).len() == s.len(),
        layout_box_views(s)[i] == layout_box_view(s[i]),
    decreases s,
{
    lemma_layout_box_views_len(s);
    if i < s.len() - 1 {
        lemma_layout_box_views_index(s.drop_last(), i);
    } else {
        assert(s.last() == s[i]);
    }
}

pub proof fn lemma_layout_box_views_len(s: Seq<LayoutBox>)
    ensures
        layout_box_views(s).len() == s.len(),
    decreases s,
{
    if s.len() > 0 {
        lemma_layout_box_views_len(s.drop_last());
    }
}

// ---------------------------------------------------------------------------
// Reading properties
// ---------------------------------------------------------------------------
/// The numeric magnitude an `Other`-valued property parses to, or zero:
/// how explicit margins are read during block width calculation.
pub open spec fn other_num(styles: Seq<(Seq<char>, ValueV)>, name: Seq<char>) -> i64 {
    match style_lookup(styles, name) {
        Some(v) => match v {
            ValueV::Other(t) => str_units(t) as i64,
            _ => 0,
        },
        None => 0,
    }
}

/// The magnitude a length property resolves to against a containing width:
/// pixels read directly, percentages against the containing width. Units
/// other than these are kept out by the width precondition below.
pub open spec fn abs_len(
    styles: Seq<(Seq<char>, ValueV)>,
    containing_width: i64,
    name: Seq<char>,
) -> Option<i64> {
    match style_lookup(styles, name) {
        Some(v) => match v {
            ValueV::Length(l, u) => match u {
                Unit::Pct => Some(spct(l as i64, containing_width)),
                _ => Some(l as i64),
            },
            _ => None,
        },
        None => None,
    }
}

/// Whether the `width` property, if it is a length, carries a pixel or
/// percent unit: the one condition under which width computation is
/// defined. The pipeline treats any other unit there as fatal.
pub open spec fn width_prop_ok(styles: Seq<(Seq<char>, ValueV)>) -> bool {
    match style_lookup(styles, "width"@) {
        Some(v) => match v {
            ValueV::Length(l, u) => u == Unit::Px || u == Unit::Pct,
            _ => true,
        },
        None => true,
    }
}

/// A property magnitude as a machine integer.
pub open spec fn num_or64(styles: Seq<(Seq<char>, ValueV)>, name: Seq<char>, default: i64) -> i64 {
    num_or_spec(styles, name, default as int) as i64
}

// ---------------------------------------------------------------------------
// Geometry passes, at the spec level
// ---------------------------------------------------------------------------
/// Block width calculation: the constrained-width formula. The leftover
/// width (underflow) goes to an auto width, to an absent margin, to both
/// absent margins evenly, or onto the right margin when everything is
/// specified. A zero or unset width counts as auto; margin magnitudes come
/// from unitless `Other` values, and an absent margin property is what
/// makes a margin auto.
pub open spec fn calc_width_dims(
    styles: Seq<(Seq<char>, ValueV)>,
    d: Dimensions,
    b: Dimensions,
) -> Dimensions {
    let width = match abs_len(styles, b.content.width, "width"@) {
        Some(w) => w,
        None => 0,
    };
    let ml_present = style_lookup(styles, "margin-left"@) is Some;
    let mr_present = style_lookup(styles, "margin-right"@) is Some;
    let ml_num = other_num(styles, "margin-left"@);
    let mr_num = other_num(styles, "margin-right"@);
    let bl = num_or64(styles, "border-left-width"@, 0);
    let br = num_or64(styles, "border-right-width"@, 0);
    let pl = num_or64(styles, "padding-left"@, 0);
    let pr = num_or64(styles, "padding-right"@, 0);
    let total = sadd(sadd(sadd(sadd(sadd(sadd(width, ml_num), mr_num), bl), br), pl), pr);
    let underflow = ssub(b.content.width, total);
    let d1 = Dimensions {
        border: EdgeSizes { left: bl, right: br, ..d.border },
        padding: EdgeSizes { left: pl, right: pr, ..d.padding },
        ..d
    };
    if width == 0 {
        if underflow >= 0 {
            Dimensions {
                content: Rectangle { width: underflow, ..d1.content },
                margin: EdgeSizes { left: ml_num, right: mr_num, ..d1.margin },
                ..d1
            }
        } else {
            Dimensions {
                content: Rectangle { width: 0, ..d1.content },
                margin: EdgeSizes { left: ml_num, right: sadd(mr_num, underflow), ..d1.margin },
                ..d1
            }
        }
    } else if !ml_present && mr_present {
        Dimensions {
            content: Rectangle { width, ..d1.content },
            margin: EdgeSizes { left: underflow, right: mr_num, ..d1.margin },
            ..d1
        }
    } else if ml_present && !mr_present {
        Dimensions {
            content: Rectangle { width, ..d1.content },
            margin: EdgeSizes { left: ml_num, right: underflow, ..d1.margin },
            ..d1
        }
    } else if !ml_present && !mr_present {
        Dimensions {
            content: Rectangle { width, ..d1.content },
            margin: EdgeSizes { left: shalf(underflow), right: shalf(underflow), ..d1.margin },
            ..d1
        }
    } else {
        Dimensions {
            content: Rectangle { width, ..d1.content },
            margin: EdgeSizes { left: ml_num, right: sadd(mr_num, underflow), ..d1.margin },
            ..d1
        }
    }
}

/// Block position: vertical edges are read from the style (the border
/// thicknesses from the `margin-*-width` names, and the bottom padding
/// from `padding-top`, exactly as the style sheet keys are consulted), and
/// the content origin stacks below the containing block's accumulated
/// height.
pub open spec fn calc_position_dims(
    styles: Seq<(Seq<char>, ValueV)>,
    d: Dimensions,
    b: Dimensions,
) -> Dimensions {
    let mt = num_or64(styles, "margin-top"@, 0);
    let mb = num_or64(styles, "margin-bottom"@, 0);
    let bt = num_or64(styles, "margin-top-width"@, 0);
    let bb = num_or64(styles, "margin-bottom-width"@, 0);
    let pt = num_or64(styles, "padding-top"@, 0);
    let pb = num_or64(styles, "padding-top"@, 0);
    Dimensions {
        content: Rectangle {
            x: sadd(sadd(sadd(b.content.x, d.margin.left), d.border.left), d.padding.left),
            y: sadd(sadd(sadd(sadd(b.content.height, b.content.y), mt), bt), pt),
            ..d.content
        },
        margin: EdgeSizes { top: mt, bottom: mb, ..d.margin },
        border: EdgeSizes { top: bt, bottom: bb, ..d.border },
        padding: EdgeSizes { top: pt, bottom: pb, ..d.padding },
    }
}

/// Inline-block width: no constraint solving; the explicit width (or
/// zero), and horizontal edges read directly (the borders from the
/// `border-left`/`border-right` names).
pub open spec fn calc_inline_width_dims(
    styles: Seq<(Seq<char>, ValueV)>,
    d: Dimensions,
    b: Dimensions,
) -> Dimensions {
    let width = match abs_len(styles, b.content.width, "width"@) {
        Some(w) => w,
        None => 0,
    };
    Dimensions {
        content: Rectangle { width, ..d.content },
        margin: EdgeSizes {
            left: num_or64(styles, "margin-left"@, 0),
            right: num_or64(styles, "margin-right"@, 0),
            ..d.margin
        },
        padding: EdgeSizes {
            left: num_or64(styles, "padding-left"@, 0),
            right: num_or64(styles, "padding-right"@, 0),
            ..d.padding
        },
        border: EdgeSizes {
            left: num_or64(styles, "border-left"@, 0),
            right: num_or64(styles, "border-right"@, 0),
            ..d.border
        },
    }
}

/// Inline-block position: as the block position, but the content origin
/// is additionally offset by the parent's horizontal cursor, and the
/// border thicknesses are read from `border-*-width` (the bottom padding
/// again from `padding-top`).
pub open spec fn calc_inline_position_dims(
    styles: Seq<(Seq<char>, ValueV)>,
    d: Dimensions,
    b: Dimensions,
    cursor_x: i64,
) -> Dimensions {
    let mt = num_or64(styles, "margin-top"@, 0);
    let mb = num_or64(styles, "margin-bottom"@, 0);
    let bt = num_or64(styles, "border-top-width"@, 0);
    let bb = num_or64(styles, "border-bottom-width"@, 0);
    let pt = num_or64(styles, "padding-top"@, 0);
    let pb = num_or64(styles, "padding-top"@, 0);
    Dimensions {
        content: Rectangle {
            x: sadd(
                sadd(sadd(sadd(b.content.x, cursor_x), d.margin.left), d.border.left),
                d.padding.left,
            ),
            y: sadd(sadd(sadd(sadd(b.content.height, b.content.y), mt), bt), pt),
            ..d.content
        },
        margin: EdgeSizes { top: mt, bottom: mb, ..d.margin },
        border: EdgeSizes { top: bt, bottom: bb, ..d.border },
        padding: EdgeSizes { top: pt, bottom: pb, ..d.padding },
    }
}

/// Height: an explicit length-valued `height` property overrides the
/// accumulated content height, whatever its unit.
pub open spec fn calc_height_dims(styles: Seq<(Seq<char>, ValueV)>, d: Dimensions) -> Dimensions {
    match style_lookup(styles, "height"@) {
        Some(v) => match v {
            ValueV::Length(n, u) => Dimensions {
                content: Rectangle { height: n as i64, ..d.content },
                ..d
            },
            _ => d,
        },
        None => d,
    }
}

// ---------------------------------------------------------------------------
// Layout, at the spec level
// ---------------------------------------------------------------------------
/// What laying out one box against its containing block and the parent's
/// horizontal cursor yields. Anonymous boxes keep their geometry.
pub open spec fn layout_box_spec(b: LayoutBoxV, b_box: Dimensions, cursor_x: i64) -> LayoutBoxV
    decreases b, 0int,
{
    match b.box_type {
        BoxType::Anonymous => b,
        BoxType::InlineBlock => {
            let d1 = calc_inline_width_dims(b.styled.styles, b.dimensions, b_box);
            let d2 = calc_inline_position_dims(b.styled.styles, d1, b_box, cursor_x);
            let r = layout_children_at(b.children, 0, Seq::empty(), d2, 0, 0, BoxType::Block);
            LayoutBoxV {
                dimensions: calc_height_dims(b.styled.styles, r.1),
                box_type: b.box_type,
                styled: b.styled,
                children: r.0,
            }
        },
        _ => {
            let d1 = calc_width_dims(b.styled.styles, b.dimensions, b_box);
            let d2 = calc_position_dims(b.styled.styles, d1, b_box);
            let r = layout_children_at(b.children, 0, Seq::empty(), d2, 0, 0, BoxType::Block);
            LayoutBoxV {
                dimensions: calc_height_dims(b.styled.styles, r.1),
                box_type: b.box_type,
                styled: b.styled,
                children: r.0,
            }
        },
    }
}

/// Child flow from child `i` on: `d` is the parent's geometry so far,
/// `cur` the horizontal cursor, `maxh` the current line's tallest
/// margin-box height, `prev` the previous child's box kind. A block child
/// after inline-blocks first flushes the line; an inline-block child that
/// would overrun the content width is laid at the start of a new line;
/// when the children end on an open line, that line is flushed too.
/// The parent's geometry with its content height grown by `h`.
pub open spec fn bump_height(d: Dimensions, h: i64) -> Dimensions {
    Dimensions { content: Rectangle { height: sadd(d.content.height, h), ..d.content }, ..d }
}

/// One step of child flow: the laid-out child, and the parent's geometry,
/// cursor, line height and previous box kind after it. A block child after
/// inline-blocks first flushes the line; an inline-block child that would
/// overrun the content width is laid at the start of a new line; inline
/// and anonymous children are laid out but advance nothing.
pub open spec fn child_step(
    child: LayoutBoxV,
    d: Dimensions,
    cur: i64,
    maxh: i64,
    prev: BoxType,
) -> (LayoutBoxV, Dimensions, i64, i64, BoxType)
    decreases child, 1int,
{
    let flush = prev == BoxType::InlineBlock && child.box_type == BoxType::Block;
    let d0 = if flush {
        bump_height(d, maxh)
    } else {
        d
    };
    let cur0: i64 = if flush {
        0
    } else {
        cur
    };
    let max0: i64 = if flush {
        0
    } else {
        maxh
    };
    if child.box_type == BoxType::InlineBlock {
        let adv = margin_box_spec(
            calc_inline_width_dims(child.styled.styles, child.dimensions, d0),
        ).width;
        if sadd(cur0, adv) > d0.content.width {
            let d2 = bump_height(d0, max0);
            let c2 = layout_box_spec(child, d2, 0);
            (
                c2,
                d2,
                margin_box_spec(c2.dimensions).width,
                margin_box_spec(c2.dimensions).height,
                BoxType::InlineBlock,
            )
        } else {
            let c1 = layout_box_spec(child, d0, cur0);
            let h1 = margin_box_spec(c1.dimensions).height;
            (
                c1,
                d0,
                sadd(cur0, margin_box_spec(c1.dimensions).width),
                if h1 > max0 {
                    h1
                } else {
                    max0
                },
                BoxType::InlineBlock,
            )
        }
    } else if child.box_type == BoxType::Block {
        let c1 = layout_box_spec(child, d0, cur0);
        (c1, bump_height(d0, margin_box_spec(c1.dimensions).height), cur0, max0, BoxType::Block)
    } else {
        let c1 = layout_box_spec(child, d0, cur0);
        (c1, d0, cur0, max0, child.box_type)
    }
}

pub open spec fn layout_children_at(
    cs: Seq<LayoutBoxV>,
    i: int,
    out: Seq<LayoutBoxV>,
    d: Dimensions,
    cur: i64,
    maxh: i64,
    prev: BoxType,
) -> (Seq<LayoutBoxV>, Dimensions)
    decreases cs, cs.len() - i,
{
    if !(0 <= i < cs.len()) {
        if prev == BoxType::InlineBlock {
            (out, bump_height(d, maxh))
        } else {
            (out, d)
        }
    } else {
        let st = child_step(cs[i], d, cur, maxh, prev);
        layout_children_at(cs, i + 1, out.push(st.0), st.1, st.2, st.3, st.4)
    }
}

// ---------------------------------------------------------------------------
// Building the tree, at the spec level
// ---------------------------------------------------------------------------
pub open spec fn box_type_of(d: Display) -> BoxType {
    match d {
        Display::Block => BoxType::Block,
        Display::Inline => BoxType::Inline,
        Display::InlineBlock => BoxType::InlineBlock,
        Display::DisplayNone => BoxType::Anonymous,
    }
}

/// The layout tree a styled node builds: one box per styled node, with
/// `display: none` children contributing no box at all.
pub open spec fn build_box(s: StyledNodeV) -> LayoutBoxV
    decreases s, 0int,
{
    LayoutBoxV {
        dimensions: default_dimensions(),
        box_type: box_type_of(display_of(s.styles)),
        styled: s,
        children: build_children(s.children, 0, Seq::empty()),
    }
}

pub open spec fn build_children(
    cs: Seq<StyledNodeV>,
    i: int,
    out: Seq<LayoutBoxV>,
) -> Seq<LayoutBoxV>
    decreases cs, cs.len() - i,
{
    if !(0 <= i < cs.len()) {
        out
    } else if display_of(cs[i].styles) == Display::DisplayNone {
        build_children(cs, i + 1, out)
    } else {
        build_children(cs, i + 1, out.push(build_box(cs[i])))
    }
}

/// Prefix independence of child building: boxes already collected pass
/// through unchanged.
proof fn lemma_build_children_prefix(cs: Seq<StyledNodeV>, i: int, out: Seq<LayoutBoxV>)
    requires
        0 <= i,
    ensures
        build_children(cs, i, out) == out + build_children(cs, i, Seq::empty()),
    decreases cs, cs.len() - i, 0int,
{
    if !(0 <= i < cs.len()) {
        assert(out + Seq::<LayoutBoxV>::empty() =~= out);
    } else if display_of(cs[i].styles) == Display::DisplayNone {
        lemma_build_children_prefix(cs, i + 1, out);
    } else {
        lemma_build_children_prefix(cs, i + 1, out.push(build_box(cs[i])));
        lemma_build_children_prefix(cs, i + 1, Seq::<LayoutBoxV>::empty().push(build_box(cs[i])));
        assert(out.push(build_box(cs[i])) =~= out + Seq::<LayoutBoxV>::empty().push(
            build_box(cs[i]),
        ));
        assert(out + (Seq::<LayoutBoxV>::empty().push(build_box(cs[i])) + build_children(
            cs,
            i + 1,
            Seq::empty(),
        )) =~= (out + Seq::<LayoutBoxV>::empty().push(build_box(cs[i]))) + build_children(
            cs,
            i + 1,
            Seq::empty(),
        ));
    }
}

/// Dropping the last styled child changes the built boxes by exactly that
/// child's contribution: its box when it displays, nothing otherwise.
proof fn lemma_build_children_snoc(cs: Seq<StyledNodeV>, i: int, out: Seq<LayoutBoxV>)
    requires
        0 <= i <= cs.len() - 1,
        cs.len() > 0,
    ensures
        build_children(cs, i, out) == (if display_of(cs.last().styles) == Display::DisplayNone {
            build_children(cs.drop_last(), i, out)
        } else {
            build_children(cs.drop_last(), i, out).push(build_box(cs.last()))
        }),
    decreases cs, cs.len() - i, 0int,
{
    let csp = cs.drop_last();
    if i == cs.len() - 1 {
        assert(cs[i] == cs.last());
        assert(build_children(csp, i, out) == out);
        if display_of(cs[i].styles) == Display::DisplayNone {
            assert(build_children(cs, i + 1, out) == out);
        } else {
            assert(build_children(cs, i + 1, out.push(build_box(cs[i]))) == out.push(
                build_box(cs[i]),
            ));
        }
    } else {
        assert(csp[i] == cs[i]);
        if display_of(cs[i].styles) == Display::DisplayNone {
            lemma_build_children_snoc(cs, i + 1, out);
        } else {
            lemma_build_children_snoc(cs, i + 1, out.push(build_box(cs[i])));
        }
    }
}

/// Law of `display: none` exclusion: the boxes a node's children build
/// are exactly the boxes of its children whose display is not `none`, in
/// order. A `display: none` child contributes no layout box and, since
/// paint commands are emitted per box, no display command either — and
/// its siblings still build their boxes around it.
pub proof fn lemma_display_none_excluded(cs: Seq<StyledNodeV>)
    ensures
        build_children(cs, 0, Seq::empty()) == cs.filter(
            |c: StyledNodeV| display_of(c.styles) != Display::DisplayNone,
        ).map_values(|c: StyledNodeV| build_box(c)),
    decreases cs.len(),
{
    reveal(Seq::filter);
    let pred = |c: StyledNodeV| display_of(c.styles) != Display::DisplayNone;
    let f = |c: StyledNodeV| build_box(c);
    if cs.len() == 0 {
        assert(cs.filter(pred).map_values(f) =~= Seq::<LayoutBoxV>::empty());
    } else {
        let csp = cs.drop_last();
        lemma_display_none_excluded(csp);
        lemma_build_children_snoc(cs, 0, Seq::empty());
        if pred(cs.last()) {
            assert(cs.filter(pred) == csp.filter(pred).push(cs.last()));
            assert(cs.filter(pred).map_values(f) =~= csp.filter(pred).map_values(f).push(
                f(cs.last()),
            ));
        } else {
            assert(cs.filter(pred) == csp.filter(pred));
        }
    }
}

// ---------------------------------------------------------------------------
// The width precondition over trees
// ---------------------------------------------------------------------------
/// Every `width` property in the styled subtree is a pixel or percent
/// length, if it is a length at all.
pub open spec fn styled_widths_ok(s: StyledNodeV) -> bool
    decreases s, 0int,
{
    width_prop_ok(s.styles) && styled_children_widths_ok(s.children, 0)
}

pub open spec fn styled_children_widths_ok(cs: Seq<StyledNodeV>, i: int) -> bool
    decreases cs, cs.len() - i,
{
    if !(0 <= i < cs.len()) {
        true
    } else {
        styled_widths_ok(cs[i]) && styled_children_widths_ok(cs, i + 1)
    }
}

/// Every `width` property in the box subtree is a pixel or percent
/// length, if it is a length at all.
pub open spec fn box_widths_ok(b: LayoutBoxV) -> bool
    decreases b, 0int,
{
    width_prop_ok(b.styled.styles) && boxes_widths_ok(b.children, 0)
}

pub open spec fn boxes_widths_ok(cs: Seq<LayoutBoxV>, i: int) -> bool
    decreases cs, cs.len() - i,
{
    if !(0 <= i < cs.len()) {
        true
    } else {
        box_widths_ok(cs[i]) && boxes_widths_ok(cs, i + 1)
    }
}

pub proof fn lemma_boxes_widths_ok_index(cs: Seq<LayoutBoxV>, i: int, k: int)
    requires
        boxes_widths_ok(cs, i),
        0 <= i <= k < cs.len(),
    ensures
        box_widths_ok(cs[k]),
    decreases k - i,
{
    if i < k {
        lemma_boxes_widths_ok_index(cs, i + 1, k);
    }
}

/// A well-widthed styled tree builds a well-widthed box tree.
pub proof fn lemma_build_widths_ok(s: StyledNodeV)
    requires
        styled_widths_ok(s),
    ensures
        box_widths_ok(build_box(s)),
    decreases s, 0int, 0int,
{
    lemma_build_children_widths_ok(s.children, 0, Seq::empty());
}

pub proof fn lemma_build_children_widths_ok(cs: Seq<StyledNodeV>, i: int, out: Seq<LayoutBoxV>)
    requires
        0 <= i,
        styled_children_widths_ok(cs, i),
        boxes_widths_ok(out, 0),
    ensures
        boxes_widths_ok(build_children(cs, i, out), 0),
    decreases cs, cs.len() - i, 0int,
{
    if 0 <= i < cs.len() {
        if display_of(cs[i].styles) == Display::DisplayNone {
            lemma_build_children_widths_ok(cs, i + 1, out);
        } else {
            lemma_build_widths_ok(cs[i]);
            lemma_boxes_widths_ok_push(out, build_box(cs[i]));
            lemma_build_children_widths_ok(cs, i + 1, out.push(build_box(cs[i])));
        }
    }
}

pub proof fn lemma_boxes_widths_ok_push(cs: Seq<LayoutBoxV>, b: LayoutBoxV)
    requires
        boxes_widths_ok(cs, 0),
        box_widths_ok(b),
    ensures
        boxes_widths_ok(cs.push(b), 0),
{
    lemma_boxes_widths_ok_push_from(cs, b, 0);
}

// ---------------------------------------------------------------------------
// Executable layout
// ---------------------------------------------------------------------------
/// The magnitude of a length-valued property against the containing block:
/// pixels read directly, percentages resolved against the containing
/// block's content width.
fn get_absolute_num(s_node: &StyledNode, b_box: &Dimensions, prop: &str) -> (r: Option<i64>)
    requires
        (match style_lookup(s_node@.styles, prop@) {
            Some(v) => match v {
                ValueV::Length(l, u) => u == Unit::Px || u == Unit::Pct,
                _ => true,
            },
            None => true,
        }),
    ensures
        r == abs_len(s_node@.styles, b_box.content.width, prop@),
{
    match s_node.value(prop) {
        Some(v) => match v {
            Value::Length(l, u) => match u {
                Unit::Px => Some(*l),
                Unit::Pct => Some(pct_of(*l, b_box.content.width)),
                // Any other unit is kept out by the precondition.
                _ => Some(*l),
            },
            _ => None,
        },
        None => None,
    }
}

/// Reads an explicit margin the way block width calculation does: the
/// presence of the property, and the magnitude its `Other` text parses to.
fn margin_as_number(s_node: &StyledNode, prop: &str) -> (r: (bool, i64))
    ensures
        r.0 == (style_lookup(s_node@.styles, prop@) is Some),
        r.1 == other_num(s_node@.styles, prop@),
{
    match s_node.value(prop) {
        Some(v) => match v {
            Value::Other(t) => (true, parse_str_units(t.as_str())),
            _ => (true, 0),
        },
        None => (false, 0),
    }
}

/// Solves the box's width against the containing block.
fn calculate_width(style: &StyledNode, d: Dimensions, b_box: &Dimensions) -> (r: Dimensions)
    requires
        width_prop_ok(style@.styles),
    ensures
        r == calc_width_dims(style@.styles, d, *b_box),
{
    let width = match get_absolute_num(style, b_box, "width") {
        Some(w) => w,
        None => 0,
    };
    let (ml_present, ml_num) = margin_as_number(style, "margin-left");
    let (mr_present, mr_num) = margin_as_number(style, "margin-right");
    let bl = style.num_or("border-left-width", 0);
    let br = style.num_or("border-right-width", 0);
    let pl = style.num_or("padding-left", 0);
    let pr = style.num_or("padding-right", 0);
    let total = sat_add(sat_add(sat_add(sat_add(sat_add(sat_add(width, ml_num), mr_num), bl), br), pl), pr);
    let underflow = sat_sub(b_box.content.width, total);
    let d1 = Dimensions {
        border: EdgeSizes { left: bl, right: br, ..d.border },
        padding: EdgeSizes { left: pl, right: pr, ..d.padding },
        ..d
    };
    if width == 0 {
        if underflow >= 0 {
            Dimensions {
                content: Rectangle { width: underflow, ..d1.content },
                margin: EdgeSizes { left: ml_num, right: mr_num, ..d1.margin },
                ..d1
            }
        } else {
            Dimensions {
                content: Rectangle { width: 0, ..d1.content },
                margin: EdgeSizes {
                    left: ml_num,
                    right: sat_add(mr_num, underflow),
                    ..d1.margin
                },
                ..d1
            }
        }
    } else if !ml_present && mr_present {
        Dimensions {
            content: Rectangle { width, ..d1.content },
            margin: EdgeSizes { left: underflow, right: mr_num, ..d1.margin },
            ..d1
        }
    } else if ml_present && !mr_present {
        Dimensions {
            content: Rectangle { width, ..d1.content },
            margin: EdgeSizes { left: ml_num, right: underflow, ..d1.margin },
            ..d1
        }
    } else if !ml_present && !mr_present {
        Dimensions {
            content: Rectangle { width, ..d1.content },
            margin: EdgeSizes {
                left: half(underflow),
                right: half(underflow),
                ..d1.margin
            },
            ..d1
        }
    } else {
        Dimensions {
            content: Rectangle { width, ..d1.content },
            margin: EdgeSizes { left: ml_num, right: sat_add(mr_num, underflow), ..d1.margin },
            ..d1
        }
    }
}

/// Positions the box below the containing block's accumulated height.
fn calculate_position(style: &StyledNode, d: Dimensions, b_box: &Dimensions) -> (r: Dimensions)
    ensures
        r == calc_position_dims(style@.styles, d, *b_box),
{
    let mt = style.num_or("margin-top", 0);
    let mb = style.num_or("margin-bottom", 0);
    let bt = style.num_or("margin-top-width", 0);
    let bb = style.num_or("margin-bottom-width", 0);
    let pt = style.num_or("padding-top", 0);
    let pb = style.num_or("padding-top", 0);
    Dimensions {
        content: Rectangle {
            x: sat_add(
                sat_add(sat_add(b_box.content.x, d.margin.left), d.border.left),
                d.padding.left,
            ),
            y: sat_add(
                sat_add(sat_add(sat_add(b_box.content.height, b_box.content.y), mt), bt),
                pt,
            ),
            ..d.content
        },
        margin: EdgeSizes { top: mt, bottom: mb, ..d.margin },
        border: EdgeSizes { top: bt, bottom: bb, ..d.border },
        padding: EdgeSizes { top: pt, bottom: pb, ..d.padding },
    }
}

/// Sets the inline-block box's width and horizontal edges directly.
fn calculate_inline_width(style: &StyledNode, d: Dimensions, b_box: &Dimensions) -> (r:
    Dimensions)
    requires
        width_prop_ok(style@.styles),
    ensures
        r == calc_inline_width_dims(style@.styles, d, *b_box),
{
    let width = match get_absolute_num(style, b_box, "width") {
        Some(w) => w,
        None => 0,
    };
    Dimensions {
        content: Rectangle { width, ..d.content },
        margin: EdgeSizes {
            left: style.num_or("margin-left", 0),
            right: style.num_or("margin-right", 0),
            ..d.margin
        },
        padding: EdgeSizes {
            left: style.num_or("padding-left", 0),
            right: style.num_or("padding-right", 0),
            ..d.padding
        },
        border: EdgeSizes {
            left: style.num_or("border-left", 0),
            right: style.num_or("border-right", 0),
            ..d.border
        },
    }
}

/// Positions the inline-block box at the parent's horizontal cursor.
fn calculate_inline_position(
    style: &StyledNode,
    d: Dimensions,
    b_box: &Dimensions,
    cursor_x: i64,
) -> (r: Dimensions)
    ensures
        r == calc_inline_position_dims(style@.styles, d, *b_box, cursor_x),
{
    let mt = style.num_or("margin-top", 0);
    let mb = style.num_or("margin-bottom", 0);
    let bt = style.num_or("border-top-width", 0);
    let bb = style.num_or("border-bottom-width", 0);
    let pt = style.num_or("padding-top", 0);
    let pb = style.num_or("padding-top", 0);
    Dimensions {
        content: Rectangle {
            x: sat_add(
                sat_add(
                    sat_add(sat_add(b_box.content.x, cursor_x), d.margin.left),
                    d.border.left,
                ),
                d.padding.left,
            ),
            y: sat_add(
                sat_add(sat_add(sat_add(b_box.content.height, b_box.content.y), mt), bt),
                pt,
            ),
            ..d.content
        },
        margin: EdgeSizes { top: mt, bottom: mb, ..d.margin },
        border: EdgeSizes { top: bt, bottom: bb, ..d.border },
        padding: EdgeSizes { top: pt, bottom: pb, ..d.padding },
    }
}

/// Overrides the content height with an explicit `height` length.
fn calculate_height(style: &StyledNode, d: Dimensions) -> (r: Dimensions)
    ensures
        r == calc_height_dims(style@.styles, d),
{
    match style.value("height") {
        Some(v) => match v {
            Value::Length(n, _) => Dimensions {
                content: Rectangle { height: *n, ..d.content },
                ..d
            },
            _ => d,
        },
        None => d,
    }
}

impl<'a> LayoutBox<'a> {
    pub fn new(box_type: BoxType, styled_node: &'a StyledNode<'a>) -> (b: LayoutBox<'a>)
        ensures
            b@ == (LayoutBoxV {
                dimensions: default_dimensions(),
                box_type,
                styled: styled_node@,
                children: Seq::<LayoutBoxV>::empty(),
            }),
    {
        let b = LayoutBox {
            box_type,
            styled_node,
            dimensions: Dimensions::default(),
            children: Vec::new(),
        };
        proof {
            assert(layout_box_views(Seq::<LayoutBox>::empty()) =~= Seq::<LayoutBoxV>::empty());
        }
        b
    }

    /// Lays the box out against its containing block and the parent's
    /// horizontal cursor.
    fn layout(self, b_box: &Dimensions, cursor_x: i64) -> (r: LayoutBox<'a>)
        requires
            box_widths_ok(self@),
        ensures
            r@ == layout_box_spec(self@, *b_box, cursor_x),
        decreases self, 0int,
    {
        let ghost s0 = self;
        match self.box_type {
            BoxType::Anonymous => self,
            BoxType::InlineBlock => {
                let LayoutBox { dimensions, box_type, styled_node, children } = self;
                let d1 = calculate_inline_width(styled_node, dimensions, b_box);
                let d2 = calculate_inline_position(styled_node, d1, b_box, cursor_x);
                proof {
                    assert(decreases_to!(s0 => s0.children));
                }
                let (children2, d3) = layout_children(children, d2);
                let d4 = calculate_height(styled_node, d3);
                LayoutBox { dimensions: d4, box_type, styled_node, children: children2 }
            },
            _ => {
                let LayoutBox { dimensions, box_type, styled_node, children } = self;
                let d1 = calculate_width(styled_node, dimensions, b_box);
                let d2 = calculate_position(styled_node, d1, b_box);
                proof {
                    assert(decreases_to!(s0 => s0.children));
                }
                let (children2, d3) = layout_children(children, d2);
                let d4 = calculate_height(styled_node, d3);
                LayoutBox { dimensions: d4, box_type, styled_node, children: children2 }
            },
        }
    }
}

/// Performs one step of child flow, mirroring the spec-level step.
#[verifier::rlimit(30)]
fn do_child_step<'a>(
    child: LayoutBox<'a>,
    d: Dimensions,
    cur: i64,
    maxh: i64,
    prev: BoxType,
) -> (r: (LayoutBox<'a>, Dimensions, i64, i64, BoxType))
    requires
        box_widths_ok(child@),
    ensures
        ({
            let st = child_step(child@, d, cur, maxh, prev);
            &&& r.0@ == st.0
            &&& r.1 == st.1
            &&& r.2 == st.2
            &&& r.3 == st.3
            &&& r.4 == st.4
        }),
    decreases child, 1int,
{
    let mut d = d;
    let mut cur = cur;
    let mut maxh = maxh;
    if matches!(prev, BoxType::InlineBlock) && matches!(child.box_type, BoxType::Block) {
        d.content.height = sat_add(d.content.height, maxh);
        cur = 0;
        maxh = 0;
    }
    if matches!(child.box_type, BoxType::InlineBlock) {
        let probe = calculate_inline_width(child.styled_node, child.dimensions, &d);
        let adv = probe.margin_box().width;
        if sat_add(cur, adv) > d.content.width {
            // Overrun: flush the line and lay the child on a new one.
            d.content.height = sat_add(d.content.height, maxh);
            let laid = child.layout(&d, 0);
            let mbox = laid.dimensions.margin_box();
            (laid, d, mbox.width, mbox.height, BoxType::InlineBlock)
        } else {
            let laid = child.layout(&d, cur);
            let mbox = laid.dimensions.margin_box();
            let new_max = if mbox.height > maxh {
                mbox.height
            } else {
                maxh
            };
            (laid, d, sat_add(cur, mbox.width), new_max, BoxType::InlineBlock)
        }
    } else if matches!(child.box_type, BoxType::Block) {
        let laid = child.layout(&d, cur);
        let mbox = laid.dimensions.margin_box();
        d.content.height = sat_add(d.content.height, mbox.height);
        (laid, d, cur, maxh, BoxType::Block)
    } else {
        let next_prev = child.box_type;
        let laid = child.layout(&d, cur);
        (laid, d, cur, maxh, next_prev)
    }
}

/// Lays out the children in flow and returns them with the parent's
/// geometry as the flow leaves it.
#[verifier::loop_isolation(false)]
fn layout_children<'a>(children: Vec<LayoutBox<'a>>, d: Dimensions) -> (r: (
    Vec<LayoutBox<'a>>,
    Dimensions,
))
    requires
        boxes_widths_ok(layout_box_views(children@), 0),
    ensures
        (layout_box_views(r.0@), r.1) == layout_children_at(
            layout_box_views(children@),
            0,
            Seq::empty(),
            d,
            0,
            0,
            BoxType::Block,
        ),
    decreases children, 2int,
{
    let ghost c0 = children;
    let ghost cs0 = children@;
    let ghost vs = layout_box_views(children@);
    let ghost d_in = d;
    let total_n = children.len();
    let mut rest = children;
    let mut out: Vec<LayoutBox<'a>> = Vec::new();
    let mut d = d;
    let mut cur: i64 = 0;
    let mut max_child_height: i64 = 0;
    let mut prev_box_type = BoxType::Block;
    let ghost n = cs0.len();
    let mut k: usize = 0;
    proof {
        lemma_layout_box_views_len(cs0);
        assert(layout_box_views(out@) =~= Seq::<LayoutBoxV>::empty());
        assert(cs0.subrange(0, n as int) =~= cs0);
    }
    while rest.len() > 0
        invariant
            n == cs0.len(),
            n == total_n,
            k as int + rest@.len() == n,
            k <= total_n,
            rest@ == cs0.subrange(k as int, n as int),
            boxes_widths_ok(vs, 0),
            vs == layout_box_views(cs0),
            vs.len() == n,
            c0@ == cs0,
            layout_children_at(vs, 0, Seq::empty(), d_in, 0, 0, BoxType::Block)
                == layout_children_at(
                vs,
                k as int,
                layout_box_views(out@),
                d,
                cur,
                max_child_height,
                prev_box_type,
            ),
        decreases rest@.len(),
    {
        let child = rest.remove(0);
        proof {
            assert(child == cs0[k as int]);
            assert(rest@ =~= cs0.subrange(k as int + 1, n as int));
            lemma_layout_box_views_index(cs0, k as int);
            lemma_boxes_widths_ok_index(vs, 0, k as int);
            assert(decreases_to!(c0 => c0@));
            assert(decreases_to!(c0@ => c0@[k as int]));
            assert(decreases_to!(c0 => child));
        }
        let ghost outv = layout_box_views(out@);
        let ghost d_old = d;
        let ghost cur_old = cur;
        let ghost max_old = max_child_height;
        let ghost prev_old = prev_box_type;
        let (laid, d2, cur2, max2, prev2) = do_child_step(child, d, cur, max_child_height, prev_box_type);
        d = d2;
        cur = cur2;
        max_child_height = max2;
        prev_box_type = prev2;
        let ghost out_seq = out@;
        out.push(laid);
        proof {
            lemma_layout_box_views_push(out_seq, laid);
            assert(out@ == out_seq.push(laid));
            assert(child@ == vs[k as int]);
            assert(layout_children_at(vs, k as int, outv, d_old, cur_old, max_old, prev_old)
                == layout_children_at(
                vs,
                k as int + 1,
                outv.push(laid@),
                d2,
                cur2,
                max2,
                prev2,
            ));
        }
        k = k + 1;
    }
    if matches!(prev_box_type, BoxType::InlineBlock) {
        d.content.height = sat_add(d.content.height, max_child_height);
    }
    (out, d)
}

/// Builds the layout tree for a styled node: one box per node, with
/// `display: none` subtrees skipped entirely.
pub fn build_layout_tree<'a>(node: &'a StyledNode<'a>) -> (b: LayoutBox<'a>)
    ensures
        b@ == build_box(node@),
    decreases *node,
{
    let box_type = match node.get_display() {
        Display::Block => BoxType::Block,
        Display::Inline => BoxType::Inline,
        Display::InlineBlock => BoxType::InlineBlock,
        Display::DisplayNone => BoxType::Anonymous,
    };
    let ghost svs = crate::style::styled_node_views(node.children@);
    let mut children: Vec<LayoutBox<'a>> = Vec::new();
    let n = node.children.len();
    let mut i: usize = 0;
    proof {
        crate::style::lemma_styled_node_views_len(node.children@);
        assert(layout_box_views(children@) =~= Seq::<LayoutBoxV>::empty());
    }
    while i < n
        invariant
            n == node.children@.len(),
            i <= n,
            svs == crate::style::styled_node_views(node.children@),
            svs.len() == n,
            build_children(svs, 0, Seq::empty()) == build_children(
                svs,
                i as int,
                layout_box_views(children@),
            ),
        decreases n - i,
    {
        proof {
            crate::style::lemma_styled_node_views_index(node.children@, i as int);
        }
        let child = &node.children[i];
        let ghost accv = layout_box_views(children@);
        match child.get_display() {
            Display::DisplayNone => {},
            _ => {
                let cb = build_layout_tree(child);
                let ghost kids_seq = children@;
                children.push(cb);
                proof {
                    lemma_layout_box_views_push(kids_seq, cb);
                    assert(children@ == kids_seq.push(cb));
                }
            },
        }
        proof {
            assert(child@ == svs[i as int]);
            assert(build_children(svs, i as int, accv) == build_children(
                svs,
                i as int + 1,
                layout_box_views(children@),
            ));
        }
        i += 1;
    }
    let b = LayoutBox { dimensions: Dimensions::default(), box_type, styled_node: node, children };
    b
}

/// What laying out a whole document yields: the style tree's box tree,
/// laid against the viewport with its accumulated height reset.
pub open spec fn layout_tree_spec(s: StyledNodeV, containing_block: Dimensions) -> LayoutBoxV {
    let cb = Dimensions {
        content: Rectangle { height: 0, ..containing_block.content },
        ..containing_block
    };
    layout_box_spec(build_box(s), cb, 0)
}

/// Lays out a whole style tree against a viewport.
pub fn layout_tree<'a>(root: &'a StyledNode<'a>, containing_block: Dimensions) -> (b: LayoutBox<
    'a,
>)
    requires
        styled_widths_ok(root@),
    ensures
        b@ == layout_tree_spec(root@, containing_block),
{
    let mut containing_block = containing_block;
    containing_block.content.height = 0;
    let root_box = build_layout_tree(root);
    proof {
        lemma_build_widths_ok(root@);
    }
    root_box.layout(&containing_block, 0)
}

proof fn lemma_styled_children_widths_ok_from(cs: Seq<StyledNodeV>, i: int)
    requires
        0 <= i <= cs.len(),
        forall|k: int| i <= k < cs.len() ==> styled_widths_ok(#[trigger] cs[k]),
    ensures
        styled_children_widths_ok(cs, i),
    decreases cs.len() - i,
{
    if i < cs.len() {
        lemma_styled_children_widths_ok_from(cs, i + 1);
    }
}

proof fn lemma_styled_children_widths_ok_index(cs: Seq<StyledNodeV>, i: int, k: int)
    requires
        0 <= i <= k < cs.len(),
        styled_children_widths_ok(cs, i),
    ensures
        styled_widths_ok(cs[k]),
    decreases k - i,
{
    if i < k {
        lemma_styled_children_widths_ok_index(cs, i + 1, k);
    }
}

/// Whether every `width` property in the styled subtree carries a pixel or
/// percent unit when it is a length: the condition under which layout is
/// defined. On any other unit the pipeline gives up rather than guess.
pub fn widths_ok(root: &StyledNode) -> (r: bool)
    ensures
        r == styled_widths_ok(root@),
    decreases *root,
{
    let own = match root.value("width") {
        Some(v) => match v {
            Value::Length(_, u) => matches!(u, Unit::Px) || matches!(u, Unit::Pct),
            _ => true,
        },
        None => true,
    };
    if !own {
        return false;
    }
    let ghost svs = crate::style::styled_node_views(root.children@);
    let n = root.children.len();
    let mut i: usize = 0;
    proof {
        crate::style::lemma_styled_node_views_len(root.children@);
    }
    while i < n
        invariant
            n == root.children@.len(),
            svs == crate::style::styled_node_views(root.children@),
            svs.len() == n,
            i <= n,
            forall|k: int| 0 <= k < i ==> styled_widths_ok(#[trigger] svs[k]),
        decreases n - i,
    {
        proof {
            crate::style::lemma_styled_node_views_index(root.children@, i as int);
        }
        if !widths_ok(&root.children[i]) {
            proof {
                if styled_children_widths_ok(svs, 0) {
                    lemma_styled_children_widths_ok_index(svs, 0, i as int);
                }
            }
            return false;
        }
        i += 1;
    }
    proof {
        lemma_styled_children_widths_ok_from(svs, 0);
    }
    true
}

/// Lays out a whole style tree, or reports that some `width` property
/// carries a unit the layout engine does not implement.
pub fn try_layout_tree<'a>(root: &'a StyledNode<'a>, containing_block: Dimensions) -> (r: Option<
    LayoutBox<'a>,
>)
    ensures
        match r {
            Some(b) => styled_widths_ok(root@) && b@ == layout_tree_spec(root@, containing_block),
            None => !styled_widths_ok(root@),
        },
{
    if widths_ok(root) {
        Some(layout_tree(root, containing_block))
    } else {
        None
    }
}

pub proof fn lemma_boxes_widths_ok_push_from(cs: Seq<LayoutBoxV>, b: LayoutBoxV, i: int)
    requires
        0 <= i <= cs.len(),
        boxes_widths_ok(cs, i),
        box_widths_ok(b),
    ensures
        boxes_widths_ok(cs.push(b), i),
    decreases cs.len() - i,
{
    if i < cs.len() {
        assert(cs.push(b)[i] == cs[i]);
        lemma_boxes_widths_ok_push_from(cs, b, i + 1);
    } else {
        assert(cs.push(b)[i] == b);
        assert(boxes_widths_ok(cs.push(b), i + 1));
    }
}

} // verus!
