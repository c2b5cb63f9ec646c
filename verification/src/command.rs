//! The display list: a pre-order walk of the layout tree that emits one
//! solid rectangle for each box's background, and four for its border
//! strips, then recurses into the children.

use vstd::prelude::*;

use crate::css::{Color, ValueV};
use crate::layout::{border_box_spec, LayoutBox, LayoutBoxV, Rectangle};
use crate::style::style_lookup;

verus! {

broadcast use vstd::std_specs::vec::group_vec_axioms;

/// One primitive paint operation.
#[derive(Clone, Copy, PartialEq, Eq, Structural, Debug)]
pub enum DisplayCommand {
    SolidRectangle(Color, Rectangle),
}

pub type DisplayList = Vec<DisplayCommand>;

/// The color a box's property resolves to, if it is a color value.
pub open spec fn color_prop(b: LayoutBoxV, name: Seq<char>) -> Option<Color> {
    match style_lookup(b.styled.styles, name) {
        Some(v) => match v {
            ValueV::Color(c) => Some(c),
            _ => None,
        },
        None => None,
    }
}

/// The commands a box's background contributes: one rectangle over its
/// border box, when `background-color` resolves to a color.
pub open spec fn background_commands(b: LayoutBoxV) -> Seq<DisplayCommand> {
    match color_prop(b, "background-color"@) {
        Some(color) => seq![DisplayCommand::SolidRectangle(color, border_box_spec(b.dimensions))],
        None => Seq::empty(),
    }
}

/// The commands a box's border contributes: left, right, top and bottom
/// strips over the border box, in that order, when `border-color`
/// resolves to a color.
pub open spec fn border_commands(b: LayoutBoxV) -> Seq<DisplayCommand> {
    match color_prop(b, "border-color"@) {
        Some(color) => {
            let bb = border_box_spec(b.dimensions);
            let d = b.dimensions;
            seq![
                DisplayCommand::SolidRectangle(
                    color,
                    Rectangle { x: bb.x, y: bb.y, width: d.border.left, height: bb.height },
                ),
                DisplayCommand::SolidRectangle(
                    color,
                    Rectangle {
                        x: crate::num::ssub(crate::num::sadd(bb.x, bb.width), d.border.right),
                        y: bb.y,
                        width: d.border.right,
                        height: bb.height,
                    },
                ),
                DisplayCommand::SolidRectangle(
                    color,
                    Rectangle { x: bb.x, y: bb.y, width: bb.width, height: d.border.top },
                ),
                DisplayCommand::SolidRectangle(
                    color,
                    Rectangle {
                        x: bb.x,
                        y: crate::num::ssub(crate::num::sadd(bb.y, bb.height), d.border.bottom),
                        width: bb.width,
                        height: d.border.bottom,
                    },
                ),
            ]
        },
        None => Seq::empty(),
    }
}

/// The commands a whole box subtree contributes, in paint order: its own
/// background, its border strips, then each child in order.
pub open spec fn box_commands(b: LayoutBoxV) -> Seq<DisplayCommand>
    decreases b, 0int,
{
    background_commands(b) + border_commands(b) + children_commands(b.children, 0)
}

pub open spec fn children_commands(cs: Seq<LayoutBoxV>, i: int) -> Seq<DisplayCommand>
    decreases cs, cs.len() - i,
{
    if !(0 <= i < cs.len()) {
        Seq::empty()
    } else {
        box_commands(cs[i]) + children_commands(cs, i + 1)
    }
}

/// The color a property of the box resolves to, if any.
fn get_color(layout_box: &LayoutBox, name: &str) -> (r: Option<Color>)
    ensures
        r == color_prop(layout_box@, name@),
{
    match layout_box.styled_node.value(name) {
        Some(v) => match v {
            crate::css::Value::Color(c) => Some(*c),
            _ => None,
        },
        None => None,
    }
}

/// Pushes the box's background command, if any.
fn render_background(commands: &mut Vec<DisplayCommand>, layout_box: &LayoutBox)
    ensures
        final(commands)@ == old(commands)@ + background_commands(layout_box@),
{
    let ghost c0 = commands@;
    match get_color(layout_box, "background-color") {
        Some(color) => {
            commands.push(
                DisplayCommand::SolidRectangle(color, layout_box.dimensions.border_box()),
            );
            proof {
                assert(commands@ =~= c0 + background_commands(layout_box@));
            }
        },
        None => {
            proof {
                assert(commands@ =~= c0 + background_commands(layout_box@));
            }
        },
    }
}

/// Pushes the box's four border strips, if it has a border color.
fn render_borders(commands: &mut Vec<DisplayCommand>, layout_box: &LayoutBox)
    ensures
        final(commands)@ == old(commands)@ + border_commands(layout_box@),
{
    let ghost c0 = commands@;
    let color = match get_color(layout_box, "border-color") {
        Some(color) => color,
        None => {
            proof {
                assert(commands@ =~= c0 + border_commands(layout_box@));
            }
            return ;
        },
    };
    let d = &layout_box.dimensions;
    let border_box = d.border_box();
    commands.push(
        DisplayCommand::SolidRectangle(
            color,
            Rectangle { x: border_box.x, y: border_box.y, width: d.border.left, height: border_box.height },
        ),
    );
    commands.push(
        DisplayCommand::SolidRectangle(
            color,
            Rectangle {
                x: crate::num::sat_sub(crate::num::sat_add(border_box.x, border_box.width), d.border.right),
                y: border_box.y,
                width: d.border.right,
                height: border_box.height,
            },
        ),
    );
    commands.push(
        DisplayCommand::SolidRectangle(
            color,
            Rectangle { x: border_box.x, y: border_box.y, width: border_box.width, height: d.border.top },
        ),
    );
    commands.push(
        DisplayCommand::SolidRectangle(
            color,
            Rectangle {
                x: border_box.x,
                y: crate::num::sat_sub(crate::num::sat_add(border_box.y, border_box.height), d.border.bottom),
                width: border_box.width,
                height: d.border.bottom,
            },
        ),
    );
    proof {
        assert(commands@ =~= c0 + border_commands(layout_box@));
    }
}

/// Pushes the commands of the box and, recursively, of its children.
fn render_layout_box(commands: &mut Vec<DisplayCommand>, layout_box: &LayoutBox)
    ensures
        final(commands)@ == old(commands)@ + box_commands(layout_box@),
    decreases *layout_box,
{
    render_background(commands, layout_box);
    render_borders(commands, layout_box);
    let ghost vs = crate::layout::layout_box_views(layout_box.children@);
    let n = layout_box.children.len();
    let mut i: usize = 0;
    proof {
        crate::layout::lemma_layout_box_views_len(layout_box.children@);
        assert(commands@ =~= old(commands)@ + (background_commands(layout_box@) + border_commands(
            layout_box@,
        )));
    }
    while i < n
        invariant
            n == layout_box.children@.len(),
            i <= n,
            vs == crate::layout::layout_box_views(layout_box.children@),
            vs.len() == n,
            commands@ == old(commands)@ + (background_commands(layout_box@) + border_commands(
                layout_box@,
            )) + concat_children(vs, 0, i as int),
        decreases n - i,
    {
        proof {
            crate::layout::lemma_layout_box_views_index(layout_box.children@, i as int);
        }
        render_layout_box(commands, &layout_box.children[i]);
        i += 1;
        proof {
            lemma_concat_children_snoc(vs, 0, i as int);
            assert(commands@ =~= old(commands)@ + (background_commands(layout_box@)
                + border_commands(layout_box@)) + concat_children(vs, 0, i as int));
        }
    }
    proof {
        lemma_concat_children_all(vs);
        assert(commands@ =~= old(commands)@ + box_commands(layout_box@));
    }
}

/// The commands of children `[i, j)`, concatenated in order.
pub open spec fn concat_children(cs: Seq<LayoutBoxV>, i: int, j: int) -> Seq<DisplayCommand>
    decreases j - i,
{
    if j <= i {
        Seq::empty()
    } else {
        concat_children(cs, i, j - 1) + box_commands(cs[j - 1])
    }
}

proof fn lemma_concat_children_snoc(cs: Seq<LayoutBoxV>, i: int, j: int)
    requires
        i < j,
    ensures
        concat_children(cs, i, j) == concat_children(cs, i, j - 1) + box_commands(cs[j - 1]),
{
}

/// A prefix-concatenation of all the children equals the suffix-recursive
/// form used by `box_commands`.
proof fn lemma_concat_children_all(cs: Seq<LayoutBoxV>)
    ensures
        concat_children(cs, 0, cs.len() as int) == children_commands(cs, 0),
{
    lemma_concat_eq(cs, 0);
}

proof fn lemma_concat_eq(cs: Seq<LayoutBoxV>, i: int)
    requires
        0 <= i <= cs.len(),
    ensures
        concat_children(cs, i, cs.len() as int) == children_commands(cs, i),
    decreases cs.len() - i,
{
    if i < cs.len() {
        lemma_concat_eq(cs, i + 1);
        lemma_concat_prepend(cs, i, cs.len() as int);
        assert(children_commands(cs, i) =~= box_commands(cs[i]) + children_commands(cs, i + 1));
        assert(concat_children(cs, i, cs.len() as int) =~= box_commands(cs[i]) + concat_children(
            cs,
            i + 1,
            cs.len() as int,
        ));
    } else {
        assert(concat_children(cs, i, cs.len() as int) =~= Seq::<DisplayCommand>::empty());
        assert(children_commands(cs, i) =~= Seq::<DisplayCommand>::empty());
    }
}

proof fn lemma_concat_prepend(cs: Seq<LayoutBoxV>, i: int, j: int)
    requires
        0 <= i < j <= cs.len(),
    ensures
        concat_children(cs, i, j) == box_commands(cs[i]) + concat_children(cs, i + 1, j),
    decreases j - i,
{
    if i + 1 < j {
        lemma_concat_prepend(cs, i, j - 1);
        assert(concat_children(cs, i, j) =~= box_commands(cs[i]) + concat_children(cs, i + 1, j));
    } else {
        assert(concat_children(cs, i, i) =~= Seq::<DisplayCommand>::empty());
        assert(concat_children(cs, i + 1, j) =~= Seq::<DisplayCommand>::empty());
        assert(concat_children(cs, i, j) =~= box_commands(cs[i]) + concat_children(cs, i + 1, j));
    }
}

/// Walks the layout tree and builds the display list, in paint order.
pub fn build_display_commands(root: &LayoutBox) -> (commands: DisplayList)
    ensures
        commands@ == box_commands(root@),
{
    let mut commands: Vec<DisplayCommand> = Vec::new();
    render_layout_box(&mut commands, root);
    proof {
        assert(commands@ =~= box_commands(root@));
    }
    commands
}

} // verus!
