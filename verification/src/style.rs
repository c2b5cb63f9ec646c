//! The style tree: one styled node per document element, carrying the
//! properties the stylesheet's rules assign to it.
//!
//! Rules are scanned in sheet order; once any selector of a rule matches,
//! all its declarations are copied in and the rest of that rule's selectors
//! are not consulted. Later rules overwrite earlier ones, property by
//! property.

use vstd::prelude::*;

use crate::css::{Selector, SelectorV, SimpleSelectorV, Stylesheet, RuleV, Value, ValueV};
use crate::dom::{attr_lookup, spec_classes, ElementData, ElementDataV, Node, NodeV, NodeType, NodeTypeV};

verus! {

broadcast use vstd::std_specs::vec::group_vec_axioms;

// ---------------------------------------------------------------------------
// Selector matching
// ---------------------------------------------------------------------------
/// Whether one compound part matches an element: its tag name, when
/// present, equals the element's; its id, when present, equals the
/// element's `id` attribute; and every one of its class names appears in
/// the element's whitespace-split `class` attribute.
pub open spec fn simple_matches(e: ElementDataV, sel: SimpleSelectorV) -> bool {
    &&& (match sel.tag_name {
        Some(t) => t == e.tag_name,
        None => true,
    })
    &&& (match sel.id {
        Some(id) => attr_lookup(e.attributes, "id"@) == Some(id),
        None => true,
    })
    &&& (forall|k: int|
        0 <= k < sel.classes.len() ==> spec_classes(e).contains(#[trigger] sel.classes[k]))
}

/// Whether a selector matches an element: some compound part of it does.
pub open spec fn selector_matches_spec(e: ElementDataV, sel: SelectorV) -> bool {
    exists|k: int| 0 <= k < sel.simple.len() && simple_matches(e, #[trigger] sel.simple[k])
}

/// Whether some element class equals the given name.
fn classes_contain(classes: &Vec<String>, name: &String) -> (r: bool)
    ensures
        r == classes.deep_view().contains(name@),
{
    let mut i: usize = 0;
    while i < classes.len()
        invariant
            i <= classes@.len(),
            forall|k: int| 0 <= k < i ==> classes.deep_view()[k] != name@,
        decreases classes@.len() - i,
    {
        if crate::util::str_eq(classes[i].as_str(), name.as_str()) {
            assert(classes.deep_view()[i as int] == name@);
            return true;
        }
        i += 1;
    }
    false
}

/// Whether the selector matches the element.
pub fn selector_matches(element: &ElementData, selector: &Selector) -> (r: bool)
    ensures
        r == selector_matches_spec(element@, selector@),
{
    let element_classes = element.get_classes();
    let mut i: usize = 0;
    while i < selector.simple.len()
        invariant
            i <= selector.simple@.len(),
            forall|k: int| 0 <= k < i ==> !simple_matches(element@, selector@.simple[k]),
            element_classes.deep_view() == spec_classes(element@),
        decreases selector.simple@.len() - i,
    {
        let simple = &selector.simple[i];
        let tag_ok = match &simple.tag_name {
            Some(t) => crate::util::str_eq(t.as_str(), element.tag_name.as_str()),
            None => true,
        };
        let id_ok = match (&simple.id, element.get_id()) {
            (Some(id), Some(i2)) => crate::util::str_eq(id.as_str(), i2.as_str()),
            (Some(_), None) => false,
            _ => true,
        };
        let classes_ok = all_classes_present(&element_classes, &simple.classes);
        if tag_ok && id_ok && classes_ok {
            proof {
                assert(simple_matches(element@, selector@.simple[i as int]));
            }
            return true;
        }
        proof {
            let sv = selector@.simple[i as int];
            if tag_ok && id_ok {
                let k = choose|k: int|
                    0 <= k < simple.classes@.len() && !element_classes.deep_view().contains(
                        simple.classes@[k]@,
                    );
                assert(sv.classes[k] == simple.classes@[k]@);
                assert(!simple_matches(element@, sv));
            } else {
                assert(!simple_matches(element@, sv));
            }
        }
        i += 1;
    }
    false
}

/// Whether every wanted class name appears among the element's classes.
fn all_classes_present(element_classes: &Vec<String>, wanted: &Vec<String>) -> (r: bool)
    ensures
        r == (forall|k: int|
            0 <= k < wanted@.len() ==> element_classes.deep_view().contains(
                #[trigger] wanted@[k]@,
            )),
{
    let mut c: usize = 0;
    while c < wanted.len()
        invariant
            c <= wanted@.len(),
            forall|k: int|
                0 <= k < c ==> element_classes.deep_view().contains(#[trigger] wanted@[k]@),
        decreases wanted@.len() - c,
    {
        if !classes_contain(element_classes, &wanted[c]) {
            return false;
        }
        c += 1;
    }
    true
}

/// Whether any selector of the rule matches the element.
pub open spec fn rule_matches(e: ElementDataV, r: RuleV) -> bool {
    exists|k: int| 0 <= k < r.selectors.len() && selector_matches_spec(e, #[trigger] r.selectors[k])
}

fn any_selector_matches(element: &ElementData, rule_selectors: &Vec<Selector>) -> (r: bool)
    ensures
        r == (exists|k: int|
            0 <= k < rule_selectors@.len() && selector_matches_spec(
                element@,
                #[trigger] rule_selectors@[k]@,
            )),
{
    let mut i: usize = 0;
    while i < rule_selectors.len()
        invariant
            i <= rule_selectors@.len(),
            forall|k: int|
                0 <= k < i ==> !selector_matches_spec(element@, #[trigger] rule_selectors@[k]@),
        decreases rule_selectors@.len() - i,
    {
        if selector_matches(element, &rule_selectors[i]) {
            return true;
        }
        i += 1;
    }
    false
}

// ---------------------------------------------------------------------------
// Property maps
// ---------------------------------------------------------------------------
/// The view of a borrowed property map: property names and values, in the
/// order they were copied in, later pairs winning.
pub open spec fn styles_view(v: Seq<(&String, &Value)>) -> Seq<(Seq<char>, ValueV)> {
    Seq::new(v.len(), |i: int| (v[i].0@, v[i].1@))
}

/// The value a property map gives to a name: the last pair with that name.
pub open spec fn style_lookup(styles: Seq<(Seq<char>, ValueV)>, name: Seq<char>) -> Option<ValueV>
    decreases styles.len(),
{
    if styles.len() == 0 {
        None
    } else if styles.last().0 == name {
        Some(styles.last().1)
    } else {
        style_lookup(styles.drop_last(), name)
    }
}

/// A rule's declarations copied into a property map, in order.
pub open spec fn apply_decls(
    styles: Seq<(Seq<char>, ValueV)>,
    decls: Seq<crate::css::DeclarationV>,
) -> Seq<(Seq<char>, ValueV)>
    decreases decls.len(),
{
    if decls.len() == 0 {
        styles
    } else {
        apply_decls(styles, decls.drop_last()).push(
            (decls.last().property, decls.last().value),
        )
    }
}

/// The value a rule's declaration list gives to a property: the last
/// declaration of that property, if any.
pub open spec fn decl_lookup(decls: Seq<crate::css::DeclarationV>, name: Seq<char>) -> Option<
    ValueV,
>
    decreases decls.len(),
{
    if decls.len() == 0 {
        None
    } else if decls.last().property == name {
        Some(decls.last().value)
    } else {
        decl_lookup(decls.drop_last(), name)
    }
}

/// Copying a rule's declarations in changes exactly the properties the
/// rule declares, each to its last declared value.
pub proof fn lemma_apply_decls_lookup(
    styles: Seq<(Seq<char>, ValueV)>,
    decls: Seq<crate::css::DeclarationV>,
    name: Seq<char>,
)
    ensures
        style_lookup(apply_decls(styles, decls), name) == (match decl_lookup(decls, name) {
            Some(v) => Some(v),
            None => style_lookup(styles, name),
        }),
    decreases decls.len(),
{
    if decls.len() > 0 {
        lemma_apply_decls_lookup(styles, decls.drop_last(), name);
        assert(apply_decls(styles, decls).last() == (decls.last().property, decls.last().value));
        assert(apply_decls(styles, decls).drop_last() =~= apply_decls(styles, decls.drop_last()));
    }
}

/// The property map the stylesheet's rules assign to an element, scanning
/// the rules in sheet order.
pub open spec fn styles_of(e: ElementDataV, rules: Seq<RuleV>) -> Seq<(Seq<char>, ValueV)>
    decreases rules.len(),
{
    if rules.len() == 0 {
        Seq::empty()
    } else {
        let prev = styles_of(e, rules.drop_last());
        if rule_matches(e, rules.last()) {
            apply_decls(prev, rules.last().declarations)
        } else {
            prev
        }
    }
}

/// Law of rule-order precedence: when two rules of the sheet both match an
/// element and both declare a property, the resolved property map holds
/// the later rule's value for it — that is, the value of the last matching
/// rule that declares the property, regardless of the selectors involved.
pub proof fn lemma_rule_order_precedence(
    e: ElementDataV,
    rules: Seq<RuleV>,
    i: int,
    j: int,
    name: Seq<char>,
)
    requires
        0 <= i < j < rules.len(),
        rule_matches(e, rules[i]),
        rule_matches(e, rules[j]),
        decl_lookup(rules[i].declarations, name) is Some,
        decl_lookup(rules[j].declarations, name) is Some,
        forall|k: int|
            j < k < rules.len() && rule_matches(e, #[trigger] rules[k]) ==> decl_lookup(
                rules[k].declarations,
                name,
            ) is None,
    ensures
        style_lookup(styles_of(e, rules), name) == decl_lookup(rules[j].declarations, name),
    decreases rules.len(),
{
    let last = rules.len() - 1;
    if j == last {
        lemma_apply_decls_lookup(styles_of(e, rules.drop_last()), rules[j].declarations, name);
        assert(rules.last() == rules[j]);
    } else {
        assert(rules.drop_last()[i] == rules[i]);
        assert(rules.drop_last()[j] == rules[j]);
        assert(forall|k: int|
            j < k < rules.drop_last().len() && rule_matches(
                e,
                #[trigger] rules.drop_last()[k],
            ) ==> decl_lookup(rules.drop_last()[k].declarations, name) is None) by {
            assert(forall|k: int|
                0 <= k < rules.drop_last().len() ==> #[trigger] rules.drop_last()[k] == rules[k]);
        }
        lemma_rule_order_precedence(e, rules.drop_last(), i, j, name);
        if rule_matches(e, rules.last()) {
            lemma_apply_decls_lookup(
                styles_of(e, rules.drop_last()),
                rules.last().declarations,
                name,
            );
            assert(decl_lookup(rules[last].declarations, name) is None);
        }
    }
}

// ---------------------------------------------------------------------------
// The style tree
// ---------------------------------------------------------------------------
/// How an element is displayed, read from its `display` property.
#[derive(Clone, Copy, PartialEq, Eq, Structural, Debug)]
pub enum Display {
    Block,
    Inline,
    InlineBlock,
    DisplayNone,
}

/// The display a property map resolves to: `block`, `none` and
/// `inline-block` keywords are recognized; everything else, including an
/// absent property, displays inline.
pub open spec fn display_of(styles: Seq<(Seq<char>, ValueV)>) -> Display {
    match style_lookup(styles, "display"@) {
        Some(v) => match v {
            ValueV::Other(t) => if t == "block"@ {
                Display::Block
            } else if t == "none"@ {
                Display::DisplayNone
            } else if t == "inline-block"@ {
                Display::InlineBlock
            } else {
                Display::Inline
            },
            _ => Display::Inline,
        },
        None => Display::Inline,
    }
}

/// A node of the style tree: the document node it styles, its resolved
/// property map, and its styled element children.
pub struct StyledNode<'a> {
    pub node: &'a Node,
    pub styles: Vec<(&'a String, &'a Value)>,
    pub children: Vec<StyledNode<'a>>,
}

pub struct StyledNodeV {
    pub node: NodeV,
    pub styles: Seq<(Seq<char>, ValueV)>,
    pub children: Seq<StyledNodeV>,
}

pub open spec fn styled_node_view(sn: StyledNode) -> StyledNodeV
    decreases sn,
{
    StyledNodeV {
        node: sn.node@,
        styles: styles_view(sn.styles@),
        children: styled_node_views(sn.children@),
    }
}

pub open spec fn styled_node_views(s: Seq<StyledNode>) -> Seq<StyledNodeV>
    decreases s,
{
    if s.len() == 0 {
        Seq::empty()
    } else {
        styled_node_views(s.drop_last()).push(styled_node_view(s.last()))
    }
}

impl<'a> View for StyledNode<'a> {
    type V = StyledNodeV;

    open spec fn view(&self) -> StyledNodeV {
        styled_node_view(*self)
    }
}

pub proof fn lemma_styled_node_views_push(s: Seq<StyledNode>, x: StyledNode)
    ensures
        styled_node_views(s.push(x)) == styled_node_views(s).push(styled_node_view(x)),
{
    assert(s.push(x).drop_last() =~= s);
    assert(s.push(x).last() == x);
}

pub proof fn lemma_styled_node_views_len(s: Seq<StyledNode>)
    ensures
        styled_node_views(s).len() == s.len(),
    decreases s,
{
    if s.len() > 0 {
        lemma_styled_node_views_len(s.drop_last());
    }
}

pub proof fn lemma_styled_node_views_index(s: Seq<StyledNode>, i: int)
    requires
        0 <= i < s.len(),
    ensures
        styled_node_views(s).len() == s.len(),
        styled_node_views(s)[i] == styled_node_view(s[i]),
    decreases s,
{
    lemma_styled_node_views_len(s);
    if i < s.len() - 1 {
        lemma_styled_node_views_index(s.drop_last(), i);
    } else {
        assert(s.last() == s[i]);
    }
}

/// What styling one node yields: its property map when it is an element,
/// and its styled element children.
pub open spec fn styled_of(n: NodeV, rules: Seq<RuleV>) -> StyledNodeV
    decreases n,
{
    StyledNodeV {
        node: n,
        styles: match n.node_type {
            NodeTypeV::Element(e) => styles_of(e, rules),
            _ => Seq::empty(),
        },
        children: styled_children(n.children, rules),
    }
}

/// The styled element children of a node: text and comment children are
/// pruned and contribute no style node.
pub open spec fn styled_children(cs: Seq<NodeV>, rules: Seq<RuleV>) -> Seq<StyledNodeV>
    decreases cs,
{
    if cs.len() == 0 {
        Seq::empty()
    } else {
        let prev = styled_children(cs.drop_last(), rules);
        if cs.last().node_type is Element {
            prev.push(styled_of(cs.last(), rules))
        } else {
            prev
        }
    }
}

impl<'a> StyledNode<'a> {
    /// Builds the style tree for a node against a stylesheet.
    pub fn new(node: &'a Node, stylesheet: &'a Stylesheet) -> (sn: StyledNode<'a>)
        ensures
            sn@ == styled_of(node@, stylesheet@),
        decreases *node,
    {
        let mut style_children: Vec<StyledNode<'a>> = Vec::new();
        let n = node.children.len();
        let mut i: usize = 0;
        proof {
            crate::dom::lemma_node_views_len(node.children@);
            assert(styled_node_views(style_children@) =~= Seq::<StyledNodeV>::empty());
            assert(crate::dom::node_views(node.children@).subrange(0, 0) =~= Seq::<NodeV>::empty());
        }
        while i < n
            invariant
                n == node.children@.len(),
                i <= n,
                crate::dom::node_views(node.children@).len() == n,
                styled_node_views(style_children@) == styled_children(
                    crate::dom::node_views(node.children@).subrange(0, i as int),
                    stylesheet@,
                ),
            decreases n - i,
        {
            let ghost views = crate::dom::node_views(node.children@);
            proof {
                crate::dom::lemma_node_views_index(node.children@, i as int);
                assert(views.subrange(0, i as int + 1).drop_last() =~= views.subrange(
                    0,
                    i as int,
                ));
                assert(views.subrange(0, i as int + 1).last() == views[i as int]);
            }
            let child = &node.children[i];
            match &child.node_type {
                NodeType::Element(_) => {
                    let ghost acc = style_children@;
                    let styled = StyledNode::new(child, stylesheet);
                    style_children.push(styled);
                    proof {
                        lemma_styled_node_views_push(acc, styled);
                    }
                },
                _ => {},
            }
            i += 1;
        }
        proof {
            assert(crate::dom::node_views(node.children@).subrange(0, n as int) =~= crate::dom::node_views(
                node.children@,
            ));
        }
        let styles: Vec<(&'a String, &'a Value)> = match &node.node_type {
            NodeType::Element(e) => StyledNode::get_styles(e, stylesheet),
            _ => {
                let v: Vec<(&'a String, &'a Value)> = Vec::new();
                proof {
                    assert(styles_view(v@) =~= Seq::<(Seq<char>, ValueV)>::empty());
                }
                v
            },
        };
        StyledNode { node, styles, children: style_children }
    }

    /// The property map the stylesheet assigns to an element.
    fn get_styles(element: &'a ElementData, stylesheet: &'a Stylesheet) -> (styles: Vec<
        (&'a String, &'a Value),
    >)
        ensures
            styles_view(styles@) == styles_of(element@, stylesheet@),
    {
        let mut styles: Vec<(&'a String, &'a Value)> = Vec::new();
        let n = stylesheet.rules.len();
        let mut i: usize = 0;
        proof {
            assert(styles_view(styles@) =~= Seq::<(Seq<char>, ValueV)>::empty());
            assert(stylesheet@.subrange(0, 0) =~= Seq::<RuleV>::empty());
        }
        while i < n
            invariant
                n == stylesheet.rules@.len(),
                i <= n,
                stylesheet@.len() == n,
                styles_view(styles@) == styles_of(element@, stylesheet@.subrange(0, i as int)),
            decreases n - i,
        {
            proof {
                assert(stylesheet@.subrange(0, i as int + 1).drop_last() =~= stylesheet@.subrange(
                    0,
                    i as int,
                ));
                assert(stylesheet@.subrange(0, i as int + 1).last() == stylesheet@[i as int]);
            }
            let rule = &stylesheet.rules[i];
            if any_selector_matches(element, &rule.selectors) {
                proof {
                    let k = choose|k: int|
                        0 <= k < rule.selectors@.len() && selector_matches_spec(
                            element@,
                            rule.selectors@[k]@,
                        );
                    assert(stylesheet@[i as int].selectors[k] == rule.selectors@[k]@);
                    assert(rule_matches(element@, stylesheet@[i as int]));
                }
                let m = rule.declarations.len();
                let mut d: usize = 0;
                let ghost before = styles_view(styles@);
                proof {
                    assert(stylesheet@[i as int].declarations.subrange(0, 0) =~= Seq::<
                        crate::css::DeclarationV,
                    >::empty());
                }
                while d < m
                    invariant
                        m == rule.declarations@.len(),
                        d <= m,
                        rule == &stylesheet.rules[i as int],
                        i < stylesheet.rules@.len(),
                        stylesheet@[i as int].declarations.len() == m,
                        stylesheet@[i as int].declarations == Seq::new(
                            rule.declarations@.len(),
                            |k: int| rule.declarations@[k]@,
                        ),
                        styles_view(styles@) == apply_decls(
                            before,
                            stylesheet@[i as int].declarations.subrange(0, d as int),
                        ),
                    decreases m - d,
                {
                    proof {
                        assert(stylesheet@[i as int].declarations.subrange(
                            0,
                            d as int + 1,
                        ).drop_last() =~= stylesheet@[i as int].declarations.subrange(0, d as int));
                        assert(stylesheet@[i as int].declarations.subrange(0, d as int + 1).last()
                            == stylesheet@[i as int].declarations[d as int]);
                    }
                    let decl = &rule.declarations[d];
                    let ghost sv = styles_view(styles@);
                    styles.push((&decl.property, &decl.value));
                    proof {
                        assert(styles_view(styles@) =~= sv.push((decl.property@, decl.value@)));
                    }
                    d += 1;
                }
                proof {
                    assert(stylesheet@[i as int].declarations.subrange(0, m as int) =~= stylesheet@[
                        i as int
                    ].declarations);
                }
            } else {
                proof {
                    assert forall|k: int| 0 <= k < stylesheet@[i as int].selectors.len()
                        implies !selector_matches_spec(
                        element@,
                        #[trigger] stylesheet@[i as int].selectors[k],
                    ) by {
                        assert(stylesheet@[i as int].selectors[k] == rule.selectors@[k]@);
                    }
                    assert(!rule_matches(element@, stylesheet@[i as int]));
                }
            }
            i += 1;
        }
        proof {
            assert(stylesheet@.subrange(0, n as int) =~= stylesheet@);
        }
        styles
    }

    /// The value the node's property map gives to a name, if any.
    pub fn value(&self, name: &str) -> (r: Option<&Value>)
        ensures
            match style_lookup(self@.styles, name@) {
                Some(v) => r matches Some(val) && val@ == v,
                None => r is None,
            },
    {
        let mut i: usize = self.styles.len();
        proof {
            assert(styles_view(self.styles@).subrange(0, i as int) =~= styles_view(self.styles@));
        }
        while i > 0
            invariant
                i <= self.styles@.len(),
                style_lookup(self@.styles, name@) == style_lookup(
                    styles_view(self.styles@).subrange(0, i as int),
                    name@,
                ),
            decreases i,
        {
            let pair = &self.styles[i - 1];
            if crate::util::str_eq(pair.0.as_str(), name) {
                proof {
                    assert(styles_view(self.styles@).subrange(0, i as int).last() == (
                        pair.0@,
                        pair.1@,
                    ));
                }
                return Some(pair.1);
            }
            proof {
                assert(styles_view(self.styles@).subrange(0, i as int).drop_last()
                    =~= styles_view(self.styles@).subrange(0, i as int - 1));
            }
            i -= 1;
        }
        proof {
            assert(styles_view(self.styles@).subrange(0, 0) =~= Seq::<(Seq<char>, ValueV)>::empty());
        }
        None
    }

    /// The node's display kind, from its `display` property.
    pub fn get_display(&self) -> (d: Display)
        ensures
            d == display_of(self@.styles),
    {
        match self.value("display") {
            Some(v) => match v {
                Value::Other(text) => {
                    if crate::util::string_eq_str(text, "block") {
                        Display::Block
                    } else if crate::util::string_eq_str(text, "none") {
                        Display::DisplayNone
                    } else if crate::util::string_eq_str(text, "inline-block") {
                        Display::InlineBlock
                    } else {
                        Display::Inline
                    }
                },
                _ => Display::Inline,
            },
            None => Display::Inline,
        }
    }

    /// The numeric magnitude of a length-valued property, or the default
    /// for anything else, the unit ignored.
    pub fn num_or(&self, name: &str, default: i64) -> (r: i64)
        ensures
            r as int == num_or_spec(self@.styles, name@, default as int),
    {
        match self.value(name) {
            Some(v) => match v {
                Value::Length(n, _) => *n,
                _ => default,
            },
            None => default,
        }
    }
}

/// The numeric magnitude a property map gives to a name: the magnitude of
/// a length value, whatever its unit, or the default.
pub open spec fn num_or_spec(
    styles: Seq<(Seq<char>, ValueV)>,
    name: Seq<char>,
    default: int,
) -> int {
    match style_lookup(styles, name) {
        Some(v) => match v {
            ValueV::Length(n, u) => n,
            _ => default,
        },
        None => default,
    }
}

} // verus!
