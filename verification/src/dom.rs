//! The document object model: a tree of element, text and comment nodes.
//!
//! Attributes are kept as an ordered association list; a lookup takes the
//! most recently inserted binding for a name, so inserting a name twice
//! behaves like overwriting it.

use vstd::prelude::*;

use crate::util::str_eq;

verus! {

broadcast use vstd::std_specs::vec::group_vec_axioms;

/// Association list of attribute names and values, later insertions winning.
#[derive(PartialEq, Eq, Debug)]
pub struct AttrMap {
    pub pairs: Vec<(String, String)>,
}

impl View for AttrMap {
    type V = Seq<(Seq<char>, Seq<char>)>;

    open spec fn view(&self) -> Seq<(Seq<char>, Seq<char>)> {
        Seq::new(self.pairs@.len(), |i: int| (self.pairs@[i].0@, self.pairs@[i].1@))
    }
}

/// The binding an attribute list gives to a name: the last pair with that
/// name, if any.
pub open spec fn attr_lookup(attrs: Seq<(Seq<char>, Seq<char>)>, name: Seq<char>) -> Option<
    Seq<char>,
>
    decreases attrs.len(),
{
    if attrs.len() == 0 {
        None
    } else if attrs.last().0 == name {
        Some(attrs.last().1)
    } else {
        attr_lookup(attrs.drop_last(), name)
    }
}

impl AttrMap {
    pub fn new() -> (m: AttrMap)
        ensures
            m@ =~= Seq::<(Seq<char>, Seq<char>)>::empty(),
    {
        AttrMap { pairs: Vec::new() }
    }

    pub fn insert(&mut self, name: String, value: String)
        ensures
            final(self)@ =~= old(self)@.push((name@, value@)),
    {
        self.pairs.push((name, value));
    }

    pub fn get(&self, name: &str) -> (r: Option<&String>)
        ensures
            match attr_lookup(self@, name@) {
                Some(v) => r matches Some(s) && s@ == v,
                None => r is None,
            },
    {
        let mut i: usize = self.pairs.len();
        proof {
            assert(self@.subrange(0, i as int) =~= self@);
        }
        while i > 0
            invariant
                i <= self.pairs.len(),
                attr_lookup(self@, name@) == attr_lookup(self@.subrange(0, i as int), name@),
            decreases i,
        {
            let pair = &self.pairs[i - 1];
            if str_eq(pair.0.as_str(), name) {
                proof {
                    assert(self@.subrange(0, i as int).last() == (pair.0@, pair.1@));
                }
                return Some(&pair.1);
            }
            proof {
                assert(self@.subrange(0, i as int).drop_last() =~= self@.subrange(
                    0,
                    i as int - 1,
                ));
            }
            i -= 1;
        }
        proof {
            assert(self@.subrange(0, 0) =~= Seq::<(Seq<char>, Seq<char>)>::empty());
        }
        None
    }
}

/// Element name and attributes.
#[derive(PartialEq, Eq, Debug)]
pub struct ElementData {
    pub tag_name: String,
    pub attributes: AttrMap,
}

pub struct ElementDataV {
    pub tag_name: Seq<char>,
    pub attributes: Seq<(Seq<char>, Seq<char>)>,
}

impl View for ElementData {
    type V = ElementDataV;

    open spec fn view(&self) -> ElementDataV {
        ElementDataV { tag_name: self.tag_name@, attributes: self.attributes@ }
    }
}

/// What the whitespace-split of a `class` attribute yields from position `i`
/// on, given the piece `cur` collected so far: pieces are separated by single
/// spaces, and empty pieces are kept.
pub open spec fn split_from(s: Seq<char>, i: int, cur: Seq<char>) -> Seq<Seq<char>>
    decreases s.len() - i,
{
    if i < 0 || i >= s.len() {
        seq![cur]
    } else if s[i] == ' ' {
        seq![cur] + split_from(s, i + 1, Seq::empty())
    } else {
        split_from(s, i + 1, cur.push(s[i]))
    }
}

/// The whitespace-split of an attribute value into class names.
pub open spec fn split_spaces(s: Seq<char>) -> Seq<Seq<char>> {
    split_from(s, 0, Seq::empty())
}

/// The class names an element carries: the whitespace-split of its `class`
/// attribute, or nothing when the attribute is absent.
pub open spec fn spec_classes(e: ElementDataV) -> Seq<Seq<char>> {
    match attr_lookup(e.attributes, "class"@) {
        Some(v) => split_spaces(v),
        None => Seq::empty(),
    }
}

impl ElementData {
    pub fn new(tag_name: String, attributes: AttrMap) -> (e: ElementData)
        ensures
            e@ == (ElementDataV { tag_name: tag_name@, attributes: attributes@ }),
    {
        ElementData { tag_name, attributes }
    }

    /// The value of the `id` attribute, if any.
    pub fn get_id(&self) -> (r: Option<&String>)
        ensures
            match attr_lookup(self@.attributes, "id"@) {
                Some(v) => r matches Some(s) && s@ == v,
                None => r is None,
            },
    {
        self.attributes.get("id")
    }

    /// The whitespace-split class list of the element.
    pub fn get_classes(&self) -> (r: Vec<String>)
        ensures
            r.deep_view() == spec_classes(self@),
    {
        let value = match self.attributes.get("class") {
            Some(s) => s,
            None => {
                let r: Vec<String> = Vec::new();
                proof {
                    assert(r.deep_view() =~= Seq::<Seq<char>>::empty());
                }
                return r;
            },
        };
        let chars = crate::util::read_chars(value.as_str());
        let n = chars.len();
        let mut parts: Vec<String> = Vec::new();
        let mut cur = String::new();
        let mut i: usize = 0;
        while i < n
            invariant
                n == chars@.len(),
                i <= n,
                split_spaces(value@) == parts.deep_view() + split_from(chars@, i as int, cur@),
            decreases n - i,
        {
            let c = chars[i];
            if c == ' ' {
                let ghost dv = parts.deep_view();
                parts.push(cur);
                proof {
                    assert(parts.deep_view() =~= dv.push(cur@));
                }
                cur = String::new();
            } else {
                cur.push(c);
            }
            i += 1;
            proof {
                assert(parts.deep_view() + split_from(chars@, i as int, cur@) =~= split_spaces(
                    value@,
                ));
            }
        }
        let ghost dv = parts.deep_view();
        parts.push(cur);
        proof {
            assert(parts.deep_view() =~= dv.push(cur@));
            assert(parts.deep_view() =~= spec_classes(self@));
        }
        parts
    }
}

/// The kinds of node the tree holds.
#[derive(PartialEq, Eq, Debug)]
pub enum NodeType {
    Text(String),
    Element(ElementData),
    Comment(String),
}

pub enum NodeTypeV {
    Text(Seq<char>),
    Element(ElementDataV),
    Comment(Seq<char>),
}

impl View for NodeType {
    type V = NodeTypeV;

    open spec fn view(&self) -> NodeTypeV {
        match self {
            NodeType::Text(s) => NodeTypeV::Text(s@),
            NodeType::Element(e) => NodeTypeV::Element(e@),
            NodeType::Comment(s) => NodeTypeV::Comment(s@),
        }
    }
}

/// A node of the document tree.
#[derive(PartialEq, Eq, Debug)]
pub struct Node {
    pub children: Vec<Node>,
    pub node_type: NodeType,
}

pub struct NodeV {
    pub children: Seq<NodeV>,
    pub node_type: NodeTypeV,
}

pub open spec fn node_view(n: Node) -> NodeV
    decreases n,
{
    NodeV { children: node_views(n.children@), node_type: n.node_type@ }
}

pub open spec fn node_views(s: Seq<Node>) -> Seq<NodeV>
    decreases s,
{
    if s.len() == 0 {
        Seq::empty()
    } else {
        node_views(s.drop_last()).push(node_view(s.last()))
    }
}

impl View for Node {
    type V = NodeV;

    open spec fn view(&self) -> NodeV {
        node_view(*self)
    }
}

pub proof fn lemma_node_views_len(s: Seq<Node>)
    ensures
        node_views(s).len() == s.len(),
    decreases s,
{
    if s.len() > 0 {
        lemma_node_views_len(s.drop_last());
    }
}

pub proof fn lemma_node_views_index(s: Seq<Node>, i: int)
    requires
        0 <= i < s.len(),
    ensures
        node_views(s).len() == s.len(),
        node_views(s)[i] == node_view(s[i]),
    decreases s,
{
    lemma_node_views_len(s);
    if i < s.len() - 1 {
        lemma_node_views_index(s.drop_last(), i);
    } else {
        assert(s.last() == s[i]);
    }
}

pub proof fn lemma_node_views_push(s: Seq<Node>, x: Node)
    ensures
        node_views(s.push(x)) == node_views(s).push(node_view(x)),
{
    assert(s.push(x).drop_last() =~= s);
    assert(s.push(x).last() == x);
}

pub proof fn lemma_node_views_concat(a: Seq<Node>, b: Seq<Node>)
    ensures
        node_views(a + b) == node_views(a) + node_views(b),
    decreases b.len(),
{
    if b.len() == 0 {
        assert(a + b =~= a);
        assert(node_views(a) + node_views(b) =~= node_views(a));
    } else {
        lemma_node_views_concat(a, b.drop_last());
        assert((a + b).drop_last() =~= a + b.drop_last());
        assert((a + b).last() == b.last());
        assert(node_views(a) + node_views(b) =~= (node_views(a) + node_views(
            b.drop_last(),
        )).push(node_view(b.last())));
    }
}

impl Node {
    pub fn new(node_type: NodeType, children: Vec<Node>) -> (n: Node)
        ensures
            n@ == (NodeV { children: node_views(children@), node_type: node_type@ }),
    {
        Node { node_type, children }
    }
}

} // verus!
