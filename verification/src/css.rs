//! The CSS object model: a stylesheet is an ordered list of rules, each
//! pairing selectors with declarations.
//!
//! Lengths are stored as integers in thousandths of a pixel (or, for
//! percentages, thousandths of a percent), so that parsing and layout are
//! exact integer arithmetic. Color channels are bytes.

use vstd::prelude::*;

verus! {

/// Length magnitudes carry this many integer units per CSS unit, so a
/// magnitude of 1500 written over `Px` means one and a half pixels.
pub const SCALE: i64 = 1000;

/// An RGBA color, one byte per channel.
#[derive(Clone, Copy, PartialEq, Eq, Structural, Debug)]
pub struct Color {
    pub r: u8,
    pub g: u8,
    pub b: u8,
    pub a: u8,
}

impl Color {
    pub fn new(r: u8, g: u8, b: u8, a: u8) -> (c: Color)
        ensures
            c == (Color { r, g, b, a }),
    {
        Color { r, g, b, a }
    }
}

impl Default for Color {
    /// Opaque white.
    fn default() -> (c: Color)
        ensures
            c == (Color { r: 255u8, g: 255u8, b: 255u8, a: 255u8 }),
    {
        Color::new(255, 255, 255, 255)
    }
}

/// The units a length value can carry.
#[derive(Clone, Copy, PartialEq, Eq, Structural, Debug)]
pub enum Unit {
    Em,
    Ex,
    Ch,
    Rem,
    Vh,
    Vw,
    Vmin,
    Vmax,
    Px,
    Mm,
    Q,
    Cm,
    In,
    Pt,
    Pc,
    Pct,
}

/// A declaration's value: a recognized color, a length with a unit, or the
/// raw text of anything else.
#[derive(PartialEq, Eq, Debug)]
pub enum Value {
    Color(Color),
    Length(i64, Unit),
    Other(String),
}

pub enum ValueV {
    Color(Color),
    Length(int, Unit),
    Other(Seq<char>),
}

impl View for Value {
    type V = ValueV;

    open spec fn view(&self) -> ValueV {
        match self {
            Value::Color(c) => ValueV::Color(*c),
            Value::Length(n, u) => ValueV::Length(*n as int, *u),
            Value::Other(s) => ValueV::Other(s@),
        }
    }
}

/// One compound part of a selector: optional tag name, optional id, class
/// names.
#[derive(PartialEq, Eq, Debug)]
pub struct SimpleSelector {
    pub tag_name: Option<String>,
    pub id: Option<String>,
    pub classes: Vec<String>,
}

pub struct SimpleSelectorV {
    pub tag_name: Option<Seq<char>>,
    pub id: Option<Seq<char>>,
    pub classes: Seq<Seq<char>>,
}

impl View for SimpleSelector {
    type V = SimpleSelectorV;

    open spec fn view(&self) -> SimpleSelectorV {
        SimpleSelectorV {
            tag_name: match self.tag_name {
                Some(t) => Some(t@),
                None => None,
            },
            id: match self.id {
                Some(t) => Some(t@),
                None => None,
            },
            classes: Seq::new(self.classes@.len(), |i: int| self.classes@[i]@),
        }
    }
}

impl SimpleSelector {
    pub fn new(tag_name: Option<String>, id: Option<String>, classes: Vec<String>) -> (s:
        SimpleSelector)
        ensures
            s == (SimpleSelector { tag_name, id, classes }),
    {
        SimpleSelector { tag_name, id, classes }
    }
}

impl Default for SimpleSelector {
    fn default() -> (s: SimpleSelector)
        ensures
            s@.tag_name is None,
            s@.id is None,
            s@.classes =~= Seq::<Seq<char>>::empty(),
    {
        SimpleSelector { tag_name: None, id: None, classes: Vec::new() }
    }
}

/// A selector: compound parts plus the combinator characters captured
/// between them (captured, never interpreted).
#[derive(PartialEq, Eq, Debug)]
pub struct Selector {
    pub simple: Vec<SimpleSelector>,
    pub combinators: Vec<char>,
}

pub struct SelectorV {
    pub simple: Seq<SimpleSelectorV>,
    pub combinators: Seq<char>,
}

impl View for Selector {
    type V = SelectorV;

    open spec fn view(&self) -> SelectorV {
        SelectorV {
            simple: Seq::new(self.simple@.len(), |i: int| self.simple@[i]@),
            combinators: self.combinators@,
        }
    }
}

impl Selector {
    pub fn new(simple: Vec<SimpleSelector>, combinators: Vec<char>) -> (s: Selector)
        ensures
            s == (Selector { simple, combinators }),
    {
        Selector { simple, combinators }
    }
}

impl Default for Selector {
    fn default() -> (s: Selector)
        ensures
            s@.simple =~= Seq::<SimpleSelectorV>::empty(),
            s@.combinators =~= Seq::<char>::empty(),
    {
        Selector { simple: Vec::new(), combinators: Vec::new() }
    }
}

/// A property name bound to a value.
#[derive(PartialEq, Eq, Debug)]
pub struct Declaration {
    pub property: String,
    pub value: Value,
}

pub struct DeclarationV {
    pub property: Seq<char>,
    pub value: ValueV,
}

impl View for Declaration {
    type V = DeclarationV;

    open spec fn view(&self) -> DeclarationV {
        DeclarationV { property: self.property@, value: self.value@ }
    }
}

impl Declaration {
    pub fn new(property: String, value: Value) -> (d: Declaration)
        ensures
            d@ == (DeclarationV { property: property@, value: value@ }),
    {
        Declaration { property, value }
    }
}

/// Selectors on the left, declarations on the right.
#[derive(PartialEq, Eq, Debug)]
pub struct Rule {
    pub selectors: Vec<Selector>,
    pub declarations: Vec<Declaration>,
}

pub struct RuleV {
    pub selectors: Seq<SelectorV>,
    pub declarations: Seq<DeclarationV>,
}

impl View for Rule {
    type V = RuleV;

    open spec fn view(&self) -> RuleV {
        RuleV {
            selectors: Seq::new(self.selectors@.len(), |i: int| self.selectors@[i]@),
            declarations: Seq::new(self.declarations@.len(), |i: int| self.declarations@[i]@),
        }
    }
}

impl Rule {
    pub fn new(selectors: Vec<Selector>, declarations: Vec<Declaration>) -> (r: Rule)
        ensures
            r == (Rule { selectors, declarations }),
    {
        Rule { selectors, declarations }
    }
}

impl Default for Rule {
    fn default() -> (r: Rule)
        ensures
            r@.selectors =~= Seq::<SelectorV>::empty(),
            r@.declarations =~= Seq::<DeclarationV>::empty(),
    {
        Rule { selectors: Vec::new(), declarations: Vec::new() }
    }
}

/// An ordered list of rules.
#[derive(PartialEq, Eq, Debug)]
pub struct Stylesheet {
    pub rules: Vec<Rule>,
}

impl View for Stylesheet {
    type V = Seq<RuleV>;

    open spec fn view(&self) -> Seq<RuleV> {
        Seq::new(self.rules@.len(), |i: int| self.rules@[i]@)
    }
}

impl Stylesheet {
    pub fn new(rules: Vec<Rule>) -> (s: Stylesheet)
        ensures
            s == (Stylesheet { rules }),
    {
        Stylesheet { rules }
    }
}

impl Default for Stylesheet {
    fn default() -> (s: Stylesheet)
        ensures
            s@ =~= Seq::<RuleV>::empty(),
    {
        Stylesheet { rules: Vec::new() }
    }
}

} // verus!
