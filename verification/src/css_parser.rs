//! The stylesheet parser: recursive descent over stylesheet text, producing
//! rules of selectors and declarations. It never fails: anything it cannot
//! make sense of is skipped or kept as an uninterpreted `Other` value.
//!
//! As with the markup parser, every executable method is proved to compute
//! exactly what a spec-level parser over the character sequence describes.

use vstd::prelude::*;

use crate::css::{
    Color, Declaration, DeclarationV, Rule, RuleV, Selector, SelectorV, SimpleSelector,
    SimpleSelectorV, Stylesheet, Unit, Value, ValueV,
};
use crate::num::{digits_end, num_end, num_units};

verus! {

broadcast use vstd::std_specs::vec::group_vec_axioms;

// ---------------------------------------------------------------------------
// Scanner
// ---------------------------------------------------------------------------
/// Characters of a stylesheet identifier: letters, digits, `-` and `_`.
pub open spec fn is_ident_char(c: char) -> bool {
    ('0' <= c && c <= '9') || ('a' <= c && c <= 'z') || ('A' <= c && c <= 'Z') || c == '-' || c
        == '_'
}

/// The classes of character run the stylesheet parser consumes.
#[derive(Clone, Copy)]
pub enum CssClass {
    /// Whitespace characters.
    Space,
    /// Identifier characters.
    Ident,
    /// Declaration-value characters: neither `;` nor `}`.
    DeclVal,
    /// Any character except `{`.
    PreBrace,
}

pub open spec fn css_class_holds(k: CssClass, c: char) -> bool {
    match k {
        CssClass::Space => crate::html_parse::is_space_char(c),
        CssClass::Ident => is_ident_char(c),
        CssClass::DeclVal => c != ';' && c != '}',
        CssClass::PreBrace => c != '{',
    }
}

/// Where the run of characters of class `k` starting at `i` ends.
pub open spec fn css_scan(s: Seq<char>, i: int, k: CssClass) -> int
    decreases s.len() - i,
{
    if i < 0 || i >= s.len() {
        i
    } else if css_class_holds(k, s[i]) {
        css_scan(s, i + 1, k)
    } else {
        i
    }
}

pub proof fn lemma_css_scan(s: Seq<char>, i: int, k: CssClass)
    requires
        0 <= i <= s.len(),
    ensures
        i <= css_scan(s, i, k) <= s.len(),
        forall|j: int| i <= j < css_scan(s, i, k) ==> css_class_holds(k, s[j]),
        css_scan(s, i, k) < s.len() ==> !css_class_holds(k, s[css_scan(s, i, k)]),
    decreases s.len() - i,
{
    if i < s.len() && css_class_holds(k, s[i]) {
        lemma_css_scan(s, i + 1, k);
    }
}

/// The end of the run of trailing whitespace inside `s[i..j)`: the largest
/// position at most `j` and at least `i` with no whitespace right before it.
pub open spec fn trim_ws_end(s: Seq<char>, i: int, j: int) -> int
    decreases j - i,
{
    if j <= i || j - 1 >= s.len() || j - 1 < 0 {
        j
    } else if crate::html_parse::is_space_char(s[j - 1]) {
        trim_ws_end(s, i, j - 1)
    } else {
        j
    }
}

// ---------------------------------------------------------------------------
// Value classification
// ---------------------------------------------------------------------------
pub open spec fn is_hex_char(c: char) -> bool {
    ('0' <= c && c <= '9') || ('a' <= c && c <= 'f') || ('A' <= c && c <= 'F')
}

pub open spec fn hex_val(c: char) -> int {
    if '0' <= c && c <= '9' {
        (c as u32) - 48
    } else if 'a' <= c && c <= 'f' {
        (c as u32) - 87
    } else if 'A' <= c && c <= 'F' {
        (c as u32) - 55
    } else {
        0
    }
}

/// The byte two hex digits at `i` denote.
pub open spec fn hex2(s: Seq<char>, i: int) -> int {
    hex_val(s[i]) * 16 + hex_val(s[i + 1])
}

pub open spec fn all_hex(s: Seq<char>, i: int, j: int) -> bool {
    forall|n: int| i <= n < j ==> is_hex_char(#[trigger] s[n])
}

/// The color a keyword denotes, if any: the basic named colors.
pub open spec fn named_color(t: Seq<char>) -> Option<Color> {
    if t == "black"@ {
        Some(Color { r: 0, g: 0, b: 0, a: 255 })
    } else if t == "silver"@ {
        Some(Color { r: 192, g: 192, b: 192, a: 255 })
    } else if t == "gray"@ || t == "grey"@ {
        Some(Color { r: 128, g: 128, b: 128, a: 255 })
    } else if t == "white"@ {
        Some(Color { r: 255, g: 255, b: 255, a: 255 })
    } else if t == "maroon"@ {
        Some(Color { r: 128, g: 0, b: 0, a: 255 })
    } else if t == "red"@ {
        Some(Color { r: 255, g: 0, b: 0, a: 255 })
    } else if t == "purple"@ {
        Some(Color { r: 128, g: 0, b: 128, a: 255 })
    } else if t == "fuchsia"@ {
        Some(Color { r: 255, g: 0, b: 255, a: 255 })
    } else if t == "green"@ {
        Some(Color { r: 0, g: 128, b: 0, a: 255 })
    } else if t == "lime"@ {
        Some(Color { r: 0, g: 255, b: 0, a: 255 })
    } else if t == "olive"@ {
        Some(Color { r: 128, g: 128, b: 0, a: 255 })
    } else if t == "yellow"@ {
        Some(Color { r: 255, g: 255, b: 0, a: 255 })
    } else if t == "navy"@ {
        Some(Color { r: 0, g: 0, b: 128, a: 255 })
    } else if t == "blue"@ {
        Some(Color { r: 0, g: 0, b: 255, a: 255 })
    } else if t == "teal"@ {
        Some(Color { r: 0, g: 128, b: 128, a: 255 })
    } else if t == "aqua"@ {
        Some(Color { r: 0, g: 255, b: 255, a: 255 })
    } else if t == "orange"@ {
        Some(Color { r: 255, g: 165, b: 0, a: 255 })
    } else {
        None
    }
}

/// The color a value's text denotes, if any: `#rgb`, `#rrggbb`, `#rrggbbaa`
/// hex forms, or a named color.
pub open spec fn color_of(t: Seq<char>) -> Option<Color> {
    if t.len() == 7 && t[0] == '#' && all_hex(t, 1, 7) {
        Some(
            Color {
                r: hex2(t, 1) as u8,
                g: hex2(t, 3) as u8,
                b: hex2(t, 5) as u8,
                a: 255,
            },
        )
    } else if t.len() == 9 && t[0] == '#' && all_hex(t, 1, 9) {
        Some(
            Color {
                r: hex2(t, 1) as u8,
                g: hex2(t, 3) as u8,
                b: hex2(t, 5) as u8,
                a: hex2(t, 7) as u8,
            },
        )
    } else if t.len() == 4 && t[0] == '#' && all_hex(t, 1, 4) {
        Some(
            Color {
                r: (hex_val(t[1]) * 17) as u8,
                g: (hex_val(t[2]) * 17) as u8,
                b: (hex_val(t[3]) * 17) as u8,
                a: 255,
            },
        )
    } else {
        named_color(t)
    }
}

/// The unit a token denotes, if any.
pub open spec fn unit_of(u: Seq<char>) -> Option<Unit> {
    if u == "em"@ {
        Some(Unit::Em)
    } else if u == "ex"@ {
        Some(Unit::Ex)
    } else if u == "ch"@ {
        Some(Unit::Ch)
    } else if u == "rem"@ {
        Some(Unit::Rem)
    } else if u == "vh"@ {
        Some(Unit::Vh)
    } else if u == "vw"@ {
        Some(Unit::Vw)
    } else if u == "vmin"@ {
        Some(Unit::Vmin)
    } else if u == "vmax"@ {
        Some(Unit::Vmax)
    } else if u == "px"@ {
        Some(Unit::Px)
    } else if u == "mm"@ {
        Some(Unit::Mm)
    } else if u == "q"@ {
        Some(Unit::Q)
    } else if u == "cm"@ {
        Some(Unit::Cm)
    } else if u == "in"@ {
        Some(Unit::In)
    } else if u == "pt"@ {
        Some(Unit::Pt)
    } else if u == "pc"@ {
        Some(Unit::Pc)
    } else if u == "%"@ {
        Some(Unit::Pct)
    } else {
        None
    }
}

/// The length a value's text denotes, if any: a signed fixed-point number
/// followed by a recognized unit token. A bare number with no unit is not
/// a length; it stays an `Other` value.
pub open spec fn length_of(t: Seq<char>) -> Option<(int, Unit)> {
    let d0: int = if t.len() > 0 && t[0] == '-' {
        1
    } else {
        0
    };
    if digits_end(t, d0) == d0 {
        None
    } else {
        let ne = num_end(t, d0);
        match unit_of(t.subrange(ne, t.len() as int)) {
            Some(u) => Some(
                (
                    if t.len() > 0 && t[0] == '-' {
                        -num_units(t, d0)
                    } else {
                        num_units(t, d0)
                    },
                    u,
                ),
            ),
            None => None,
        }
    }
}

/// How a declaration value's raw text is classified: a recognized color, a
/// length with a unit, or the raw text itself.
pub open spec fn value_of(t: Seq<char>) -> ValueV {
    match color_of(t) {
        Some(c) => ValueV::Color(c),
        None => match length_of(t) {
            Some(nu) => ValueV::Length(nu.0, nu.1),
            None => ValueV::Other(t),
        },
    }
}

// ---------------------------------------------------------------------------
// Selectors
// ---------------------------------------------------------------------------
/// A parsed piece of a selector and the position after it.
pub struct SimpleOut {
    pub sel: SimpleSelectorV,
    pub end: int,
}

pub struct SelOut {
    pub sel: SelectorV,
    pub end: int,
}

pub struct SelsOut {
    pub sels: Seq<SelectorV>,
    pub end: int,
}

/// The id and class qualifiers of a compound part: `#name` sets the id
/// (a later one winning), `.name` adds a class.
pub open spec fn quals_at(
    s: Seq<char>,
    i: int,
    tag: Option<Seq<char>>,
    id: Option<Seq<char>>,
    classes: Seq<Seq<char>>,
) -> SimpleOut
    decreases s.len() - i,
{
    if !(0 <= i < s.len()) {
        SimpleOut { sel: SimpleSelectorV { tag_name: tag, id, classes }, end: i }
    } else if s[i] == '#' {
        let k = css_scan(s, i + 1, CssClass::Ident);
        proof {
            lemma_css_scan(s, i + 1, CssClass::Ident);
        }
        quals_at(s, k, tag, Some(s.subrange(i + 1, k)), classes)
    } else if s[i] == '.' {
        let k = css_scan(s, i + 1, CssClass::Ident);
        proof {
            lemma_css_scan(s, i + 1, CssClass::Ident);
        }
        quals_at(s, k, tag, id, classes.push(s.subrange(i + 1, k)))
    } else {
        SimpleOut { sel: SimpleSelectorV { tag_name: tag, id, classes }, end: i }
    }
}

/// One compound part: an optional tag name (`*` meaning any tag), then id
/// and class qualifiers.
pub open spec fn simple_at(s: Seq<char>, i: int) -> SimpleOut {
    if !(0 <= i < s.len()) {
        SimpleOut {
            sel: SimpleSelectorV { tag_name: None, id: None, classes: Seq::empty() },
            end: i,
        }
    } else if s[i] == '*' {
        quals_at(s, i + 1, None, None, Seq::empty())
    } else if is_ident_char(s[i]) {
        let k = css_scan(s, i, CssClass::Ident);
        quals_at(s, k, Some(s.subrange(i, k)), None, Seq::empty())
    } else {
        quals_at(s, i, None, None, Seq::empty())
    }
}

pub proof fn lemma_quals_at_bounds(
    s: Seq<char>,
    i: int,
    tag: Option<Seq<char>>,
    id: Option<Seq<char>>,
    classes: Seq<Seq<char>>,
)
    requires
        0 <= i <= s.len(),
    ensures
        i <= quals_at(s, i, tag, id, classes).end <= s.len(),
    decreases s.len() - i,
{
    if 0 <= i < s.len() && (s[i] == '#' || s[i] == '.') {
        let k = css_scan(s, i + 1, CssClass::Ident);
        lemma_css_scan(s, i + 1, CssClass::Ident);
        if s[i] == '#' {
            lemma_quals_at_bounds(s, k, tag, Some(s.subrange(i + 1, k)), classes);
        } else {
            lemma_quals_at_bounds(s, k, tag, id, classes.push(s.subrange(i + 1, k)));
        }
    }
}

/// Whether a character can begin a compound selector part.
pub open spec fn is_simple_start(c: char) -> bool {
    is_ident_char(c) || c == '*' || c == '#' || c == '.'
}

pub proof fn lemma_simple_at_bounds(s: Seq<char>, i: int)
    requires
        0 <= i <= s.len(),
    ensures
        i <= simple_at(s, i).end <= s.len(),
        i < s.len() && is_simple_start(s[i]) ==> simple_at(s, i).end > i,
{
    if 0 <= i < s.len() {
        if s[i] == '*' {
            lemma_quals_at_bounds(s, i + 1, None, None, Seq::empty());
        } else if is_ident_char(s[i]) {
            let k = css_scan(s, i, CssClass::Ident);
            lemma_css_scan(s, i, CssClass::Ident);
            lemma_css_scan(s, i + 1, CssClass::Ident);
            lemma_quals_at_bounds(s, k, Some(s.subrange(i, k)), None, Seq::empty());
        } else {
            lemma_quals_at_bounds(s, i, None, None, Seq::empty());
            if s[i] == '#' || s[i] == '.' {
                let k = css_scan(s, i + 1, CssClass::Ident);
                lemma_css_scan(s, i + 1, CssClass::Ident);
                if s[i] == '#' {
                    lemma_quals_at_bounds(s, k, None, Some(s.subrange(i + 1, k)), Seq::empty());
                } else {
                    lemma_quals_at_bounds(
                        s,
                        k,
                        None,
                        None,
                        Seq::<Seq<char>>::empty().push(s.subrange(i + 1, k)),
                    );
                }
            }
        }
    }
}

/// The compound parts and combinator characters of one selector, up to a
/// comma, an opening brace or the end of input. Explicit combinators
/// (`>`, `+`, `~`) are captured; anything unrecognized is skipped.
pub open spec fn parts_at(
    s: Seq<char>,
    i: int,
    simple: Seq<SimpleSelectorV>,
    combinators: Seq<char>,
) -> SelOut
    decreases s.len() - i,
{
    if !(0 <= i < s.len()) {
        SelOut { sel: SelectorV { simple, combinators }, end: i }
    } else {
        let j = css_scan(s, i, CssClass::Space);
        proof {
            lemma_css_scan(s, i, CssClass::Space);
        }
        if j >= s.len() || s[j] == '{' || s[j] == ',' {
            SelOut { sel: SelectorV { simple, combinators }, end: j }
        } else if s[j] == '>' || s[j] == '+' || s[j] == '~' {
            parts_at(s, j + 1, simple, combinators.push(s[j]))
        } else if is_simple_start(s[j]) {
            let sp = simple_at(s, j);
            proof {
                lemma_simple_at_bounds(s, j);
            }
            parts_at(s, sp.end, simple.push(sp.sel), combinators)
        } else {
            parts_at(s, j + 1, simple, combinators)
        }
    }
}

pub proof fn lemma_parts_at_bounds(
    s: Seq<char>,
    i: int,
    simple: Seq<SimpleSelectorV>,
    combinators: Seq<char>,
)
    requires
        0 <= i <= s.len(),
    ensures
        i <= parts_at(s, i, simple, combinators).end <= s.len(),
    decreases s.len() - i,
{
    if 0 <= i < s.len() {
        let j = css_scan(s, i, CssClass::Space);
        lemma_css_scan(s, i, CssClass::Space);
        if j >= s.len() || s[j] == '{' || s[j] == ',' {
        } else if s[j] == '>' || s[j] == '+' || s[j] == '~' {
            lemma_parts_at_bounds(s, j + 1, simple, combinators.push(s[j]));
        } else if is_simple_start(s[j]) {
            let sp = simple_at(s, j);
            lemma_simple_at_bounds(s, j);
            lemma_parts_at_bounds(s, sp.end, simple.push(sp.sel), combinators);
        } else {
            lemma_parts_at_bounds(s, j + 1, simple, combinators);
        }
    }
}

/// The comma-separated selectors of one rule.
pub open spec fn selectors_at(s: Seq<char>, i: int, acc: Seq<SelectorV>) -> SelsOut
    decreases s.len() - i,
{
    if !(0 <= i <= s.len()) {
        SelsOut { sels: acc, end: i }
    } else {
        let so = parts_at(s, i, Seq::empty(), Seq::empty());
        proof {
            lemma_parts_at_bounds(s, i, Seq::empty(), Seq::empty());
        }
        if so.end < s.len() && s[so.end] == ',' {
            selectors_at(s, so.end + 1, acc.push(so.sel))
        } else {
            SelsOut { sels: acc.push(so.sel), end: so.end }
        }
    }
}

pub proof fn lemma_selectors_at_bounds(s: Seq<char>, i: int, acc: Seq<SelectorV>)
    requires
        0 <= i <= s.len(),
    ensures
        i <= selectors_at(s, i, acc).end <= s.len(),
    decreases s.len() - i,
{
    let so = parts_at(s, i, Seq::empty(), Seq::empty());
    lemma_parts_at_bounds(s, i, Seq::empty(), Seq::empty());
    if so.end < s.len() && s[so.end] == ',' {
        lemma_selectors_at_bounds(s, so.end + 1, acc.push(so.sel));
    }
}

// ---------------------------------------------------------------------------
// Declarations and rules
// ---------------------------------------------------------------------------
pub struct DeclsOut {
    pub decls: Seq<DeclarationV>,
    pub end: int,
}

pub struct RuleOut {
    pub rule: RuleV,
    pub end: int,
}

pub struct RulesOut {
    pub rules: Seq<RuleV>,
    pub end: int,
}

/// The declarations inside a block, entered after its `{`: `name: value;`
/// pairs, with the value's raw text trimmed of trailing whitespace and
/// classified; a piece with no colon is skipped; the closing `}` is
/// consumed.
pub open spec fn decls_body_at(s: Seq<char>, i: int, acc: Seq<DeclarationV>) -> DeclsOut
    decreases s.len() - i,
{
    if !(0 <= i < s.len()) {
        DeclsOut { decls: acc, end: i }
    } else {
        let j = css_scan(s, i, CssClass::Space);
        proof {
            lemma_css_scan(s, i, CssClass::Space);
        }
        if j >= s.len() {
            DeclsOut { decls: acc, end: j }
        } else if s[j] == '}' {
            DeclsOut { decls: acc, end: j + 1 }
        } else {
            let pe = css_scan(s, j, CssClass::Ident);
            let j2 = css_scan(s, pe, CssClass::Space);
            proof {
                lemma_css_scan(s, j, CssClass::Ident);
                lemma_css_scan(s, pe, CssClass::Space);
            }
            if j2 < s.len() && s[j2] == ':' {
                let v0 = css_scan(s, j2 + 1, CssClass::Space);
                let ve = css_scan(s, v0, CssClass::DeclVal);
                proof {
                    lemma_css_scan(s, j2 + 1, CssClass::Space);
                    lemma_css_scan(s, v0, CssClass::DeclVal);
                }
                let raw = s.subrange(v0, trim_ws_end(s, v0, ve));
                let d = DeclarationV { property: s.subrange(j, pe), value: value_of(raw) };
                if ve < s.len() && s[ve] == ';' {
                    decls_body_at(s, ve + 1, acc.push(d))
                } else if ve < s.len() {
                    DeclsOut { decls: acc.push(d), end: ve + 1 }
                } else {
                    DeclsOut { decls: acc.push(d), end: ve }
                }
            } else {
                let e = css_scan(s, j2, CssClass::DeclVal);
                proof {
                    lemma_css_scan(s, j2, CssClass::DeclVal);
                }
                if e < s.len() && s[e] == ';' {
                    decls_body_at(s, e + 1, acc)
                } else if e < s.len() {
                    DeclsOut { decls: acc, end: e + 1 }
                } else {
                    DeclsOut { decls: acc, end: e }
                }
            }
        }
    }
}

pub proof fn lemma_decls_body_at_bounds(s: Seq<char>, i: int, acc: Seq<DeclarationV>)
    requires
        0 <= i <= s.len(),
    ensures
        i <= decls_body_at(s, i, acc).end <= s.len(),
    decreases s.len() - i,
{
    if 0 <= i < s.len() {
        let j = css_scan(s, i, CssClass::Space);
        lemma_css_scan(s, i, CssClass::Space);
        if j >= s.len() || s[j] == '}' {
        } else {
            let pe = css_scan(s, j, CssClass::Ident);
            let j2 = css_scan(s, pe, CssClass::Space);
            lemma_css_scan(s, j, CssClass::Ident);
            lemma_css_scan(s, pe, CssClass::Space);
            if j2 < s.len() && s[j2] == ':' {
                let v0 = css_scan(s, j2 + 1, CssClass::Space);
                let ve = css_scan(s, v0, CssClass::DeclVal);
                lemma_css_scan(s, j2 + 1, CssClass::Space);
                lemma_css_scan(s, v0, CssClass::DeclVal);
                let raw = s.subrange(v0, trim_ws_end(s, v0, ve));
                let d = DeclarationV { property: s.subrange(j, pe), value: value_of(raw) };
                if ve < s.len() && s[ve] == ';' {
                    lemma_decls_body_at_bounds(s, ve + 1, acc.push(d));
                }
            } else {
                let e = css_scan(s, j2, CssClass::DeclVal);
                lemma_css_scan(s, j2, CssClass::DeclVal);
                if e < s.len() && s[e] == ';' {
                    lemma_decls_body_at_bounds(s, e + 1, acc);
                }
            }
        }
    }
}

/// A declaration block: junk before the `{` is skipped; with no block at
/// all, there are no declarations.
pub open spec fn decls_at(s: Seq<char>, i: int) -> DeclsOut {
    let j = css_scan(s, i, CssClass::Space);
    if j >= s.len() {
        DeclsOut { decls: Seq::empty(), end: j }
    } else {
        let k = css_scan(s, j, CssClass::PreBrace);
        if k >= s.len() {
            DeclsOut { decls: Seq::empty(), end: k }
        } else {
            decls_body_at(s, k + 1, Seq::empty())
        }
    }
}

pub proof fn lemma_decls_at_bounds(s: Seq<char>, i: int)
    requires
        0 <= i <= s.len(),
    ensures
        i <= decls_at(s, i).end <= s.len(),
        i < s.len() ==> decls_at(s, i).end > i,
{
    let j = css_scan(s, i, CssClass::Space);
    lemma_css_scan(s, i, CssClass::Space);
    if j < s.len() {
        let k = css_scan(s, j, CssClass::PreBrace);
        lemma_css_scan(s, j, CssClass::PreBrace);
        if k < s.len() {
            lemma_decls_body_at_bounds(s, k + 1, Seq::empty());
        }
    }
}

/// One rule: its selectors, then its declaration block.
pub open spec fn rule_at(s: Seq<char>, i: int) -> RuleOut {
    let so = selectors_at(s, i, Seq::empty());
    let dd = decls_at(s, so.end);
    RuleOut { rule: RuleV { selectors: so.sels, declarations: dd.decls }, end: dd.end }
}

pub proof fn lemma_rule_at_bounds(s: Seq<char>, i: int)
    requires
        0 <= i <= s.len(),
    ensures
        i <= rule_at(s, i).end <= s.len(),
        i < s.len() ==> rule_at(s, i).end > i,
{
    let so = selectors_at(s, i, Seq::empty());
    lemma_selectors_at_bounds(s, i, Seq::empty());
    lemma_decls_at_bounds(s, so.end);
}

/// The rules of a stylesheet from position `i` on, with `acc` the rules
/// parsed so far.
pub open spec fn rules_at(s: Seq<char>, i: int, acc: Seq<RuleV>) -> RulesOut
    decreases s.len() - i,
{
    if !(0 <= i <= s.len()) {
        RulesOut { rules: acc, end: i }
    } else {
        let j = css_scan(s, i, CssClass::Space);
        proof {
            lemma_css_scan(s, i, CssClass::Space);
        }
        if j >= s.len() {
            RulesOut { rules: acc, end: j }
        } else {
            let r = rule_at(s, j);
            proof {
                lemma_rule_at_bounds(s, j);
            }
            rules_at(s, r.end, acc.push(r.rule))
        }
    }
}

/// What parsing a whole stylesheet text yields.
pub open spec fn css_rules(s: Seq<char>) -> Seq<RuleV> {
    rules_at(s, 0, Seq::empty()).rules
}

// ---------------------------------------------------------------------------
// Executable classification
// ---------------------------------------------------------------------------
/// Whether the character is a stylesheet identifier character.
pub fn is_ident(c: char) -> (r: bool)
    ensures
        r == is_ident_char(c),
{
    ('0' <= c && c <= '9') || ('a' <= c && c <= 'z') || ('A' <= c && c <= 'Z') || c == '-' || c
        == '_'
}

/// Whether the character belongs to the class.
pub fn css_class_test(k: CssClass, c: char) -> (r: bool)
    ensures
        r == css_class_holds(k, c),
{
    match k {
        CssClass::Space => crate::html_parse::is_whitespace(c),
        CssClass::Ident => is_ident(c),
        CssClass::DeclVal => c != ';' && c != '}',
        CssClass::PreBrace => c != '{',
    }
}

/// The value of a hex digit, at most fifteen.
fn hex_value(c: char) -> (r: u8)
    ensures
        r as int == hex_val(c),
        r <= 15,
{
    if '0' <= c && c <= '9' {
        (c as u32 - 48) as u8
    } else if 'a' <= c && c <= 'f' {
        (c as u32 - 87) as u8
    } else if 'A' <= c && c <= 'F' {
        (c as u32 - 55) as u8
    } else {
        0
    }
}

/// The byte two hex digits denote.
fn hex_pair(v: &Vec<char>, i: usize) -> (r: u8)
    requires
        i + 1 < v@.len(),
    ensures
        r as int == hex2(v@, i as int),
{
    let n = v.len();
    hex_value(v[i]) * 16 + hex_value(v[i + 1])
}

/// Whether every character in the range is a hex digit.
fn all_hex_in(v: &Vec<char>, from: usize, to: usize) -> (r: bool)
    requires
        from <= to <= v@.len(),
    ensures
        r == all_hex(v@, from as int, to as int),
{
    let mut i: usize = from;
    while i < to
        invariant
            from <= i <= to <= v@.len(),
            forall|n: int| from <= n < i ==> is_hex_char(#[trigger] v@[n]),
        decreases to - i,
    {
        let c = v[i];
        if !(('0' <= c && c <= '9') || ('a' <= c && c <= 'f') || ('A' <= c && c <= 'F')) {
            return false;
        }
        i += 1;
    }
    true
}

/// The named color a string denotes, if any.
fn lookup_named_color(s: &String) -> (r: Option<Color>)
    ensures
        r == named_color(s@),
{
    let t = s.as_str();
    if crate::util::str_eq(t, "black") {
        Some(Color::new(0, 0, 0, 255))
    } else if crate::util::str_eq(t, "silver") {
        Some(Color::new(192, 192, 192, 255))
    } else if crate::util::str_eq(t, "gray") || crate::util::str_eq(t, "grey") {
        Some(Color::new(128, 128, 128, 255))
    } else if crate::util::str_eq(t, "white") {
        Some(Color::new(255, 255, 255, 255))
    } else if crate::util::str_eq(t, "maroon") {
        Some(Color::new(128, 0, 0, 255))
    } else if crate::util::str_eq(t, "red") {
        Some(Color::new(255, 0, 0, 255))
    } else if crate::util::str_eq(t, "purple") {
        Some(Color::new(128, 0, 128, 255))
    } else if crate::util::str_eq(t, "fuchsia") {
        Some(Color::new(255, 0, 255, 255))
    } else if crate::util::str_eq(t, "green") {
        Some(Color::new(0, 128, 0, 255))
    } else if crate::util::str_eq(t, "lime") {
        Some(Color::new(0, 255, 0, 255))
    } else if crate::util::str_eq(t, "olive") {
        Some(Color::new(128, 128, 0, 255))
    } else if crate::util::str_eq(t, "yellow") {
        Some(Color::new(255, 255, 0, 255))
    } else if crate::util::str_eq(t, "navy") {
        Some(Color::new(0, 0, 128, 255))
    } else if crate::util::str_eq(t, "blue") {
        Some(Color::new(0, 0, 255, 255))
    } else if crate::util::str_eq(t, "teal") {
        Some(Color::new(0, 128, 128, 255))
    } else if crate::util::str_eq(t, "aqua") {
        Some(Color::new(0, 255, 255, 255))
    } else if crate::util::str_eq(t, "orange") {
        Some(Color::new(255, 165, 0, 255))
    } else {
        None
    }
}

/// The unit a token denotes, if any.
fn lookup_unit(s: &String) -> (r: Option<Unit>)
    ensures
        r == unit_of(s@),
{
    let t = s.as_str();
    if crate::util::str_eq(t, "em") {
        Some(Unit::Em)
    } else if crate::util::str_eq(t, "ex") {
        Some(Unit::Ex)
    } else if crate::util::str_eq(t, "ch") {
        Some(Unit::Ch)
    } else if crate::util::str_eq(t, "rem") {
        Some(Unit::Rem)
    } else if crate::util::str_eq(t, "vh") {
        Some(Unit::Vh)
    } else if crate::util::str_eq(t, "vw") {
        Some(Unit::Vw)
    } else if crate::util::str_eq(t, "vmin") {
        Some(Unit::Vmin)
    } else if crate::util::str_eq(t, "vmax") {
        Some(Unit::Vmax)
    } else if crate::util::str_eq(t, "px") {
        Some(Unit::Px)
    } else if crate::util::str_eq(t, "mm") {
        Some(Unit::Mm)
    } else if crate::util::str_eq(t, "q") {
        Some(Unit::Q)
    } else if crate::util::str_eq(t, "cm") {
        Some(Unit::Cm)
    } else if crate::util::str_eq(t, "in") {
        Some(Unit::In)
    } else if crate::util::str_eq(t, "pt") {
        Some(Unit::Pt)
    } else if crate::util::str_eq(t, "pc") {
        Some(Unit::Pc)
    } else if crate::util::str_eq(t, "%") {
        Some(Unit::Pct)
    } else {
        None
    }
}

/// Classifies a declaration value's raw text.
pub fn classify_value(raw: &Vec<char>) -> (val: Value)
    ensures
        val@ == value_of(raw@),
{
    let n = raw.len();
    if n == 7 && raw[0] == '#' && all_hex_in(raw, 1, 7) {
        Value::Color(Color::new(hex_pair(raw, 1), hex_pair(raw, 3), hex_pair(raw, 5), 255))
    } else if n == 9 && raw[0] == '#' && all_hex_in(raw, 1, 9) {
        Value::Color(
            Color::new(hex_pair(raw, 1), hex_pair(raw, 3), hex_pair(raw, 5), hex_pair(raw, 7)),
        )
    } else if n == 4 && raw[0] == '#' && all_hex_in(raw, 1, 4) {
        Value::Color(
            Color::new(hex_value(raw[1]) * 17, hex_value(raw[2]) * 17, hex_value(raw[3]) * 17, 255),
        )
    } else {
        let text = crate::util::string_from_range(raw, 0, n);
        proof {
            assert(text@ =~= raw@);
        }
        match lookup_named_color(&text) {
            Some(c) => Value::Color(c),
            None => {
                let neg = n > 0 && raw[0] == '-';
                let d0: usize = if neg {
                    1
                } else {
                    0
                };
                let de = crate::num::digits_end_exec(raw, d0);
                if de == d0 {
                    return Value::Other(text);
                }
                let (units, ne) = crate::num::read_number(raw, d0);
                let unit_text = crate::util::string_from_range(raw, ne, n);
                match lookup_unit(&unit_text) {
                    Some(u) => {
                        if neg {
                            Value::Length(-units, u)
                        } else {
                            Value::Length(units, u)
                        }
                    },
                    None => Value::Other(text),
                }
            },
        }
    }
}

// ---------------------------------------------------------------------------
// The parser
// ---------------------------------------------------------------------------
/// A character-stream parser over a fixed stylesheet text.
pub struct CssParser {
    pub input: Vec<char>,
    pub pos: usize,
}

impl CssParser {
    /// Positions stay inside the input.
    pub open spec fn wf(&self) -> bool {
        self.pos <= self.input@.len()
    }

    pub fn new(full_css: &str) -> (p: CssParser)
        ensures
            p.wf(),
            p.input@ == full_css@,
            p.pos == 0,
    {
        CssParser { input: crate::util::read_chars(full_css), pos: 0 }
    }

    /// Skips the run of characters of class `k` at the current position.
    fn skip(&mut self, k: CssClass)
        requires
            old(self).wf(),
        ensures
            final(self).wf(),
            final(self).input == old(self).input,
            final(self).pos >= old(self).pos,
            final(self).pos == css_scan(old(self).input@, old(self).pos as int, k),
    {
        let ghost s = self.input@;
        let ghost p0 = self.pos as int;
        while self.pos < self.input.len() && css_class_test(k, self.input[self.pos])
            invariant
                self.wf(),
                self.input == old(self).input,
                self.input@ == s,
                0 <= p0 <= self.pos as int,
                css_scan(s, p0, k) == css_scan(s, self.pos as int, k),
            decreases self.input@.len() - self.pos,
        {
            self.pos = self.pos + 1;
        }
    }

    /// Parses one compound selector part.
    fn parse_simple_selector(&mut self) -> (sel: SimpleSelector)
        requires
            old(self).wf(),
        ensures
            final(self).wf(),
            final(self).input == old(self).input,
            final(self).pos >= old(self).pos,
            ({
                let o = simple_at(old(self).input@, old(self).pos as int);
                &&& final(self).pos == o.end
                &&& sel@ == o.sel
            }),
    {
        let ghost s = self.input@;
        let ghost p0 = self.pos as int;
        let tag_name: Option<String> = if self.pos < self.input.len() && self.input[self.pos]
            == '*' {
            self.pos = self.pos + 1;
            None
        } else if self.pos < self.input.len() && is_ident(self.input[self.pos]) {
            let a = self.pos;
            self.skip(CssClass::Ident);
            proof {
                lemma_css_scan(s, a as int, CssClass::Ident);
            }
            Some(crate::util::string_from_range(&self.input, a, self.pos))
        } else {
            None
        };
        let ghost tagv: Option<Seq<char>> = match &tag_name {
            Some(t) => Some(t@),
            None => None,
        };
        let ghost q0 = self.pos as int;
        let mut id: Option<String> = None;
        let mut classes: Vec<String> = Vec::new();
        proof {
            assert(Seq::new(classes@.len(), |i: int| classes@[i]@) =~= Seq::<Seq<char>>::empty());
        }
        while self.pos < self.input.len() && (self.input[self.pos] == '#' || self.input[self.pos]
            == '.')
            invariant
                self.wf(),
                self.input == old(self).input,
                self.input@ == s,
                0 <= q0 <= self.pos as int,
                quals_at(s, q0, tagv, None, Seq::empty()) == quals_at(
                    s,
                    self.pos as int,
                    tagv,
                    match id {
                        Some(t) => Some(t@),
                        None => None,
                    },
                    Seq::new(classes@.len(), |i: int| classes@[i]@),
                ),
            decreases self.input@.len() - self.pos,
        {
            let c = self.input[self.pos];
            self.pos = self.pos + 1;
            let a = self.pos;
            self.skip(CssClass::Ident);
            proof {
                lemma_css_scan(s, a as int, CssClass::Ident);
            }
            let name = crate::util::string_from_range(&self.input, a, self.pos);
            if c == '#' {
                id = Some(name);
            } else {
                let ghost cv = Seq::new(classes@.len(), |i: int| classes@[i]@);
                classes.push(name);
                proof {
                    assert(Seq::new(classes@.len(), |i: int| classes@[i]@) =~= cv.push(
                        s.subrange(a as int, self.pos as int),
                    ));
                }
            }
        }
        let sel = SimpleSelector::new(tag_name, id, classes);
        sel
    }

    /// Parses one selector: compound parts and captured combinators, up to
    /// a comma, an opening brace or the end of input.
    fn parse_selector(&mut self) -> (sel: Selector)
        requires
            old(self).wf(),
        ensures
            final(self).wf(),
            final(self).input == old(self).input,
            final(self).pos >= old(self).pos,
            ({
                let o = parts_at(old(self).input@, old(self).pos as int, Seq::empty(), Seq::empty());
                &&& final(self).pos == o.end
                &&& sel@ == o.sel
            }),
    {
        let ghost s = self.input@;
        let ghost p0 = self.pos as int;
        let mut simple: Vec<SimpleSelector> = Vec::new();
        let mut combinators: Vec<char> = Vec::new();
        proof {
            assert(Seq::new(simple@.len(), |i: int| simple@[i]@) =~= Seq::<
                SimpleSelectorV,
            >::empty());
        }
        while self.pos < self.input.len()
            invariant
                self.wf(),
                self.input == old(self).input,
                self.input@ == s,
                0 <= p0 <= self.pos as int,
                p0 == old(self).pos as int,
                parts_at(s, p0, Seq::empty(), Seq::empty()) == parts_at(
                    s,
                    self.pos as int,
                    Seq::new(simple@.len(), |i: int| simple@[i]@),
                    combinators@,
                ),
            decreases self.input@.len() - self.pos,
        {
            let ghost pi = self.pos as int;
            let ghost sv = Seq::new(simple@.len(), |i: int| simple@[i]@);
            self.skip(CssClass::Space);
            proof {
                lemma_css_scan(s, pi, CssClass::Space);
            }
            if self.pos >= self.input.len() || self.input[self.pos] == '{' || self.input[self.pos]
                == ',' {
                return Selector::new(simple, combinators);
            }
            let c = self.input[self.pos];
            if c == '>' || c == '+' || c == '~' {
                self.pos = self.pos + 1;
                combinators.push(c);
            } else if is_ident(c) || c == '*' || c == '#' || c == '.' {
                let sp = self.parse_simple_selector();
                proof {
                    lemma_simple_at_bounds(s, self.pos as int);
                }
                simple.push(sp);
                proof {
                    assert(Seq::new(simple@.len(), |i: int| simple@[i]@) =~= sv.push(sp@));
                }
            } else {
                self.pos = self.pos + 1;
            }
        }
        Selector::new(simple, combinators)
    }

    /// Parses the comma-separated selectors of one rule.
    fn parse_selectors(&mut self) -> (sels: Vec<Selector>)
        requires
            old(self).wf(),
        ensures
            final(self).wf(),
            final(self).input == old(self).input,
            final(self).pos >= old(self).pos,
            ({
                let o = selectors_at(old(self).input@, old(self).pos as int, Seq::empty());
                &&& final(self).pos == o.end
                &&& Seq::new(sels@.len(), |i: int| sels@[i]@) == o.sels
            }),
    {
        let ghost s = self.input@;
        let ghost p0 = self.pos as int;
        let mut sels: Vec<Selector> = Vec::new();
        proof {
            assert(Seq::new(sels@.len(), |i: int| sels@[i]@) =~= Seq::<SelectorV>::empty());
        }
        loop
            invariant
                self.wf(),
                self.input == old(self).input,
                self.input@ == s,
                0 <= p0 <= self.pos as int,
                p0 == old(self).pos as int,
                selectors_at(s, p0, Seq::empty()) == selectors_at(
                    s,
                    self.pos as int,
                    Seq::new(sels@.len(), |i: int| sels@[i]@),
                ),
            decreases self.input@.len() - self.pos,
        {
            let ghost av = Seq::new(sels@.len(), |i: int| sels@[i]@);
            let sel = self.parse_selector();
            proof {
                lemma_parts_at_bounds(s, self.pos as int, Seq::empty(), Seq::empty());
            }
            let ghost sv = sel@;
            sels.push(sel);
            proof {
                assert(Seq::new(sels@.len(), |i: int| sels@[i]@) =~= av.push(sv));
            }
            if self.pos < self.input.len() && self.input[self.pos] == ',' {
                self.pos = self.pos + 1;
            } else {
                return sels;
            }
        }
    }

    /// Where the trailing whitespace of `input[from..to)` begins.
    fn trim_end(&self, from: usize, to: usize) -> (r: usize)
        requires
            self.wf(),
            from <= to <= self.input@.len(),
        ensures
            from <= r <= to,
            r == trim_ws_end(self.input@, from as int, to as int),
    {
        let mut j = to;
        while j > from && crate::html_parse::is_whitespace(self.input[j - 1])
            invariant
                self.wf(),
                from <= j <= to <= self.input@.len(),
                trim_ws_end(self.input@, from as int, to as int) == trim_ws_end(
                    self.input@,
                    from as int,
                    j as int,
                ),
            decreases j,
        {
            j = j - 1;
        }
        j
    }

    /// Parses a declaration block, consuming its braces.
    fn parse_declarations(&mut self) -> (decls: Vec<Declaration>)
        requires
            old(self).wf(),
        ensures
            final(self).wf(),
            final(self).input == old(self).input,
            final(self).pos >= old(self).pos,
            old(self).pos < old(self).input@.len() ==> final(self).pos > old(self).pos,
            ({
                let o = decls_at(old(self).input@, old(self).pos as int);
                &&& final(self).pos == o.end
                &&& Seq::new(decls@.len(), |i: int| decls@[i]@) == o.decls
            }),
    {
        let ghost s = self.input@;
        let ghost p0 = self.pos as int;
        let mut decls: Vec<Declaration> = Vec::new();
        proof {
            assert(Seq::new(decls@.len(), |i: int| decls@[i]@) =~= Seq::<DeclarationV>::empty());
        }
        self.skip(CssClass::Space);
        proof {
            lemma_css_scan(s, p0, CssClass::Space);
        }
        if self.pos >= self.input.len() {
            return decls;
        }
        let ghost pj = self.pos as int;
        self.skip(CssClass::PreBrace);
        proof {
            lemma_css_scan(s, pj, CssClass::PreBrace);
        }
        if self.pos >= self.input.len() {
            return decls;
        }
        self.pos = self.pos + 1;
        let ghost pb = self.pos as int;
        while self.pos < self.input.len()
            invariant
                self.wf(),
                self.input == old(self).input,
                self.input@ == s,
                0 < pb <= self.pos as int,
                p0 == old(self).pos as int,
                p0 < pb,
                decls_at(s, p0) == decls_body_at(s, pb, Seq::empty()),
                decls_body_at(s, pb, Seq::empty()) == decls_body_at(
                    s,
                    self.pos as int,
                    Seq::new(decls@.len(), |i: int| decls@[i]@),
                ),
            decreases self.input@.len() - self.pos,
        {
            let ghost pi = self.pos as int;
            let ghost av = Seq::new(decls@.len(), |i: int| decls@[i]@);
            self.skip(CssClass::Space);
            proof {
                lemma_css_scan(s, pi, CssClass::Space);
            }
            if self.pos >= self.input.len() {
                return decls;
            }
            if self.input[self.pos] == '}' {
                self.pos = self.pos + 1;
                return decls;
            }
            let a = self.pos;
            self.skip(CssClass::Ident);
            proof {
                lemma_css_scan(s, a as int, CssClass::Ident);
            }
            let property = crate::util::string_from_range(&self.input, a, self.pos);
            let ghost pe = self.pos as int;
            self.skip(CssClass::Space);
            proof {
                lemma_css_scan(s, pe, CssClass::Space);
            }
            if self.pos < self.input.len() && self.input[self.pos] == ':' {
                self.pos = self.pos + 1;
                let ghost pc = self.pos as int;
                self.skip(CssClass::Space);
                proof {
                    lemma_css_scan(s, pc, CssClass::Space);
                }
                let v0 = self.pos;
                self.skip(CssClass::DeclVal);
                proof {
                    lemma_css_scan(s, v0 as int, CssClass::DeclVal);
                }
                let ve = self.pos;
                let vt = self.trim_end(v0, ve);
                let raw = crate::util::chars_range(&self.input, v0, vt);
                let value = classify_value(&raw);
                let d = Declaration::new(property, value);
                let ghost dv = d@;
                decls.push(d);
                proof {
                    assert(Seq::new(decls@.len(), |i: int| decls@[i]@) =~= av.push(dv));
                }
                if self.pos < self.input.len() && self.input[self.pos] == ';' {
                    self.pos = self.pos + 1;
                } else if self.pos < self.input.len() {
                    self.pos = self.pos + 1;
                    return decls;
                } else {
                    return decls;
                }
            } else {
                self.skip(CssClass::DeclVal);
                proof {
                    lemma_css_scan(s, self.pos as int, CssClass::DeclVal);
                }
                if self.pos < self.input.len() && self.input[self.pos] == ';' {
                    self.pos = self.pos + 1;
                } else if self.pos < self.input.len() {
                    self.pos = self.pos + 1;
                    return decls;
                } else {
                    return decls;
                }
            }
        }
        decls
    }

    /// Parses one rule.
    fn parse_rule(&mut self) -> (rule: Rule)
        requires
            old(self).wf(),
        ensures
            final(self).wf(),
            final(self).input == old(self).input,
            final(self).pos >= old(self).pos,
            old(self).pos < old(self).input@.len() ==> final(self).pos > old(self).pos,
            ({
                let o = rule_at(old(self).input@, old(self).pos as int);
                &&& final(self).pos == o.end
                &&& rule@ == o.rule
            }),
    {
        let ghost s = self.input@;
        let ghost p0 = self.pos as int;
        let selectors = self.parse_selectors();
        proof {
            lemma_selectors_at_bounds(s, p0, Seq::empty());
        }
        let declarations = self.parse_declarations();
        Rule::new(selectors, declarations)
    }

    /// Parses a whole stylesheet.
    pub fn parse_stylesheet(&mut self) -> (sheet: Stylesheet)
        requires
            old(self).wf(),
        ensures
            final(self).wf(),
            final(self).input == old(self).input,
            sheet@ == rules_at(old(self).input@, old(self).pos as int, Seq::empty()).rules,
    {
        let ghost s = self.input@;
        let ghost p0 = self.pos as int;
        let mut rules: Vec<Rule> = Vec::new();
        proof {
            assert(Seq::new(rules@.len(), |i: int| rules@[i]@) =~= Seq::<RuleV>::empty());
        }
        while self.pos < self.input.len()
            invariant
                self.wf(),
                self.input == old(self).input,
                self.input@ == s,
                0 <= p0 <= self.pos as int,
                p0 == old(self).pos as int,
                rules_at(s, p0, Seq::empty()) == rules_at(
                    s,
                    self.pos as int,
                    Seq::new(rules@.len(), |i: int| rules@[i]@),
                ),
            decreases self.input@.len() - self.pos,
        {
            let ghost pi = self.pos as int;
            let ghost av = Seq::new(rules@.len(), |i: int| rules@[i]@);
            self.skip(CssClass::Space);
            proof {
                lemma_css_scan(s, pi, CssClass::Space);
            }
            if self.pos >= self.input.len() {
                let sheet = Stylesheet::new(rules);
                return sheet;
            }
            let rule = self.parse_rule();
            let ghost rv = rule@;
            rules.push(rule);
            proof {
                assert(Seq::new(rules@.len(), |i: int| rules@[i]@) =~= av.push(rv));
            }
        }
        Stylesheet::new(rules)
    }
}

} // verus!
