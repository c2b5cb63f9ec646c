//! The markup parser: a character-stream parser that produces a forest of
//! DOM nodes and never fails, recovering from malformed tags and comments.
//!
//! Every parsing method is specified against a spec-level parser over the
//! input character sequence; the executable code is proved to compute
//! exactly what the spec parser describes.

use vstd::prelude::*;

use crate::dom::{AttrMap, ElementData, ElementDataV, Node, NodeType, NodeTypeV, NodeV};

verus! {

broadcast use vstd::std_specs::vec::group_vec_axioms;

// ---------------------------------------------------------------------------
// Character classes
// ---------------------------------------------------------------------------
/// Markup whitespace: space, tab, line feed, vertical tab, form feed,
/// carriage return.
pub open spec fn is_space_char(c: char) -> bool {
    c == ' ' || ('\u{09}' <= c && c <= '\u{0D}')
}

/// Characters allowed in a tag name: ASCII letters and digits.
pub open spec fn is_tag_name_char(c: char) -> bool {
    ('0' <= c && c <= '9') || ('a' <= c && c <= 'z') || ('A' <= c && c <= 'Z')
}

/// Control characters, which may not appear in attribute names.
pub open spec fn is_control_char(c: char) -> bool {
    c == '\u{7F}' || (c <= '\u{1F}') || ('\u{80}' <= c && c <= '\u{9F}')
}

/// Characters excluded from attribute names.
pub open spec fn is_excluded_name_char(c: char) -> bool {
    c == ' ' || c == '"' || c == '\'' || c == '>' || c == '/' || c == '='
}

/// Characters allowed in an attribute name.
pub open spec fn is_attr_name_char(c: char) -> bool {
    !is_excluded_name_char(c) && !is_control_char(c)
}

/// Characters allowed in an unquoted attribute value.
pub open spec fn is_attr_value_char(c: char) -> bool {
    !(c == ' ' || c == '"' || c == '\'' || c == '=' || c == '<' || c == '>' || c == '`')
}

/// Whether the given markup character is whitespace.
pub fn is_whitespace(c: char) -> (r: bool)
    ensures
        r == is_space_char(c),
{
    c == ' ' || ('\u{09}' <= c && c <= '\u{0D}')
}

/// Whether the character may appear in a tag name.
pub fn is_valid_tag_name(ch: char) -> (r: bool)
    ensures
        r == is_tag_name_char(ch),
{
    ('0' <= ch && ch <= '9') || ('a' <= ch && ch <= 'z') || ('A' <= ch && ch <= 'Z')
}

/// Whether the character is a control character.
pub fn is_control(ch: char) -> (r: bool)
    ensures
        r == is_control_char(ch),
{
    ch == '\u{7F}' || (ch <= '\u{1F}') || ('\u{80}' <= ch && ch <= '\u{9F}')
}

/// Whether the character is excluded from attribute names.
pub fn is_excluded_name(c: char) -> (r: bool)
    ensures
        r == is_excluded_name_char(c),
{
    c == ' ' || c == '"' || c == '\'' || c == '>' || c == '/' || c == '='
}

/// Whether the character may appear in an attribute name.
pub fn is_valid_attr_name(c: char) -> (r: bool)
    ensures
        r == is_attr_name_char(c),
{
    !is_excluded_name(c) && !is_control(c)
}

/// Whether the character may appear in an unquoted attribute value.
pub fn is_valid_attr_value(c: char) -> (r: bool)
    ensures
        r == is_attr_value_char(c),
{
    !(c == ' ' || c == '"' || c == '\'' || c == '=' || c == '<' || c == '>' || c == '`')
}

/// The classes of character run the parser consumes.
#[derive(Clone, Copy)]
pub enum CharClass {
    /// Whitespace characters.
    Space,
    /// Tag-name characters.
    TagName,
    /// Attribute-name characters.
    AttrName,
    /// Unquoted attribute-value characters.
    AttrValue,
    /// Any character except the given one.
    NotChar(char),
    /// Text-run characters: neither whitespace nor `<`.
    TextRun,
    /// Comment-run characters: neither `<` nor `-`.
    CommentRun,
    /// Characters discarded after an attribute value: neither whitespace
    /// nor `>`.
    AfterValue,
}

pub open spec fn class_holds(k: CharClass, c: char) -> bool {
    match k {
        CharClass::Space => is_space_char(c),
        CharClass::TagName => is_tag_name_char(c),
        CharClass::AttrName => is_attr_name_char(c),
        CharClass::AttrValue => is_attr_value_char(c),
        CharClass::NotChar(x) => c != x,
        CharClass::TextRun => !is_space_char(c) && c != '<',
        CharClass::CommentRun => c != '<' && c != '-',
        CharClass::AfterValue => !is_space_char(c) && c != '>',
    }
}

/// Whether the character belongs to the class.
pub fn class_test(k: CharClass, c: char) -> (r: bool)
    ensures
        r == class_holds(k, c),
{
    match k {
        CharClass::Space => is_whitespace(c),
        CharClass::TagName => is_valid_tag_name(c),
        CharClass::AttrName => is_valid_attr_name(c),
        CharClass::AttrValue => is_valid_attr_value(c),
        CharClass::NotChar(x) => c != x,
        CharClass::TextRun => !is_whitespace(c) && c != '<',
        CharClass::CommentRun => c != '<' && c != '-',
        CharClass::AfterValue => !is_whitespace(c) && c != '>',
    }
}

/// ASCII lowercase of one character.
pub open spec fn lower_char(c: char) -> char {
    if 'A' <= c && c <= 'Z' {
        (((c as u8) + 32) as u8) as char
    } else {
        c
    }
}

/// ASCII lowercase of a character sequence.
pub open spec fn to_lower(s: Seq<char>) -> Seq<char> {
    Seq::new(s.len(), |i: int| lower_char(s[i]))
}

/// ASCII-lowercases a string, as attribute names are case-normalized.
pub fn to_lowercase_ascii(s: &str) -> (r: String)
    ensures
        r@ == to_lower(s@),
{
    let n = s.unicode_len();
    let mut r = String::new();
    let mut i: usize = 0;
    while i < n
        invariant
            n == s@.len(),
            i <= n,
            r@ =~= to_lower(s@).subrange(0, i as int),
        decreases n - i,
    {
        let c = s.get_char(i);
        if 'A' <= c && c <= 'Z' {
            let b: u8 = (c as u8) + 32;
            r.push(b as char);
        } else {
            r.push(c);
        }
        i += 1;
        proof {
            assert(r@ =~= to_lower(s@).subrange(0, i as int));
        }
    }
    proof {
        assert(r@ =~= to_lower(s@));
    }
    r
}

/// Where a run of characters of class `k` starting at `i` ends: the first
/// position at or after `i` whose character leaves the class, or the end of
/// the input.
pub open spec fn scan_end(s: Seq<char>, i: int, k: CharClass) -> int
    decreases s.len() - i,
{
    if i < 0 || i >= s.len() {
        i
    } else if class_holds(k, s[i]) {
        scan_end(s, i + 1, k)
    } else {
        i
    }
}

pub proof fn lemma_scan_end(s: Seq<char>, i: int, k: CharClass)
    requires
        0 <= i <= s.len(),
    ensures
        i <= scan_end(s, i, k) <= s.len(),
        forall|j: int| i <= j < scan_end(s, i, k) ==> class_holds(k, s[j]),
        scan_end(s, i, k) < s.len() ==> !class_holds(k, s[scan_end(s, i, k)]),
    decreases s.len() - i,
{
    if i < s.len() && class_holds(k, s[i]) {
        lemma_scan_end(s, i + 1, k);
    }
}

pub proof fn lemma_scan_end_eq(s: Seq<char>, i: int, e: int, k: CharClass)
    requires
        0 <= i <= e <= s.len(),
        forall|j: int| i <= j < e ==> class_holds(k, s[j]),
        e < s.len() ==> !class_holds(k, s[e]),
    ensures
        scan_end(s, i, k) == e,
    decreases e - i,
{
    if i < e {
        lemma_scan_end_eq(s, i + 1, e, k);
    }
}

// ---------------------------------------------------------------------------
// The spec-level parser: text runs and comments
// ---------------------------------------------------------------------------
/// A piece of parsed content and the position right after it.
pub struct TextOut {
    pub content: Seq<char>,
    pub end: int,
}

/// What parsing a text run at position `i` yields, with `acc` the content
/// collected so far: whitespace runs collapse to a single space, and the
/// run ends at `<` or at the end of input.
pub open spec fn text_at(s: Seq<char>, i: int, acc: Seq<char>) -> TextOut
    decreases s.len() - i,
{
    if i < 0 || i >= s.len() || s[i] == '<' {
        TextOut { content: acc, end: i }
    } else {
        let j = scan_end(s, i, CharClass::Space);
        let acc2 = if j > i {
            acc.push(' ')
        } else {
            acc
        };
        let e = scan_end(s, j, CharClass::TextRun);
        proof {
            lemma_scan_end(s, i, CharClass::Space);
            lemma_scan_end(s, j, CharClass::TextRun);
            if !is_space_char(s[i]) {
                assert(class_holds(CharClass::TextRun, s[i]));
            }
        }
        text_at(s, e, acc2 + s.subrange(j, e))
    }
}

/// One step of the comment-body state machine, entered after `<!--` has
/// been consumed: `acc` is the body collected so far. A well-formed `-->`
/// closes the comment; an embedded comment opener discards the body; every
/// malformed sequence is folded back into the body and scanning goes on.
pub open spec fn comment_body_at(s: Seq<char>, i: int, acc: Seq<char>) -> TextOut
    decreases s.len() - i,
{
    if i < 0 || i >= s.len() {
        TextOut { content: acc, end: i }
    } else {
        let j = scan_end(s, i, CharClass::CommentRun);
        let acc1 = acc + s.subrange(i, j);
        proof {
            lemma_scan_end(s, i, CharClass::CommentRun);
            if s[i] != '<' && s[i] != '-' {
                assert(class_holds(CharClass::CommentRun, s[i]));
                lemma_scan_end(s, i + 1, CharClass::CommentRun);
            }
        }
        if j >= s.len() {
            TextOut { content: acc1, end: j }
        } else if s[j] == '<' {
            if j + 1 < s.len() && s[j + 1] == '!' {
                if j + 2 < s.len() && s[j + 2] == '-' {
                    if j + 3 < s.len() && s[j + 3] == '-' {
                        proof {
                            lemma_scan_end(s, j + 3, CharClass::NotChar('>'));
                        }
                        TextOut {
                            content: Seq::empty(),
                            end: scan_end(s, j + 3, CharClass::NotChar('>')),
                        }
                    } else {
                        comment_body_at(s, j + 3, acc1 + seq!['<', '!', '-'])
                    }
                } else if j + 2 < s.len() && s[j + 2] == ' ' {
                    if j + 3 < s.len() && s[j + 3] == '-' {
                        if j + 4 < s.len() && s[j + 4] == '-' {
                            if j + 5 < s.len() && s[j + 5] == '-' {
                                if j + 6 < s.len() && s[j + 6] == '>' {
                                    TextOut { content: Seq::empty(), end: j + 7 }
                                } else {
                                    comment_body_at(s, j + 6, acc1 + seq!['<', '!', ' ', '-', '-'])
                                }
                            } else {
                                comment_body_at(s, j + 5, acc1 + seq!['<', '!', ' ', '-'])
                            }
                        } else {
                            comment_body_at(s, j + 4, acc1 + seq!['<', '!', ' '])
                        }
                    } else {
                        comment_body_at(s, j + 3, acc1)
                    }
                } else {
                    comment_body_at(s, j + 2, acc1 + seq!['<', '!'])
                }
            } else {
                comment_body_at(s, j + 1, acc1.push('<'))
            }
        } else {
            if j + 1 < s.len() && s[j + 1] == '-' {
                if j + 2 < s.len() && s[j + 2] == '>' {
                    TextOut { content: acc1, end: j + 3 }
                } else {
                    comment_body_at(s, j + 2, acc1 + seq!['-', '-'])
                }
            } else {
                comment_body_at(s, j + 1, acc1.push('-'))
            }
        }
    }
}

/// What parsing a comment yields, entered right after `<!`: the comment's
/// content and the position after it. A deviation from `--` before the
/// body, or an immediate `>`, yields an empty comment.
pub open spec fn comment_at(s: Seq<char>, i: int) -> TextOut {
    if !(0 <= i < s.len() && s[i] == '-') {
        TextOut { content: Seq::empty(), end: scan_end(s, i, CharClass::NotChar('>')) }
    } else if !(i + 1 < s.len() && s[i + 1] == '-') {
        TextOut { content: Seq::empty(), end: scan_end(s, i + 1, CharClass::NotChar('>')) }
    } else if i + 2 < s.len() && s[i + 2] == '>' {
        TextOut { content: Seq::empty(), end: i + 3 }
    } else if i + 2 < s.len() && s[i + 2] == '-' {
        if i + 3 < s.len() && s[i + 3] == '>' {
            TextOut { content: Seq::empty(), end: i + 4 }
        } else {
            comment_body_at(s, i + 3, seq!['-'])
        }
    } else {
        comment_body_at(s, i + 2, Seq::empty())
    }
}

// ---------------------------------------------------------------------------
// The spec-level parser: attributes
// ---------------------------------------------------------------------------
/// What parsing one attribute value at position `i` yields: after optional
/// whitespace, either a quoted value (its closing quote consumed when
/// present) or an unquoted run.
pub open spec fn attr_value_at(s: Seq<char>, i: int) -> TextOut {
    let j = scan_end(s, i, CharClass::Space);
    if j < s.len() && (s[j] == '"' || s[j] == '\'') {
        let k = scan_end(s, j + 1, CharClass::NotChar(s[j]));
        let e = if k < s.len() {
            k + 1
        } else {
            k
        };
        TextOut { content: s.subrange(j + 1, k), end: e }
    } else {
        let k = scan_end(s, j, CharClass::AttrValue);
        TextOut { content: s.subrange(j, k), end: k }
    }
}

pub proof fn lemma_attr_value_at_bounds(s: Seq<char>, i: int)
    requires
        0 <= i <= s.len(),
    ensures
        i <= attr_value_at(s, i).end <= s.len(),
{
    lemma_scan_end(s, i, CharClass::Space);
    let j = scan_end(s, i, CharClass::Space);
    if j < s.len() && (s[j] == '"' || s[j] == '\'') {
        lemma_scan_end(s, j + 1, CharClass::NotChar(s[j]));
    } else {
        lemma_scan_end(s, j, CharClass::AttrValue);
    }
}

/// Attribute pairs parsed at position `i`, with `acc` the pairs collected
/// so far. Names are ASCII-lowercased; a name with no `=` gets the empty
/// value; a stray character that starts no attribute is skipped; the
/// closing `>` is consumed.
pub open spec fn attrs_at(s: Seq<char>, i: int, acc: Seq<(Seq<char>, Seq<char>)>) -> AttrsOut
    decreases s.len() - i,
{
    if !(0 <= i < s.len()) {
        AttrsOut { attrs: acc, end: i }
    } else if s[i] == '>' {
        AttrsOut { attrs: acc, end: i + 1 }
    } else {
        let j = scan_end(s, i, CharClass::Space);
        let k = scan_end(s, j, CharClass::AttrName);
        let name = to_lower(s.subrange(j, k));
        let j2 = scan_end(s, k, CharClass::Space);
        proof {
            lemma_scan_end(s, i, CharClass::Space);
            lemma_scan_end(s, j, CharClass::AttrName);
            lemma_scan_end(s, k, CharClass::Space);
        }
        if j2 < s.len() && s[j2] == '=' {
            let v = attr_value_at(s, j2 + 1);
            let e2 = scan_end(s, v.end, CharClass::AfterValue);
            proof {
                lemma_attr_value_at_bounds(s, j2 + 1);
                lemma_scan_end(s, v.end, CharClass::AfterValue);
                lemma_scan_end(s, e2, CharClass::Space);
            }
            let e3 = scan_end(s, e2, CharClass::Space);
            attrs_at(s, e3, acc.push((name, v.content)))
        } else if j2 == i {
            // Nothing was consumed: skip the stray character so that
            // parsing always makes progress.
            attrs_at(s, i + 1, acc)
        } else {
            attrs_at(s, j2, acc.push((name, Seq::empty())))
        }
    }
}

/// Attribute pairs and the position after the closing `>`.
pub struct AttrsOut {
    pub attrs: Seq<(Seq<char>, Seq<char>)>,
    pub end: int,
}

pub proof fn lemma_attrs_at_bounds(s: Seq<char>, i: int, acc: Seq<(Seq<char>, Seq<char>)>)
    requires
        0 <= i <= s.len(),
    ensures
        i <= attrs_at(s, i, acc).end <= s.len() + 1,
    decreases s.len() - i,
{
    if 0 <= i < s.len() && s[i] != '>' {
        let j = scan_end(s, i, CharClass::Space);
        let k = scan_end(s, j, CharClass::AttrName);
        let j2 = scan_end(s, k, CharClass::Space);
        lemma_scan_end(s, i, CharClass::Space);
        lemma_scan_end(s, j, CharClass::AttrName);
        lemma_scan_end(s, k, CharClass::Space);
        if j2 < s.len() && s[j2] == '=' {
            let v = attr_value_at(s, j2 + 1);
            lemma_attr_value_at_bounds(s, j2 + 1);
            let e2 = scan_end(s, v.end, CharClass::AfterValue);
            lemma_scan_end(s, v.end, CharClass::AfterValue);
            let e3 = scan_end(s, e2, CharClass::Space);
            lemma_scan_end(s, e2, CharClass::Space);
            lemma_attrs_at_bounds(s, e3, acc.push((to_lower(s.subrange(j, k)), v.content)));
        } else if j2 == i {
            lemma_attrs_at_bounds(s, i + 1, acc);
        } else {
            lemma_attrs_at_bounds(s, j2, acc.push((to_lower(s.subrange(j, k)), Seq::empty())));
        }
    }
}

// ---------------------------------------------------------------------------
// The spec-level parser: nodes
// ---------------------------------------------------------------------------
pub proof fn lemma_comment_body_at_bounds(s: Seq<char>, i: int, acc: Seq<char>)
    requires
        0 <= i <= s.len(),
    ensures
        i <= comment_body_at(s, i, acc).end <= s.len(),
    decreases s.len() - i,
{
    if i < s.len() {
        let j = scan_end(s, i, CharClass::CommentRun);
        lemma_scan_end(s, i, CharClass::CommentRun);
        let acc1 = acc + s.subrange(i, j);
        if j >= s.len() {
        } else if s[j] == '<' {
            if j + 1 < s.len() && s[j + 1] == '!' {
                if j + 2 < s.len() && s[j + 2] == '-' {
                    if j + 3 < s.len() && s[j + 3] == '-' {
                        lemma_scan_end(s, j + 3, CharClass::NotChar('>'));
                    } else {
                        lemma_comment_body_at_bounds(s, j + 3, acc1 + seq!['<', '!', '-']);
                    }
                } else if j + 2 < s.len() && s[j + 2] == ' ' {
                    if j + 3 < s.len() && s[j + 3] == '-' {
                        if j + 4 < s.len() && s[j + 4] == '-' {
                            if j + 5 < s.len() && s[j + 5] == '-' {
                                if j + 6 < s.len() && s[j + 6] == '>' {
                                } else {
                                    lemma_comment_body_at_bounds(
                                        s,
                                        j + 6,
                                        acc1 + seq!['<', '!', ' ', '-', '-'],
                                    );
                                }
                            } else {
                                lemma_comment_body_at_bounds(
                                    s,
                                    j + 5,
                                    acc1 + seq!['<', '!', ' ', '-'],
                                );
                            }
                        } else {
                            lemma_comment_body_at_bounds(s, j + 4, acc1 + seq!['<', '!', ' ']);
                        }
                    } else {
                        lemma_comment_body_at_bounds(s, j + 3, acc1);
                    }
                } else {
                    lemma_comment_body_at_bounds(s, j + 2, acc1 + seq!['<', '!']);
                }
            } else {
                lemma_comment_body_at_bounds(s, j + 1, acc1.push('<'));
            }
        } else {
            if j + 1 < s.len() && s[j + 1] == '-' {
                if j + 2 < s.len() && s[j + 2] == '>' {
                } else {
                    lemma_comment_body_at_bounds(s, j + 2, acc1 + seq!['-', '-']);
                }
            } else {
                lemma_comment_body_at_bounds(s, j + 1, acc1.push('-'));
            }
        }
    }
}

pub proof fn lemma_comment_at_bounds(s: Seq<char>, i: int)
    requires
        0 <= i <= s.len(),
    ensures
        i <= comment_at(s, i).end <= s.len(),
{
    lemma_scan_end(s, i, CharClass::NotChar('>'));
    if 0 <= i < s.len() && s[i] == '-' {
        lemma_scan_end(s, i + 1, CharClass::NotChar('>'));
        if i + 1 < s.len() && s[i + 1] == '-' {
            if i + 2 < s.len() && s[i + 2] == '>' {
            } else if i + 2 < s.len() && s[i + 2] == '-' {
                if i + 3 < s.len() && s[i + 3] == '>' {
                } else {
                    lemma_comment_body_at_bounds(s, i + 3, seq!['-']);
                }
            } else {
                lemma_comment_body_at_bounds(s, i + 2, Seq::empty());
            }
        }
    }
}

pub proof fn lemma_text_at_bounds(s: Seq<char>, i: int, acc: Seq<char>)
    requires
        0 <= i <= s.len(),
    ensures
        i <= text_at(s, i, acc).end <= s.len(),
        i < s.len() && s[i] != '<' ==> text_at(s, i, acc).end > i,
    decreases s.len() - i,
{
    if i < s.len() && s[i] != '<' {
        let j = scan_end(s, i, CharClass::Space);
        lemma_scan_end(s, i, CharClass::Space);
        let e = scan_end(s, j, CharClass::TextRun);
        lemma_scan_end(s, j, CharClass::TextRun);
        if !is_space_char(s[i]) {
            assert(class_holds(CharClass::TextRun, s[i]));
            lemma_scan_end(s, i + 1, CharClass::TextRun);
        } else {
            lemma_scan_end(s, i + 1, CharClass::Space);
        }
        let acc2 = if j > i {
            acc.push(' ')
        } else {
            acc
        };
        lemma_text_at_bounds(s, e, acc2 + s.subrange(j, e));
    }
}

/// A position clamped into a range, used only so that the parsing measure
/// visibly decreases; the bounds lemmas show the clamping never fires.
pub open spec fn clamp_pos(e: int, lo: int, hi: int) -> int {
    if e < lo {
        lo
    } else if e > hi {
        hi
    } else {
        e
    }
}

/// A parsed element node, the position after it, and the close-tag queue
/// it leaves behind.
pub struct NodeOut {
    pub node: NodeV,
    pub end: int,
    pub q: Seq<Seq<char>>,
}

/// A parsed sibling list, the position after it, and the close-tag queue
/// it leaves behind.
pub struct NodesOut {
    pub nodes: Seq<NodeV>,
    pub end: int,
    pub q: Seq<Seq<char>>,
}

/// What parsing one element yields, entered right after its `<`: tag name,
/// attributes, then children up to a close tag or the end of input.
pub open spec fn node_at(s: Seq<char>, i: int, q: Seq<Seq<char>>) -> NodeOut
    decreases s.len() - i, 1int,
{
    if !(0 <= i <= s.len()) {
        NodeOut {
            node: NodeV { children: Seq::empty(), node_type: NodeTypeV::Text(Seq::empty()) },
            end: i,
            q,
        }
    } else {
        let k = scan_end(s, i, CharClass::TagName);
        let tag = s.subrange(i, k);
        proof {
            lemma_scan_end(s, i, CharClass::TagName);
        }
        let ao = attrs_at(s, k, Seq::empty());
        proof {
            lemma_attrs_at_bounds(s, k, Seq::empty());
        }
        let no = nodes_at(s, clamp_pos(ao.end, i, s.len() as int), q, Seq::empty());
        NodeOut {
            node: NodeV {
                children: no.nodes,
                node_type: NodeTypeV::Element(
                    ElementDataV { tag_name: tag, attributes: ao.attrs },
                ),
            },
            end: no.end,
            q: no.q,
        }
    }
}

/// What parsing a sibling list yields, with `acc` the nodes parsed so far:
/// repeatedly skip whitespace and parse a close tag (which ends the list),
/// a comment, an element, or a text run. A close tag whose name does not
/// match the element it ends makes that element's children take its place
/// among its siblings, and the close tag is left for the enclosing level.
pub open spec fn nodes_at(s: Seq<char>, i: int, q: Seq<Seq<char>>, acc: Seq<NodeV>) -> NodesOut
    decreases s.len() - i, 0int,
{
    if !(0 <= i < s.len()) {
        NodesOut { nodes: acc, end: i, q }
    } else {
        let j = scan_end(s, i, CharClass::Space);
        proof {
            lemma_scan_end(s, i, CharClass::Space);
        }
        if j < s.len() && s[j] == '<' {
            if j + 1 < s.len() && s[j + 1] == '/' {
                let j2 = scan_end(s, j + 2, CharClass::Space);
                proof {
                    lemma_scan_end(s, j + 2, CharClass::Space);
                }
                let k2 = scan_end(s, j2, CharClass::TagName);
                let close = s.subrange(j2, k2);
                proof {
                    lemma_scan_end(s, j2, CharClass::TagName);
                }
                let e = scan_end(s, k2, CharClass::NotChar('>'));
                let e2 = if e < s.len() {
                    e + 1
                } else {
                    e
                };
                NodesOut { nodes: acc, end: e2, q: q.push(close) }
            } else if j + 1 < s.len() && s[j + 1] == '!' {
                let c = comment_at(s, j + 2);
                proof {
                    lemma_comment_at_bounds(s, j + 2);
                }
                nodes_at(
                    s,
                    c.end,
                    q,
                    acc.push(NodeV { children: Seq::empty(), node_type: NodeTypeV::Comment(c.content) }),
                )
            } else {
                let no = node_at(s, j + 1, q);
                let resume = clamp_pos(no.end, j + 1, s.len() as int);
                if no.node.node_type matches NodeTypeV::Element(e) && no.q.len() > 0 {
                    let assumed = no.q[0];
                    if (no.node.node_type matches NodeTypeV::Element(e) && e.tag_name != assumed) {
                        // Mismatched close tag: the element was implicitly
                        // unclosed. Its children take its place here, and
                        // the close tag stays queued for the level above.
                        nodes_at(s, resume, no.q, acc + no.node.children)
                    } else {
                        nodes_at(s, resume, no.q.drop_first(), acc.push(no.node))
                    }
                } else {
                    nodes_at(s, resume, no.q, acc.push(no.node))
                }
            }
        } else {
            let t = text_at(s, j, Seq::empty());
            proof {
                lemma_text_at_bounds(s, j, Seq::empty());
            }
            nodes_at(
                s,
                t.end,
                q,
                acc.push(NodeV { children: Seq::empty(), node_type: NodeTypeV::Text(t.content) }),
            )
        }
    }
}

// ---------------------------------------------------------------------------
// The parser
// ---------------------------------------------------------------------------
/// A character-stream parser over a fixed input, with a queue of pending
/// close-tag names used for mismatch recovery.
pub struct HtmlParser {
    pub input: Vec<char>,
    pub pos: usize,
    pub node_q: Vec<String>,
}

impl HtmlParser {
    /// Positions stay inside the input.
    pub open spec fn wf(&self) -> bool {
        self.pos <= self.input@.len()
    }

    pub fn new(full_html: &str) -> (p: HtmlParser)
        ensures
            p.wf(),
            p.input@ == full_html@,
            p.pos == 0,
            p.node_q.deep_view() =~= Seq::<Seq<char>>::empty(),
    {
        HtmlParser { input: crate::util::read_chars(full_html), pos: 0, node_q: Vec::new() }
    }

    /// Consumes the run of characters of class `k` at the current position
    /// and returns it.
    fn consume_while(&mut self, k: CharClass) -> (out: String)
        requires
            old(self).wf(),
        ensures
            final(self).wf(),
            final(self).input == old(self).input,
            final(self).node_q == old(self).node_q,
            final(self).pos >= old(self).pos,
            final(self).pos == scan_end(old(self).input@, old(self).pos as int, k),
            out@ == old(self).input@.subrange(old(self).pos as int, final(self).pos as int),
    {
        let ghost s = self.input@;
        let ghost p0 = self.pos as int;
        let mut out = String::new();
        while self.pos < self.input.len() && class_test(k, self.input[self.pos])
            invariant
                self.wf(),
                self.input == old(self).input,
                self.input@ == s,
                self.node_q == old(self).node_q,
                0 <= p0 <= self.pos as int,
                scan_end(s, p0, k) == scan_end(s, self.pos as int, k),
                forall|j: int| p0 <= j < self.pos as int ==> class_holds(k, s[j]),
                out@ == s.subrange(p0, self.pos as int),
            decreases self.input@.len() - self.pos,
        {
            out.push(self.input[self.pos]);
            self.pos = self.pos + 1;
            proof {
                assert(out@ =~= s.subrange(p0, self.pos as int));
            }
        }
        out
    }

    /// Parses one element, entered right after its `<`: tag name,
    /// attributes, then children until a close tag or the end of input.
    fn parse_node(&mut self) -> (n: Node)
        requires
            old(self).wf(),
        ensures
            final(self).wf(),
            final(self).input == old(self).input,
            final(self).pos >= old(self).pos,
            ({
                let o = node_at(old(self).input@, old(self).pos as int, old(self).node_q.deep_view());
                &&& final(self).pos == o.end
                &&& final(self).node_q.deep_view() == o.q
                &&& n@ == o.node
            }),
        decreases old(self).input@.len() - old(self).pos, 1int,
    {
        let ghost s = self.input@;
        let ghost p0 = self.pos as int;
        let ghost q0 = self.node_q.deep_view();
        let tagname = self.consume_while(CharClass::TagName);
        let ghost k = self.pos as int;
        let attributes = self.parse_attributes();
        proof {
            lemma_scan_end(s, p0, CharClass::TagName);
            lemma_attrs_at_bounds(s, k, Seq::empty());
            assert(clamp_pos(attrs_at(s, k, Seq::empty()).end, p0, s.len() as int) == self.pos as int);
        }
        let elem = ElementData::new(tagname, attributes);
        let children = self.parse_nodes();
        let node = Node::new(NodeType::Element(elem), children);
        node
    }

    /// Parses a sibling list: elements, comments and text runs, until a
    /// close tag or the end of input, with mismatched close tags recovered
    /// by splicing the unclosed element's children into its place.
    pub fn parse_nodes(&mut self) -> (nodes: Vec<Node>)
        requires
            old(self).wf(),
        ensures
            final(self).wf(),
            final(self).input == old(self).input,
            final(self).pos >= old(self).pos,
            ({
                let o = nodes_at(
                    old(self).input@,
                    old(self).pos as int,
                    old(self).node_q.deep_view(),
                    Seq::empty(),
                );
                &&& final(self).pos == o.end
                &&& final(self).node_q.deep_view() == o.q
                &&& crate::dom::node_views(nodes@) == o.nodes
            }),
        decreases old(self).input@.len() - old(self).pos, 0int,
    {
        let ghost s = self.input@;
        let ghost p0 = self.pos as int;
        let ghost q0 = self.node_q.deep_view();
        let mut nodes: Vec<Node> = Vec::new();
        let mut done = false;
        proof {
            assert(crate::dom::node_views(Seq::<Node>::empty()) =~= Seq::<NodeV>::empty());
        }
        while !done && self.pos < self.input.len()
            invariant
                self.wf(),
                self.input == old(self).input,
                self.input@ == s,
                0 <= p0 <= self.pos as int,
                p0 == old(self).pos as int,
                q0 == old(self).node_q.deep_view(),
                (if done {
                    nodes_at(s, p0, q0, Seq::empty()) == (NodesOut {
                        nodes: crate::dom::node_views(nodes@),
                        end: self.pos as int,
                        q: self.node_q.deep_view(),
                    })
                } else {
                    nodes_at(s, p0, q0, Seq::empty()) == nodes_at(
                        s,
                        self.pos as int,
                        self.node_q.deep_view(),
                        crate::dom::node_views(nodes@),
                    )
                }),
            decreases self.input@.len() - self.pos,
        {
            let ghost pi = self.pos as int;
            let ghost qi = self.node_q.deep_view();
            let ghost accv = crate::dom::node_views(nodes@);
            self.consume_while(CharClass::Space);
            proof {
                lemma_scan_end(s, pi, CharClass::Space);
            }
            let ghost j = self.pos as int;
            if self.pos < self.input.len() && self.input[self.pos] == '<' {
                self.pos = self.pos + 1;
                if self.pos < self.input.len() && self.input[self.pos] == '/' {
                    self.pos = self.pos + 1;
                    self.consume_while(CharClass::Space);
                    let close_tag_name = self.consume_while(CharClass::TagName);
                    self.consume_while(CharClass::NotChar('>'));
                    if self.pos < self.input.len() {
                        self.pos = self.pos + 1;
                    }
                    let ghost dq = self.node_q.deep_view();
                    self.node_q.push(close_tag_name);
                    proof {
                        assert(self.node_q.deep_view() =~= dq.push(close_tag_name@));
                    }
                    done = true;
                } else if self.pos < self.input.len() && self.input[self.pos] == '!' {
                    self.pos = self.pos + 1;
                    let comment = self.parse_comment_node();
                    let ghost dn = nodes@;
                    nodes.push(comment);
                    proof {
                        crate::dom::lemma_node_views_push(dn, comment);
                        lemma_comment_at_bounds(s, j + 2);
                    }
                } else {
                    let mut node = self.parse_node();
                    let ghost no = node_at(s, j + 1, qi);
                    proof {
                        assert(clamp_pos(no.end, j + 1, s.len() as int) == self.pos as int);
                    }
                    let is_mismatch = if self.node_q.len() > 0 {
                        match &node.node_type {
                            NodeType::Element(e) => !crate::util::str_eq(
                                e.tag_name.as_str(),
                                self.node_q[0].as_str(),
                            ),
                            _ => false,
                        }
                    } else {
                        false
                    };
                    let is_elem = matches!(&node.node_type, NodeType::Element(_));
                    if is_mismatch {
                        // The element was implicitly unclosed: its children
                        // take its place, and the queued close tag stays
                        // for the enclosing level to consume.
                        let ghost dn = nodes@;
                        let ghost dc = node.children@;
                        nodes.append(&mut node.children);
                        proof {
                            crate::dom::lemma_node_views_concat(dn, dc);
                        }
                    } else {
                        if is_elem && self.node_q.len() > 0 {
                            let ghost dq = self.node_q.deep_view();
                            let _assumed = self.node_q.remove(0);
                            proof {
                                assert(self.node_q.deep_view() =~= dq.drop_first());
                            }
                        }
                        let ghost dn = nodes@;
                        nodes.push(node);
                        proof {
                            crate::dom::lemma_node_views_push(dn, node);
                        }
                    }
                }
            } else {
                let text = self.parse_text_node();
                let ghost dn = nodes@;
                nodes.push(text);
                proof {
                    crate::dom::lemma_node_views_push(dn, text);
                    lemma_text_at_bounds(s, j, Seq::empty());
                }
            }
        }
        nodes
    }

    /// Parses one attribute value: quoted verbatim, or an unquoted run.
    fn parse_attr_value(&mut self) -> (v: String)
        requires
            old(self).wf(),
        ensures
            final(self).wf(),
            final(self).input == old(self).input,
            final(self).node_q == old(self).node_q,
            final(self).pos >= old(self).pos,
            ({
                let o = attr_value_at(old(self).input@, old(self).pos as int);
                &&& final(self).pos == o.end
                &&& v@ == o.content
            }),
    {
        let ghost s = self.input@;
        let ghost p0 = self.pos as int;
        self.consume_while(CharClass::Space);
        proof {
            lemma_scan_end(s, p0, CharClass::Space);
        }
        if self.pos < self.input.len() && (self.input[self.pos] == '"' || self.input[self.pos]
            == '\'') {
            let quote = self.input[self.pos];
            self.pos = self.pos + 1;
            let ghost pq = self.pos as int;
            let ret = self.consume_while(CharClass::NotChar(quote));
            proof {
                lemma_scan_end(s, pq, CharClass::NotChar(quote));
            }
            if self.pos < self.input.len() {
                self.pos = self.pos + 1;
            }
            ret
        } else {
            let ret = self.consume_while(CharClass::AttrValue);
            proof {
                lemma_scan_end(s, scan_end(s, p0, CharClass::Space), CharClass::AttrValue);
            }
            ret
        }
    }

    /// Parses the attribute list of an open tag, consuming the closing `>`.
    fn parse_attributes(&mut self) -> (m: AttrMap)
        requires
            old(self).wf(),
        ensures
            final(self).wf(),
            final(self).input == old(self).input,
            final(self).node_q == old(self).node_q,
            final(self).pos >= old(self).pos,
            ({
                let o = attrs_at(old(self).input@, old(self).pos as int, Seq::empty());
                &&& final(self).pos == o.end
                &&& m@ == o.attrs
            }),
    {
        let ghost s = self.input@;
        let ghost p0 = self.pos as int;
        let mut attributes = AttrMap::new();
        while self.pos < self.input.len() && self.input[self.pos] != '>'
            invariant
                self.wf(),
                self.input == old(self).input,
                self.input@ == s,
                self.node_q == old(self).node_q,
                0 <= p0 <= self.pos as int,
                attrs_at(s, p0, Seq::empty()) == attrs_at(s, self.pos as int, attributes@),
            decreases self.input@.len() - self.pos,
        {
            let start = self.pos;
            let ghost acc = attributes@;
            self.consume_while(CharClass::Space);
            let raw_name = self.consume_while(CharClass::AttrName);
            let name = to_lowercase_ascii(raw_name.as_str());
            self.consume_while(CharClass::Space);
            proof {
                lemma_scan_end(s, start as int, CharClass::Space);
                lemma_scan_end(
                    s,
                    scan_end(s, start as int, CharClass::Space),
                    CharClass::AttrName,
                );
                lemma_scan_end(
                    s,
                    scan_end(
                        s,
                        scan_end(s, start as int, CharClass::Space),
                        CharClass::AttrName,
                    ),
                    CharClass::Space,
                );
            }
            if self.pos < self.input.len() && self.input[self.pos] == '=' {
                self.pos = self.pos + 1;
                let value = self.parse_attr_value();
                let ghost pv = self.pos as int;
                self.consume_while(CharClass::AfterValue);
                let ghost pa = self.pos as int;
                self.consume_while(CharClass::Space);
                proof {
                    lemma_scan_end(s, pv, CharClass::AfterValue);
                    lemma_scan_end(s, pa, CharClass::Space);
                }
                attributes.insert(name, value);
            } else if self.pos == start {
                self.pos = self.pos + 1;
            } else {
                attributes.insert(name, String::new());
            }
        }
        if self.pos < self.input.len() {
            self.pos = self.pos + 1;
        }
        attributes
    }

    /// Parses a run of text, collapsing each whitespace run to one space.
    fn parse_text_node(&mut self) -> (n: Node)
        requires
            old(self).wf(),
        ensures
            final(self).wf(),
            final(self).input == old(self).input,
            final(self).node_q == old(self).node_q,
            ({
                let t = text_at(old(self).input@, old(self).pos as int, Seq::empty());
                &&& final(self).pos == t.end
                &&& n@ == (NodeV {
                    children: Seq::empty(),
                    node_type: NodeTypeV::Text(t.content),
                })
            }),
    {
        let ghost s = self.input@;
        let ghost p0 = self.pos as int;
        let mut content = String::new();
        while self.pos < self.input.len() && self.input[self.pos] != '<'
            invariant
                self.wf(),
                self.input == old(self).input,
                self.input@ == s,
                self.node_q == old(self).node_q,
                0 <= p0 <= self.pos as int,
                text_at(s, p0, Seq::empty()) == text_at(s, self.pos as int, content@),
            decreases self.input@.len() - self.pos,
        {
            let ghost pi = self.pos as int;
            let ghost acc = content@;
            let ws = self.consume_while(CharClass::Space);
            if !ws.as_str().is_empty() {
                content.push(' ');
            }
            let part = self.consume_while(CharClass::TextRun);
            content.append(part.as_str());
            proof {
                lemma_scan_end(s, pi, CharClass::Space);
                if !is_space_char(s[pi]) {
                    assert(class_holds(CharClass::TextRun, s[pi]));
                }
                lemma_scan_end(s, scan_end(s, pi, CharClass::Space), CharClass::TextRun);
            }
        }
        let node = Node::new(NodeType::Text(content), Vec::new());
        proof {
            assert(crate::dom::node_views(Seq::<Node>::empty()) =~= Seq::<NodeV>::empty());
        }
        node
    }

    /// Parses a comment, entered right after `<!`, recovering from every
    /// malformed variant.
    fn parse_comment_node(&mut self) -> (n: Node)
        requires
            old(self).wf(),
        ensures
            final(self).wf(),
            final(self).input == old(self).input,
            final(self).node_q == old(self).node_q,
            ({
                let t = comment_at(old(self).input@, old(self).pos as int);
                &&& final(self).pos == t.end
                &&& n@ == (NodeV {
                    children: Seq::empty(),
                    node_type: NodeTypeV::Comment(t.content),
                })
            }),
    {
        let ghost s = self.input@;
        let ghost p0 = self.pos as int;
        proof {
            assert(crate::dom::node_views(Seq::<Node>::empty()) =~= Seq::<NodeV>::empty());
        }
        let mut content = String::new();
        if self.pos < self.input.len() && self.input[self.pos] == '-' {
            self.pos = self.pos + 1;
            if self.pos < self.input.len() && self.input[self.pos] == '-' {
                self.pos = self.pos + 1;
            } else {
                self.consume_while(CharClass::NotChar('>'));
                return Node::new(NodeType::Comment(content), Vec::new());
            }
        } else {
            self.consume_while(CharClass::NotChar('>'));
            return Node::new(NodeType::Comment(content), Vec::new());
        }
        if self.pos < self.input.len() && self.input[self.pos] == '>' {
            self.pos = self.pos + 1;
            return Node::new(NodeType::Comment(content), Vec::new());
        }
        if self.pos < self.input.len() && self.input[self.pos] == '-' {
            self.pos = self.pos + 1;
            if self.pos < self.input.len() && self.input[self.pos] == '>' {
                self.pos = self.pos + 1;
                return Node::new(NodeType::Comment(content), Vec::new());
            } else {
                content.push('-');
            }
        }
        let ghost target = comment_body_at(s, self.pos as int, content@);
        proof {
            assert(comment_at(s, p0) == target);
        }
        while self.pos < self.input.len()
            invariant
                self.wf(),
                self.input == old(self).input,
                self.input@ == s,
                self.node_q == old(self).node_q,
                0 <= self.pos as int,
                comment_body_at(s, self.pos as int, content@) == target,
                comment_at(s, old(self).pos as int) == target,
            decreases self.input@.len() - self.pos,
        {
            let ghost pi = self.pos as int;
            let ghost acc = content@;
            let run = self.consume_while(CharClass::CommentRun);
            content.append(run.as_str());
            let ghost j = self.pos as int;
            let ghost acc1 = content@;
            proof {
                lemma_scan_end(s, pi, CharClass::CommentRun);
                if s[pi] != '<' && s[pi] != '-' {
                    assert(class_holds(CharClass::CommentRun, s[pi]));
                    lemma_scan_end(s, pi + 1, CharClass::CommentRun);
                }
            }
            if self.pos < self.input.len() && self.input[self.pos] == '<' {
                self.pos = self.pos + 1;
                if self.pos < self.input.len() && self.input[self.pos] == '!' {
                    self.pos = self.pos + 1;
                    if self.pos < self.input.len() && self.input[self.pos] == '-' {
                        self.pos = self.pos + 1;
                        if self.pos < self.input.len() && self.input[self.pos] == '-' {
                            self.consume_while(CharClass::NotChar('>'));
                            proof {
                                reveal_strlit("");
                            }
                            return Node::new(NodeType::Comment(String::new()), Vec::new());
                        } else {
                            content.append("<!-");
                            proof {
                                reveal_strlit("<!-");
                                assert(content@ =~= acc1 + seq!['<', '!', '-']);
                            }
                        }
                    } else if self.pos < self.input.len() && self.input[self.pos] == ' ' {
                        self.pos = self.pos + 1;
                        if self.pos < self.input.len() && self.input[self.pos] == '-' {
                            self.pos = self.pos + 1;
                            if self.pos < self.input.len() && self.input[self.pos] == '-' {
                                self.pos = self.pos + 1;
                                if self.pos < self.input.len() && self.input[self.pos] == '-' {
                                    self.pos = self.pos + 1;
                                    if self.pos < self.input.len() && self.input[self.pos] == '>' {
                                        self.pos = self.pos + 1;
                                        return Node::new(
                                            NodeType::Comment(String::new()),
                                            Vec::new(),
                                        );
                                    } else {
                                        content.append("<! --");
                                        proof {
                                            reveal_strlit("<! --");
                                            assert(content@ =~= acc1 + seq![
                                                '<',
                                                '!',
                                                ' ',
                                                '-',
                                                '-',
                                            ]);
                                        }
                                    }
                                } else {
                                    content.append("<! -");
                                    proof {
                                        reveal_strlit("<! -");
                                        assert(content@ =~= acc1 + seq!['<', '!', ' ', '-']);
                                    }
                                }
                            } else {
                                content.append("<! ");
                                proof {
                                    reveal_strlit("<! ");
                                    assert(content@ =~= acc1 + seq!['<', '!', ' ']);
                                }
                            }
                        }
                    } else {
                        content.append("<!");
                        proof {
                            reveal_strlit("<!");
                            assert(content@ =~= acc1 + seq!['<', '!']);
                        }
                    }
                } else {
                    content.push('<');
                }
            } else if self.pos < self.input.len() && self.input[self.pos] == '-' {
                self.pos = self.pos + 1;
                if self.pos < self.input.len() && self.input[self.pos] == '-' {
                    self.pos = self.pos + 1;
                    if self.pos < self.input.len() && self.input[self.pos] == '>' {
                        self.pos = self.pos + 1;
                        return Node::new(NodeType::Comment(content), Vec::new());
                    } else {
                        content.append("--");
                        proof {
                            reveal_strlit("--");
                            assert(content@ =~= acc1 + seq!['-', '-']);
                        }
                    }
                } else {
                    content.push('-');
                }
            }
        }
        Node::new(NodeType::Comment(content), Vec::new())
    }
}

// ---------------------------------------------------------------------------
// Round-trip shape
// ---------------------------------------------------------------------------
/// A well-formed element tree: a nonempty alphanumeric tag name, no
/// attributes, and well-formed element children.
pub open spec fn wf_element(n: NodeV) -> bool
    decreases n, 0int,
{
    match n.node_type {
        NodeTypeV::Element(e) => {
            &&& e.tag_name.len() > 0
            &&& (forall|j: int| 0 <= j < e.tag_name.len() ==> is_tag_name_char(#[trigger] e.tag_name[j]))
            &&& e.attributes.len() == 0
            &&& wf_element_forest(n.children, 0)
        },
        _ => false,
    }
}

pub open spec fn wf_element_forest(ns: Seq<NodeV>, i: int) -> bool
    decreases ns, ns.len() - i,
{
    if !(0 <= i < ns.len()) {
        true
    } else {
        wf_element(ns[i]) && wf_element_forest(ns, i + 1)
    }
}

/// The markup text an element tree writes: an open tag, the children, a
/// close tag.
pub open spec fn write_element(n: NodeV) -> Seq<char>
    decreases n, 0int,
{
    match n.node_type {
        NodeTypeV::Element(e) => seq!['<'] + e.tag_name + seq!['>'] + write_forest(n.children, 0)
            + seq!['<', '/'] + e.tag_name + seq!['>'],
        _ => Seq::empty(),
    }
}

pub open spec fn write_forest(ns: Seq<NodeV>, i: int) -> Seq<char>
    decreases ns, ns.len() - i,
{
    if !(0 <= i < ns.len()) {
        Seq::empty()
    } else {
        write_element(ns[i]) + write_forest(ns, i + 1)
    }
}

/// Parsing a well-formed element's markup from position `i` consumes
/// exactly that markup, appends exactly that element, and leaves the
/// close-tag queue empty.
proof fn lemma_parse_written_element(n: NodeV, s: Seq<char>, i: int, acc: Seq<NodeV>)
    requires
        wf_element(n),
        0 <= i,
        i + write_element(n).len() <= s.len(),
        s.subrange(i, i + write_element(n).len() as int) == write_element(n),
    ensures
        nodes_at(s, i, Seq::empty(), acc) == nodes_at(
            s,
            i + write_element(n).len() as int,
            Seq::empty(),
            acc.push(n),
        ),
    decreases n, 0int,
{
    let e = n.node_type->Element_0;
    let tag = e.tag_name;
    let tl = tag.len() as int;
    let body = write_forest(n.children, 0);
    let lc = body.len() as int;
    let w = write_element(n);
    let wl = w.len() as int;
    assert(wl == tl + lc + tl + 5);
    assert forall|k: int| 0 <= k < wl implies s[i + k] == #[trigger] w[k] by {
        assert(s.subrange(i, i + wl)[k] == s[i + k]);
    }
    // The characters of the open tag, the body, and the close tag.
    assert(s[i] == '<') by {
        assert(w[0] == '<');
        assert(s[i + 0] == w[0]);
    }
    assert forall|k: int| 0 <= k < tl implies s[i + 1 + k] == #[trigger] tag[k] by {
        assert(w[1 + k] == tag[k]);
        assert(s[i + (1 + k)] == w[1 + k]);
    }
    assert(s[i + 1 + tl] == '>') by {
        assert(w[1 + tl] == '>');
        assert(s[i + (1 + tl)] == w[1 + tl]);
    }
    let ct = i + 2 + tl;
    assert forall|k: int| 0 <= k < lc implies s[ct + k] == #[trigger] body[k] by {
        assert(w[2 + tl + k] == body[k]);
        assert(s[i + (2 + tl + k)] == w[2 + tl + k]);
    }
    let m = ct + lc;
    assert(s[m] == '<') by {
        assert(w[2 + tl + lc] == '<');
        assert(s[i + (2 + tl + lc)] == w[2 + tl + lc]);
    }
    assert(s[m + 1] == '/') by {
        assert(w[3 + tl + lc] == '/');
        assert(s[i + (3 + tl + lc)] == w[3 + tl + lc]);
    }
    assert forall|k: int| 0 <= k < tl implies s[m + 2 + k] == #[trigger] tag[k] by {
        assert(w[4 + tl + lc + k] == tag[k]);
        assert(s[i + (4 + tl + lc + k)] == w[4 + tl + lc + k]);
    }
    assert(s[m + 2 + tl] == '>') by {
        assert(w[4 + tl + lc + tl] == '>');
        assert(s[i + (4 + tl + lc + tl)] == w[4 + tl + lc + tl]);
    }
    // The outer step: no whitespace is skipped, and an element begins.
    lemma_scan_end_eq(s, i, i, CharClass::Space);
    assert(is_tag_name_char(tag[0]));
    assert(s[i + 1] == tag[0]) by {
        assert(s[i + 1 + 0] == tag[0]);
    }
    // Inside the element: the tag name scan stops at `>`.
    assert forall|j: int| i + 1 <= j < i + 1 + tl implies class_holds(
        CharClass::TagName,
        s[j],
    ) by {
        let k = j - (i + 1);
        assert(s[i + 1 + k] == tag[k]);
        assert(is_tag_name_char(tag[k]));
    }
    lemma_scan_end_eq(s, i + 1, i + 1 + tl, CharClass::TagName);
    assert(s.subrange(i + 1, i + 1 + tl) =~= tag);
    // The attribute list is empty and consumes the `>`.
    assert(attrs_at(s, i + 1 + tl, Seq::empty()) == (AttrsOut {
        attrs: Seq::empty(),
        end: ct,
    }));
    assert(clamp_pos(ct, i + 1, s.len() as int) == ct);
    // The children parse to themselves.
    assert forall|k: int| 0 <= k < lc implies s.subrange(ct, ct + lc)[k] == #[trigger] body[k] by {
        assert(s[ct + k] == body[k]);
    }
    assert(s.subrange(ct, ct + lc) =~= body);
    lemma_parse_written_forest(n.children, 0, s, ct, Seq::empty());
    assert(Seq::<NodeV>::empty() + n.children.subrange(0, n.children.len() as int)
        =~= n.children);
    assert(nodes_at(s, ct, Seq::empty(), Seq::empty()) == nodes_at(
        s,
        m,
        Seq::empty(),
        n.children,
    ));
    // The close tag ends the child list and queues the tag name.
    lemma_scan_end_eq(s, m, m, CharClass::Space);
    lemma_scan_end_eq(s, m + 2, m + 2, CharClass::Space);
    assert forall|j: int| m + 2 <= j < m + 2 + tl implies class_holds(
        CharClass::TagName,
        s[j],
    ) by {
        let k = j - (m + 2);
        assert(s[m + 2 + k] == tag[k]);
        assert(is_tag_name_char(tag[k]));
    }
    lemma_scan_end_eq(s, m + 2, m + 2 + tl, CharClass::TagName);
    assert(s.subrange(m + 2, m + 2 + tl) =~= tag);
    lemma_scan_end_eq(s, m + 2 + tl, m + 2 + tl, CharClass::NotChar('>'));
    assert(nodes_at(s, m, Seq::empty(), n.children) == (NodesOut {
        nodes: n.children,
        end: i + wl,
        q: Seq::<Seq<char>>::empty().push(tag),
    }));
    // The parsed element is the written one.
    let no = node_at(s, i + 1, Seq::empty());
    assert(e.attributes =~= Seq::<(Seq<char>, Seq<char>)>::empty());
    assert(no.node == n);
    // The queued close tag matches, so the element is kept as parsed.
    assert(no.q == Seq::<Seq<char>>::empty().push(tag));
    assert(no.q[0] == tag);
    assert(no.q.drop_first() =~= Seq::<Seq<char>>::empty());
    assert(clamp_pos(no.end, i + 1, s.len() as int) == i + wl);
}

/// Parsing a well-formed forest's markup consumes exactly that markup and
/// appends exactly those elements.
proof fn lemma_parse_written_forest(ns: Seq<NodeV>, i: int, s: Seq<char>, at: int, acc: Seq<NodeV>)
    requires
        wf_element_forest(ns, i),
        0 <= i <= ns.len(),
        0 <= at,
        at + write_forest(ns, i).len() <= s.len(),
        s.subrange(at, at + write_forest(ns, i).len() as int) == write_forest(ns, i),
    ensures
        nodes_at(s, at, Seq::empty(), acc) == nodes_at(
            s,
            at + write_forest(ns, i).len() as int,
            Seq::empty(),
            acc + ns.subrange(i, ns.len() as int),
        ),
    decreases ns, ns.len() - i,
{
    if i >= ns.len() {
        assert(acc + ns.subrange(i, ns.len() as int) =~= acc);
    } else {
        let w0 = write_element(ns[i]);
        let rest = write_forest(ns, i + 1);
        let w = write_forest(ns, i);
        let wl = w.len() as int;
        let l0 = w0.len() as int;
        let lr = rest.len() as int;
        assert(wl == l0 + lr);
        assert forall|k: int| 0 <= k < wl implies s[at + k] == #[trigger] w[k] by {
            assert(s.subrange(at, at + wl)[k] == s[at + k]);
        }
        assert forall|k: int| 0 <= k < l0 implies s.subrange(at, at + l0)[k] == #[trigger] w0[k] by {
            assert(w[k] == w0[k]);
            assert(s[at + k] == w[k]);
        }
        assert(s.subrange(at, at + l0) =~= w0);
        lemma_parse_written_element(ns[i], s, at, acc);
        assert forall|k: int| 0 <= k < lr implies s.subrange(at + l0, at + l0 + lr)[k]
            == #[trigger] rest[k] by {
            assert(w[l0 + k] == rest[k]);
            assert(s[at + (l0 + k)] == w[l0 + k]);
        }
        assert(s.subrange(at + l0, at + l0 + lr) =~= rest);
        lemma_parse_written_forest(ns, i + 1, s, at + l0, acc.push(ns[i]));
        assert(acc.push(ns[i]) + ns.subrange(i + 1, ns.len() as int) =~= acc + ns.subrange(
            i,
            ns.len() as int,
        ));
    }
}

/// Law of round-trip shape: a forest of well-formed elements — nonempty
/// alphanumeric tag names, no attributes, element children only — written
/// out with explicit close tags parses back to exactly itself: the
/// nesting matches, nothing is spliced in or out, and no close tag is
/// left pending.
pub proof fn lemma_round_trip_shape(ns: Seq<NodeV>)
    requires
        wf_element_forest(ns, 0),
    ensures
        nodes_at(write_forest(ns, 0), 0, Seq::empty(), Seq::empty()) == (NodesOut {
            nodes: ns,
            end: write_forest(ns, 0).len() as int,
            q: Seq::empty(),
        }),
{
    let s = write_forest(ns, 0);
    assert(s.subrange(0, s.len() as int) =~= s);
    lemma_parse_written_forest(ns, 0, s, 0, Seq::empty());
    assert(Seq::<NodeV>::empty() + ns.subrange(0, ns.len() as int) =~= ns);
}

} // verus!
