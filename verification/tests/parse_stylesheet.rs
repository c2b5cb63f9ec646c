use browser_engine::css::{Color, Declaration, Rule, Selector, SimpleSelector, Stylesheet, Unit, Value};
use browser_engine::css_parser::CssParser;

fn parse(s: &str) -> Stylesheet {
    CssParser::new(s).parse_stylesheet()
}

#[test]
fn simple_rule() {
    let sheet = parse("div.foo { color: red }");
    assert_eq!(sheet.rules.len(), 1);
    let rule = &sheet.rules[0];
    assert_eq!(rule.selectors.len(), 1);
    let sel = &rule.selectors[0];
    assert_eq!(sel.simple.len(), 1);
    assert_eq!(sel.simple[0].tag_name.as_deref(), Some("div"));
    assert_eq!(sel.simple[0].classes, vec!["foo".to_string()]);
    assert_eq!(rule.declarations.len(), 1);
    assert_eq!(rule.declarations[0].property, "color");
    assert_eq!(
        rule.declarations[0].value,
        Value::Color(Color::new(255, 0, 0, 255))
    );
}

#[test]
fn id_and_universal_selectors() {
    let sheet = parse("#main, * { display: block; }");
    let rule = &sheet.rules[0];
    assert_eq!(rule.selectors.len(), 2);
    assert_eq!(rule.selectors[0].simple[0].id.as_deref(), Some("main"));
    assert_eq!(rule.selectors[1].simple[0].tag_name, None);
}

#[test]
fn combinators_are_captured() {
    let sheet = parse("div > p { color: blue }");
    let sel = &sheet.rules[0].selectors[0];
    assert_eq!(sel.simple.len(), 2);
    assert_eq!(sel.combinators, vec!['>']);
}

#[test]
fn pixel_length_exact_value() {
    // 12.5px is stored as 12500 thousandths of a pixel.
    let sheet = parse("p { width: 12.5px; }");
    assert_eq!(
        sheet.rules[0].declarations[0].value,
        Value::Length(12_500, Unit::Px)
    );
}

#[test]
fn percent_and_negative_lengths() {
    let sheet = parse("p { width: 10%; margin-left: -4px; }");
    assert_eq!(
        sheet.rules[0].declarations[0].value,
        Value::Length(10_000, Unit::Pct)
    );
    assert_eq!(
        sheet.rules[0].declarations[1].value,
        Value::Length(-4_000, Unit::Px)
    );
}

#[test]
fn all_unit_tokens() {
    let sheet = parse(
        "p { a: 1em; b: 1ex; c: 1ch; d: 1rem; e: 1vh; f: 1vw; g: 1vmin; h: 1vmax; i: 1px; j: 1mm; k: 1q; l: 1cm; m: 1in; n: 1pt; o: 1pc; q: 1%; }",
    );
    let units = [
        Unit::Em,
        Unit::Ex,
        Unit::Ch,
        Unit::Rem,
        Unit::Vh,
        Unit::Vw,
        Unit::Vmin,
        Unit::Vmax,
        Unit::Px,
        Unit::Mm,
        Unit::Q,
        Unit::Cm,
        Unit::In,
        Unit::Pt,
        Unit::Pc,
        Unit::Pct,
    ];
    let decls = &sheet.rules[0].declarations;
    assert_eq!(decls.len(), units.len());
    for (d, u) in decls.iter().zip(units.iter()) {
        assert_eq!(d.value, Value::Length(1_000, *u));
    }
}

#[test]
fn unknown_values_degrade_to_other() {
    let sheet = parse("p { display: block; foo: bar baz; size: 10; }");
    let decls = &sheet.rules[0].declarations;
    assert_eq!(decls[0].value, Value::Other("block".to_string()));
    assert_eq!(decls[1].value, Value::Other("bar baz".to_string()));
    // A bare number with no unit stays uninterpreted text.
    assert_eq!(decls[2].value, Value::Other("10".to_string()));
}

#[test]
fn hex_colors() {
    let sheet = parse("p { a: #102030; b: #10203040; c: #fff; }");
    let decls = &sheet.rules[0].declarations;
    assert_eq!(decls[0].value, Value::Color(Color::new(16, 32, 48, 255)));
    assert_eq!(decls[1].value, Value::Color(Color::new(16, 32, 48, 64)));
    assert_eq!(decls[2].value, Value::Color(Color::new(255, 255, 255, 255)));
}

#[test]
fn named_colors() {
    let sheet = parse("p { a: lime; b: navy; c: orange; }");
    let decls = &sheet.rules[0].declarations;
    assert_eq!(decls[0].value, Value::Color(Color::new(0, 255, 0, 255)));
    assert_eq!(decls[1].value, Value::Color(Color::new(0, 0, 128, 255)));
    assert_eq!(decls[2].value, Value::Color(Color::new(255, 165, 0, 255)));
}

#[test]
fn junk_never_fails() {
    let sheet = parse("@@ ??? { ;;; } div { color: red }");
    assert_eq!(sheet.rules.len(), 2);
    let rule = &sheet.rules[1];
    assert_eq!(rule.selectors[0].simple[0].tag_name.as_deref(), Some("div"));
    assert_eq!(
        rule.declarations[0].value,
        Value::Color(Color::new(255, 0, 0, 255))
    );
}

#[test]
fn missing_semicolon_before_brace() {
    let sheet = parse("p { color: red }\nq { color: blue }");
    assert_eq!(sheet.rules.len(), 2);
    assert_eq!(sheet.rules[0].declarations.len(), 1);
    assert_eq!(sheet.rules[1].declarations.len(), 1);
}

#[test]
fn empty_stylesheet() {
    let sheet = parse("   \n  ");
    assert!(sheet.rules.is_empty());
}

#[test]
fn default_values() {
    assert_eq!(Color::default(), Color::new(255, 255, 255, 255));
    assert!(Stylesheet::default().rules.is_empty());
    let rule = Rule::default();
    assert!(rule.selectors.is_empty() && rule.declarations.is_empty());
    let sel = Selector::default();
    assert!(sel.simple.is_empty() && sel.combinators.is_empty());
    let simple = SimpleSelector::default();
    assert!(simple.tag_name.is_none() && simple.id.is_none() && simple.classes.is_empty());
    let _ = Declaration::new("color".to_string(), Value::Other("red".to_string()));
}

#[test]
fn constructors_keep_their_parts() {
    let simple = SimpleSelector::new(Some("div".to_string()), None, vec!["foo".to_string()]);
    let selector = Selector::new(vec![simple], vec!['>']);
    let decl = Declaration::new("color".to_string(), Value::Color(Color::new(1, 2, 3, 4)));
    let rule = Rule::new(vec![selector], vec![decl]);
    let sheet = Stylesheet::new(vec![rule]);
    assert_eq!(sheet.rules.len(), 1);
    assert_eq!(sheet.rules[0].selectors[0].combinators, vec!['>']);
    assert_eq!(sheet.rules[0].declarations[0].property, "color");
}
