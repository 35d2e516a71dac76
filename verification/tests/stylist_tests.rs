use stylist::ast::{BlockContent, StyleAttribute};
use stylist::parser::{parse, ParseError, ParseErrorKind};
use stylist::registry::{sheet_key, RegistryError, StyleManager};
use stylist::render::render;
use stylist::source::StyleSource;

fn parse_ok(text: &str, interps: Vec<String>) -> stylist::ast::Sheet {
    parse(text, &interps).expect("parse should succeed")
}

#[test]
fn test_display_impl() {
    let sheet = parse_ok("display: ${0};", vec!["none".to_string()]);
    let style = StyleSource::from(sheet).into_style();
    let expected_result = format!(
        r#".{cls} {{
    display: none;
}}
"#,
        cls = style.get_class_name()
    );
    assert_eq!(expected_result, style.get_style_str());
}

#[test]
fn scope_substitution() {
    let sheet = parse_ok("{ color: red; }", vec![]);
    assert_eq!(render(&sheet, "c1"), ".c1 {\n    color: red;\n}\n");
}

#[test]
fn bare_declarations_bind_to_scope() {
    let sheet = parse_ok("color: red;", vec![]);
    assert_eq!(render(&sheet, "c1"), ".c1 {\n    color: red;\n}\n");
}

#[test]
fn bare_declaration_run_is_one_block() {
    let sheet = parse_ok("color: red; margin: 0;", vec![]);
    assert_eq!(
        render(&sheet, "c"),
        ".c {\n    color: red;\n    margin: 0;\n}\n"
    );
}

#[test]
fn clause_switching() {
    let sheet = parse_ok(".a { color: red; } .b { color: blue; }", vec![]);
    assert_eq!(
        render(&sheet, "c"),
        ".a {\n    color: red;\n}\n.b {\n    color: blue;\n}\n"
    );
}

#[test]
fn interpolation() {
    let sheet = parse_ok("display: ${0};", vec!["none".to_string()]);
    assert_eq!(render(&sheet, "c"), ".c {\n    display: none;\n}\n");
}

#[test]
fn interpolation_mid_value() {
    let sheet = parse_ok("margin: 0 ${0} 0 ${0};", vec!["auto".to_string()]);
    assert_eq!(render(&sheet, "c"), ".c {\n    margin: 0 auto 0 auto;\n}\n");
}

#[test]
fn order_preservation() {
    let sheet = parse_ok(".r1 { a: 1; } .r2 { a: 2; } .r3 { a: 3; }", vec![]);
    assert_eq!(
        render(&sheet, "c"),
        ".r1 {\n    a: 1;\n}\n.r2 {\n    a: 2;\n}\n.r3 {\n    a: 3;\n}\n"
    );
}

#[test]
fn determinism() {
    let text = ".a { color: ${0}; } @media screen { b: c; }";
    let interps = vec!["red".to_string()];
    let one = render(&parse(text, &interps).unwrap(), "c");
    let two = render(&parse(text, &interps).unwrap(), "c");
    assert_eq!(one, two);
}

#[test]
fn scope_placeholder_in_selector() {
    let sheet = parse_ok("& .item { color: red; }", vec![]);
    assert_eq!(render(&sheet, "c"), ".c .item {\n    color: red;\n}\n");
}

#[test]
fn selector_list_joined_with_commas() {
    let sheet = parse_ok(".a, .b { x: y; }", vec![]);
    assert_eq!(render(&sheet, "c"), ".a, .b {\n    x: y;\n}\n");
}

#[test]
fn at_rule_wraps_nested_context() {
    let sheet = parse_ok("@media screen { color: red; }", vec![]);
    assert_eq!(
        render(&sheet, "c"),
        "@media screen {\n.c {\n    color: red;\n}\n}\n"
    );
}

#[test]
fn at_rule_with_inner_rule() {
    let sheet = parse_ok("@media screen { .a { color: red; } }", vec![]);
    assert_eq!(
        render(&sheet, "c"),
        "@media screen {\n.a {\n    color: red;\n}\n}\n"
    );
}

#[test]
fn nested_rule_reopens_parent_clause() {
    let sheet = parse_ok(".a { color: red; .b { color: blue; } margin: 0; }", vec![]);
    assert_eq!(
        render(&sheet, "c"),
        ".a {\n    color: red;\n}\n.b {\n    color: blue;\n}\n.a {\n    margin: 0;\n}\n"
    );
}

#[test]
fn nested_empty_selector_reuses_parent_condition() {
    let sheet = parse_ok(".a { { color: red; } }", vec![]);
    assert_eq!(render(&sheet, "c"), ".a {\n    color: red;\n}\n");
}

#[test]
fn idempotent_dedup() {
    let mut mgr = StyleManager::new("stylist");
    let s1 = parse_ok(".a { color: red; }", vec![]);
    let s2 = parse_ok(".a { color: red; }", vec![]);
    let s3 = parse_ok(".a { color: red; }", vec![]);

    let (h1, m1) = mgr.register(&s1);
    let mount = m1.expect("first registration mounts");
    let (h2, m2) = mgr.register(&s2);
    assert!(m2.is_none());
    let (h3, m3) = mgr.register(&s3);
    assert!(m3.is_none());
    assert_eq!(h1, h2);
    assert_eq!(h1, h3);

    let class = mgr.get_class_name(h1).unwrap();
    assert_eq!(class, mount.class_name);
    assert_eq!(mgr.get_style_text(h1).unwrap(), mount.css);

    assert!(mgr.unregister(h1).is_none());
    assert!(mgr.unregister(h2).is_none());
    let unmount = mgr.unregister(h3).expect("last unregister unmounts");
    assert_eq!(unmount.class_name, class);
    assert!(mgr.unregister(h1).is_none());
}

#[test]
fn lookup_after_full_unregister_is_not_found() {
    let mut mgr = StyleManager::new("stylist");
    let sheet = parse_ok(".a { color: red; }", vec![]);
    let (h, _mount) = mgr.register(&sheet);
    assert!(mgr.get_class_name(h).is_ok());
    assert!(mgr.unregister(h).is_some());
    assert_eq!(mgr.get_class_name(h), Err(RegistryError::NotFound));
    assert_eq!(mgr.get_style_text(h), Err(RegistryError::NotFound));
}

#[test]
fn distinct_sheets_get_distinct_entries() {
    let mut mgr = StyleManager::new("stylist");
    let a = parse_ok(".a { color: red; }", vec![]);
    let b = parse_ok(".b { color: blue; }", vec![]);
    let (ha, ma) = mgr.register(&a);
    let (hb, mb) = mgr.register(&b);
    assert!(ma.is_some());
    assert!(mb.is_some());
    assert_ne!(ha, hb);
    assert_ne!(
        mgr.get_class_name(ha).unwrap(),
        mgr.get_class_name(hb).unwrap()
    );
}

#[test]
fn content_hash_is_structural() {
    let a = parse_ok(" .a  {  color:  red; } ", vec![]);
    let b = parse_ok(".a { color: red; }", vec![]);
    assert_eq!(sheet_key(&a), sheet_key(&b));
    let c = parse_ok(".a { color: blue; }", vec![]);
    assert_ne!(sheet_key(&a), sheet_key(&c));
}

#[test]
fn class_name_carries_prefix() {
    let mut mgr = StyleManager::new("myprefix");
    let sheet = parse_ok(".a { color: red; }", vec![]);
    let (h, _m) = mgr.register(&sheet);
    let class = mgr.get_class_name(h).unwrap();
    assert!(class.starts_with("myprefix-"));
    assert_eq!(class.len(), "myprefix-".len() + 16);
}

#[test]
fn unterminated_block_error() {
    let r = parse("unterminated {", &vec![]);
    assert_eq!(
        r.unwrap_err().kind,
        ParseErrorKind::UnterminatedBlock
    );
}

#[test]
fn unexpected_token_errors() {
    assert_eq!(
        parse("color red;", &vec![]).unwrap_err().kind,
        ParseErrorKind::UnexpectedToken
    );
    assert_eq!(
        parse("junk", &vec![]).unwrap_err().kind,
        ParseErrorKind::UnexpectedToken
    );
    assert_eq!(
        parse("}", &vec![]).unwrap_err().kind,
        ParseErrorKind::UnexpectedToken
    );
}

#[test]
fn invalid_selector_error() {
    assert_eq!(
        parse(".a, { color: red; }", &vec![]).unwrap_err().kind,
        ParseErrorKind::InvalidSelector
    );
}

#[test]
fn interpolation_index_out_of_range_error() {
    let e = parse("display: ${1};", &vec!["none".to_string()]).unwrap_err();
    assert_eq!(e.kind, ParseErrorKind::InterpolationIndexOutOfRange);
    let e2 = parse("display: ${0};", &vec![]).unwrap_err();
    assert_eq!(e2.kind, ParseErrorKind::InterpolationIndexOutOfRange);
}

#[test]
fn failed_parse_registers_nothing() {
    let mut mgr = StyleManager::new("stylist");
    let before = mgr.get_class_name(stylist::registry::Handle { key: 0 });
    assert_eq!(before, Err(RegistryError::NotFound));
    let r = parse("unterminated {", &vec![]);
    assert!(r.is_err());
    // no sheet exists, so nothing could be registered; the registry is intact
    let after = mgr.get_class_name(stylist::registry::Handle { key: 0 });
    assert_eq!(after, Err(RegistryError::NotFound));
}

#[test]
fn parse_error_carries_position() {
    let e = parse("unterminated {", &vec![]).unwrap_err();
    assert_eq!(e.pos, 14);
    let e2: ParseError = parse("display: ${9};", &vec![]).unwrap_err();
    assert_eq!(e2.pos, 11);
}

#[test]
fn style_source_round_trip() {
    let src = StyleSource::try_from_str(".a { color: red; }").unwrap();
    let sheet = src.into_sheet();
    assert_eq!(render(&sheet, "c"), ".a {\n    color: red;\n}\n");
}

#[test]
fn style_source_rejects_bad_text() {
    let e = StyleSource::try_from_str("unterminated {").unwrap_err();
    assert_eq!(e.kind, ParseErrorKind::UnterminatedBlock);
}

#[test]
fn with_manager_uses_that_manager_prefix() {
    let sheet = parse_ok(".a { color: red; }", vec![]);
    let mgr = StyleManager::new("app");
    let style = StyleSource::from(sheet).with_manager(mgr).into_style();
    assert!(style.get_class_name().starts_with("app-"));
}

#[test]
fn into_style_text_matches_render() {
    let sheet = parse_ok(".a { color: ${0}; }", vec!["red".to_string()]);
    let again = parse_ok(".a { color: ${0}; }", vec!["red".to_string()]);
    let style = StyleSource::from(sheet).into_style();
    let expected = render(&again, style.get_class_name());
    assert_eq!(style.get_style_str(), expected);
}

#[test]
fn block_content_from_attribute() {
    let attr = StyleAttribute {
        name: "color".to_string(),
        value: vec!["red".to_string()],
    };
    let bc = BlockContent::from(attr);
    assert!(matches!(bc, BlockContent::StyleAttr(_)));
}

#[test]
fn clear_removes_all_entries() {
    let mut mgr = StyleManager::new("stylist");
    let sheet = parse_ok(".a { color: red; }", vec![]);
    let (h, _m) = mgr.register(&sheet);
    mgr.clear();
    assert_eq!(mgr.get_class_name(h), Err(RegistryError::NotFound));
}
