use std::collections::HashSet;

use sabry::config::SabryHashConfig;
use sabry::hash::ScopeHash;
use sabry::sanitize::apply_basic_rusty_member_gen_rules;
use sabry::scoper::{
    nest, splice, ArbitraryScope, HashedScope, HashedSelector, ScopeError, ScopedSelector,
    ScopingMode,
};
use sabry::syntax::{OneSyntaxToRuleThemAll, Simple, Span, StylesheetAdapter};

fn scss_scope(name: &str, code: &str) -> ArbitraryScope {
    ArbitraryScope::from_source(OneSyntaxToRuleThemAll::Scss, name.to_string(), code).unwrap()
}

#[test]
fn hash_matches() {
    let source = ".cls1{color:red; &-dark{color: black} #id1 {color:green;} div {color:blue;}} .cls3#id2{color: black;}";

    let scope1 = scss_scope("lasifudm", source);
    let hash1 = ScopeHash::new(&scope1, &SabryHashConfig::default());

    let scope2 = scss_scope("lasifudm", source);
    let hash2 = ScopeHash::new(&scope2, &SabryHashConfig::default());

    assert_eq!(hash1, hash2);
}

#[test]
fn scope_hash_codegen() {
    let code =
        ".cls1{color:red; &-dark{color: black;} #id1 {color:green;} div {color:blue;}} .cls3#id2{color: black;}";
    let hash = ScopeHash::test_init("F2kf8nMs".into());

    let expect_code = ".F2kf8nMs.cls1{color:red; &-dark{color: black;} #F2kf8nMs-id1 {color:green;} .F2kf8nMs div {color:blue;}} .F2kf8nMs.cls3#F2kf8nMs-id2{color: black;}";
    let expect_selector_htmls = HashSet::from([
        "F2kf8nMs cls1".to_string(),
        "F2kf8nMs-id1".to_string(),
        "F2kf8nMs cls3".to_string(),
        "F2kf8nMs-id2".to_string(),
        "".to_string(),
    ]);

    let scope = scss_scope("scope1", code);
    let scope = HashedScope::new(hash, scope, ScopingMode::Composition).unwrap();
    let scope_selector_htmls = scope
        .hashed_selectors
        .iter()
        .map(|hs| hs.html_ident.clone().unwrap_or_default())
        .collect::<HashSet<_>>();

    assert_eq!(code, scope.original_scope.adapter().source());
    assert_eq!(expect_code, scope.hashed_code);
    assert_eq!(expect_selector_htmls, scope_selector_htmls);
}

#[test]
fn rusty_idents() {
    let code = "
.cls-1{
    color:red;
    &-dark{
        color: black;
    }
    #id-1 {
        color:green;
    }
    .-txt-of {
        color:blue;
    }
}
.-c_ls3#4id{
    color: black;
}";
    let expect_ident_names = HashSet::from([
        "cls1".to_string(),
        "theid1".to_string(),
        "c_ls3".to_string(),
        "then4id".to_string(),
        "txtOf".to_string(),
    ]);

    let hash_cfg = SabryHashConfig::default();
    let scope = scss_scope("scope2oiej", code)
        .hashed(&hash_cfg, ScopingMode::Composition)
        .unwrap();

    let sels = scope
        .hashed_selectors
        .iter()
        .filter_map(|s| s.sel.gen_rusty_ident())
        .collect::<HashSet<_>>();

    assert_eq!(expect_ident_names, sels);
}

fn literal_names(v: &[&Simple]) -> HashSet<String> {
    v.iter()
        .filter_map(|s| match s {
            Simple::Class(Some(i)) | Simple::Id(Some(i)) | Simple::Tag(Some(i)) => {
                Some(i.raw.clone())
            }
            _ => None,
        })
        .collect()
}

#[test]
fn sels() {
    let source_scss = "
.r1{
  .r2.r3 {
    color: red;
  }
  &-rod {
    color: red;
    &[value] {
      color: red;
    }
  }
}
div#id2 {
  & > span.seled {
    color: red;
    & + ul#id2[attr] {
      color: red;
    }
    & + .uled[attr] {
      color: red;
    }
  }
  &::after{
    color: red;
  }
}
        ";
    let source_sass = "
.r1
    .r2.r3
        color: red
    &-rod
        color: red
        &[value]
            color: red
div#id2
    & > span.seled
        color: red
        & + ul#id2[attr]
            color: red
        & + .uled[attr]
            color: red
    &::after
        color: red
        ";
    let expect_classes: HashSet<String> =
        ["r2", "r3", "r1", "uled", "seled"].iter().map(|s| s.to_string()).collect();
    let expect_ids: HashSet<String> = ["id2", "id2"].iter().map(|s| s.to_string()).collect();
    let expect_tags: HashSet<String> = ["ul", "div", "span"].iter().map(|s| s.to_string()).collect();

    let adp = StylesheetAdapter::new(source_scss, OneSyntaxToRuleThemAll::Scss).unwrap();
    assert_eq!(expect_classes, literal_names(&adp.class_selectors()));
    assert_eq!(expect_ids, literal_names(&adp.id_selectors()));
    assert_eq!(expect_tags, literal_names(&adp.type_selectors()));

    let adp = StylesheetAdapter::new(source_sass, OneSyntaxToRuleThemAll::Sass).unwrap();
    assert_eq!(expect_classes, literal_names(&adp.class_selectors()));
    assert_eq!(expect_ids, literal_names(&adp.id_selectors()));
    assert_eq!(expect_tags, literal_names(&adp.type_selectors()));
}

#[test]
fn rename_class() {
    let scss = ".cls1{color:red; .cls2{color:green;}}";
    let newname = "cls203-jg7ihgjhftyfhjh";
    let expect = ".cls1{color:red; .cls203-jg7ihgjhftyfhjh{color:green;}}";

    let adp = StylesheetAdapter::new(scss, OneSyntaxToRuleThemAll::Scss).unwrap();
    let classes = adp.class_selectors();
    let span = match classes[0] {
        Simple::Class(Some(i)) => i.span,
        _ => panic!("first class selector has no literal name"),
    };
    let renamed = format!("{}{}{}", &scss[..span.start], newname, &scss[span.end..]);
    assert_eq!(renamed, expect);
}

#[test]
fn composition_scenario_with_ident_table() {
    let scope = scss_scope("btns", ".btn{color:red;} #id1{color:blue;}");
    let hashed =
        HashedScope::new(ScopeHash::test_init("abcd".into()), scope, ScopingMode::Composition)
            .unwrap();
    assert_eq!(hashed.hashed_code, ".abcd.btn{color:red;} #abcd-id1{color:blue;}");
    let table = hashed.ident_table();
    assert!(table.contains(&("btn".to_string(), "abcd btn".to_string())));
    assert!(table.contains(&("theid1".to_string(), "abcd-id1".to_string())));
    assert_eq!(table.len(), 2);
}

#[test]
fn attachment_mode_appends_hash() {
    let scope = scss_scope("s", ".btn{color:red;} #i{color:blue;} div{color:green;}");
    let hashed =
        HashedScope::new(ScopeHash::test_init("h".into()), scope, ScopingMode::Attachment).unwrap();
    assert_eq!(hashed.hashed_code, ".btn.h{color:red;} #i.h{color:blue;} div.h{color:green;}");
}

#[test]
fn global_modifier_passes_through() {
    let scope = scss_scope("s", ":global(.a) .b{color:red;}");
    let hashed =
        HashedScope::new(ScopeHash::test_init("h".into()), scope, ScopingMode::Composition).unwrap();
    assert_eq!(hashed.hashed_code, ".a .h.b{color:red;}");
}

#[test]
fn global_modifier_with_two_selectors_is_refused() {
    let scope = scss_scope("s", ":global(.a, .b) .c{color:red;}");
    let r = HashedScope::new(ScopeHash::test_init("h".into()), scope, ScopingMode::Composition);
    assert!(matches!(r, Err(ScopeError::UnsupportedGlobal { .. })));
}

#[test]
fn parse_error_is_reported() {
    let r = ArbitraryScope::from_source(OneSyntaxToRuleThemAll::Scss, "s".into(), ".a{color:red;");
    assert!(matches!(r, Err(ScopeError::Parse { .. })));
}

fn class_at(name: &str, start: usize, end: usize, hash: &str) -> HashedSelector {
    let sel = ScopedSelector::Class(sabry::scoper::ArbitrarySelector {
        ident: name.to_string(),
        span: Span { start, end },
    });
    HashedSelector::new(sel, hash, ScopingMode::Composition)
}

#[test]
fn overlapping_spans_are_refused() {
    let v = vec![class_at("abc", 1, 4, "h"), class_at("bc", 2, 4, "h")];
    assert_eq!(splice(".abc{}", &v), None);
    let out_of_source = vec![class_at("abc", 1, 40, "h")];
    assert_eq!(splice(".abc{}", &out_of_source), None);
}

#[test]
fn splice_length_and_gaps() {
    let source = "a .x b .yy c";
    let v = vec![class_at("x", 3, 4, "Q"), class_at("yy", 8, 10, "Q")];
    let out = splice(source, &v).unwrap();
    assert_eq!(out, "a .Q.x b .Q.yy c");
    let removed = 1 + 2;
    let added = "Q.x".len() + "Q.yy".len();
    assert_eq!(out.len(), source.len() - removed + added);
}

#[test]
fn rewrite_keeps_source_and_sorts_selectors() {
    let scope = scss_scope("s", "#b{} .a{}");
    let hashed =
        HashedScope::new(ScopeHash::test_init("Q".into()), scope, ScopingMode::Composition).unwrap();
    assert_eq!(hashed.hashed_code, "#Q-b{} .Q.a{}");
    assert_eq!(hashed.original_scope.adapter().source(), "#b{} .a{}");
    assert_eq!(hashed.hashed_selectors[0].css_ident, "Q-b");
    assert_eq!(hashed.hashed_selectors[1].css_ident, "Q.a");
}

#[test]
fn sanitizer_cases() {
    assert_eq!(apply_basic_rusty_member_gen_rules("cls-1"), "cls1");
    assert_eq!(apply_basic_rusty_member_gen_rules("-txt-of"), "txtOf");
    assert_eq!(apply_basic_rusty_member_gen_rules("4id"), "n4id");
    assert_eq!(apply_basic_rusty_member_gen_rules("a--b"), "aB");
    assert_eq!(apply_basic_rusty_member_gen_rules("%%"), "");
    assert_eq!(apply_basic_rusty_member_gen_rules(""), "");
    assert_eq!(apply_basic_rusty_member_gen_rules("my.class!-x-"), "myclassX");
    assert_eq!(apply_basic_rusty_member_gen_rules("é-5"), "n5");
    assert_eq!(apply_basic_rusty_member_gen_rules("--1"), "n1");
    assert_eq!(apply_basic_rusty_member_gen_rules("-a-1x"), "a1x");
}

#[test]
fn sanitized_output_is_identifier() {
    for input in ["btn-primary", "-a-b-", "9lives", "_under", "x__y", "A-b-C", "--1", "é-5x"] {
        let out = apply_basic_rusty_member_gen_rules(input);
        assert_eq!(apply_basic_rusty_member_gen_rules(&out), out);
        assert!(!out.contains('-'));
        let first = out.chars().next().unwrap();
        assert!(first.is_ascii_alphabetic() || first == '_');
    }
}

#[test]
fn hashed_selector_forms() {
    let class = ScopedSelector::Class(sabry::scoper::ArbitrarySelector {
        ident: "btn".into(),
        span: Span { start: 0, end: 3 },
    });
    let tag = ScopedSelector::Tag(sabry::scoper::ArbitrarySelector {
        ident: "div".into(),
        span: Span { start: 0, end: 3 },
    });
    let hs = HashedSelector::new(class, "abcd", ScopingMode::Composition);
    assert_eq!(hs.css_ident, "abcd.btn");
    assert_eq!(hs.html_ident, Some("abcd btn".to_string()));
    let ht = HashedSelector::new(tag, "abcd", ScopingMode::Composition);
    assert_eq!(ht.css_ident, ".abcd div");
    assert_eq!(ht.html_ident, None);
    assert_eq!(ht.sel.gen_rusty_ident(), Some("anydiv".to_string()));
    assert_eq!(nest("abcd btn", "-dark"), "abcd btn-dark");
}

#[test]
fn arbitrary_style_block_sass() {
    let code = "
    #a
        co: red
    .sel
        co: white
    &-dark
        & > div
            co: blue";
    let expect_code = "
#a
    co: red
.sel
    co: white
&-dark
    & > div
        co: blue";
    assert_eq!(expect_code, sabry::block::dedent(code));
}

#[test]
fn arbitrary_style_block_scss() {
    let code = "
    #a {
        c: r;
    }
    .b.c {
        c: 'into';
    }";
    let expect_code = "
#a {
    c: r;
}
.b.c {
    c: 'into';
}";
    assert_eq!(expect_code, sabry::block::dedent(code));
}

#[test]
fn dedent_edge_cases() {
    assert_eq!(sabry::block::dedent(""), "");
    assert_eq!(sabry::block::dedent("\n   x"), "\n   x");
    assert_eq!(sabry::block::dedent("\n\t\t\t\tx"), "\nx");
    assert_eq!(sabry::block::dedent("a\n        b"), "a\n    b");
}

#[test]
fn nesting_members() {
    let scope = scss_scope("s", ".cls1{color:red; &-dark{color: black;}}");
    let table = scope.nesting_table();
    assert_eq!(table, vec![("_dark".to_string(), "-dark".to_string())]);
    assert_eq!(nest("h cls1", &table[0].1), "h cls1-dark");
}

#[test]
fn dedent_uses_unicode_white_space() {
    for u in 0u32..0x3100 {
        if let Some(c) = char::from_u32(u) {
            let line: String = std::iter::repeat(c).take(4).collect();
            let text = format!("\n{line}x");
            let expect = if c.is_whitespace() { "\nx".to_string() } else { text.clone() };
            assert_eq!(sabry::block::dedent(&text), expect, "char {u:#x}");
        }
    }
}
