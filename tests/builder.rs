use sabry::builder::{BuildPhase, SabryBuildError, SabryBuilder, ScopeSource};
use sabry::compiler::{CompilerAdapter, SabryCompilerError};
use sabry::config::{BehavHashCollision, BehavSassModCollision, SabryConfig, SabryLightTargets};
use sabry::syntax::OneSyntaxToRuleThemAll;

fn config() -> SabryConfig {
    let mut c = SabryConfig::default();
    c.css.minify = false;
    c
}

#[test]
fn bundle_repeats_prelude_before_each_scope() {
    let mut b = SabryBuilder::new(config());
    b.add_css_prelude("P".into());
    b.finish_compile(vec![], vec![]).unwrap();
    b.state.loaded_css_modules.push(("one".into(), "X".into()));
    b.state.loaded_css_modules.push(("two".into(), "Y".into()));
    assert_eq!(b.bundle(), "PXPY");
}

#[test]
fn bundle_of_nothing_is_empty() {
    let mut b = SabryBuilder::new(config());
    b.add_css_prelude("P".into());
    b.finish_compile(vec![], vec![]).unwrap();
    assert_eq!(b.state.css_prelude, "P");
    assert_eq!(b.bundle(), "");
}

#[test]
fn scope_files_are_named_by_scope() {
    let mut b = SabryBuilder::new(config());
    b.state.loaded_css_modules.push(("card".into(), ".a{}".into()));
    let files = b.scope_files("out/scopes");
    assert_eq!(files, vec![("out/scopes/card.css".to_string(), ".a{}".to_string())]);
}

#[test]
fn merge_policy_accumulates_in_order() {
    let mut b = SabryBuilder::new(config());
    let first = b.load_side_module("m".into(), "a".into()).unwrap();
    assert!(first.fresh);
    assert_eq!(first.chunk, "\na\n");
    let second = b.load_side_module("m".into(), "b".into()).unwrap();
    assert!(!second.fresh);
    assert_eq!(b.state.side_modules.len(), 1);
    assert_eq!(b.state.side_modules[0].1, "\na\n\nb\n");
}

#[test]
fn error_policy_refuses_second_load() {
    let mut c = config();
    c.sass.module_name_collision = BehavSassModCollision::Error;
    let mut b = SabryBuilder::new(c);
    b.load_side_module("m".into(), "a".into()).unwrap();
    let r = b.load_side_module("m".into(), "b".into());
    assert!(matches!(r, Err(SabryBuildError::ModuleCollision { ref module }) if module == "m"));
    assert_eq!(b.state.side_modules[0].1, "\na\n");
}

fn twin_scopes(b: &mut SabryBuilder) {
    for _ in 0..2 {
        b.add_scope(ScopeSource {
            name: "twin".into(),
            syntax: OneSyntaxToRuleThemAll::Scss,
            code: ".a{color:red;}".into(),
        });
    }
}

#[test]
fn hash_collision_fails_under_error() {
    let mut c = config();
    c.hash.collision = BehavHashCollision::Error;
    let mut b = SabryBuilder::new(c);
    twin_scopes(&mut b);
    let r = b.prepare_scopes();
    assert!(matches!(
        r,
        Err(SabryBuildError::HashCollision { ref scope, ref other }) if scope == "twin" && other == "twin"
    ));
    assert!(b.state.loaded_css_modules.is_empty());
}

fn grass_compile(syntax: OneSyntaxToRuleThemAll, code: &str) -> String {
    let syntax = match syntax {
        OneSyntaxToRuleThemAll::Sass => grass::InputSyntax::Sass,
        OneSyntaxToRuleThemAll::Scss => grass::InputSyntax::Scss,
    };
    grass::from_string(code, &grass::Options::default().input_syntax(syntax)).unwrap()
}

#[test]
fn hash_collision_ignored_emits_both() {
    let mut b = SabryBuilder::new(config());
    twin_scopes(&mut b);
    let jobs = b.prepare_scopes().unwrap();
    assert_eq!(jobs.len(), 2);
    let css: Vec<String> = jobs.iter().map(|j| grass_compile(j.syntax, &j.code)).collect();
    b.finish_compile(css, vec![]).unwrap();
    assert_eq!(b.state.loaded_css_modules.len(), 2);
    assert_eq!(b.state.loaded_css_modules[0].0, "twin");
    assert_eq!(b.state.loaded_css_modules[1].0, "twin");
    assert!(b.state.loaded_css_modules[0].1.contains("color"));
}

#[test]
fn prepared_job_is_the_rewritten_scope() {
    let mut b = SabryBuilder::new(config());
    b.add_scope(ScopeSource { name: "s".into(), syntax: OneSyntaxToRuleThemAll::Scss, code: ".a{color:red;}".into() });
    let jobs = b.prepare_scopes().unwrap();
    assert!(b.state.known_scope_hashes.is_empty());
    assert!(jobs[0].code.starts_with('.'));
    assert!(jobs[0].code.ends_with(".a{color:red;}"));
    assert_ne!(jobs[0].code, ".a{color:red;}");
}

#[test]
fn finish_compile_passes_css_through_lightningcss() {
    let mut b = SabryBuilder::new(config());
    b.add_scope(ScopeSource { name: "s".into(), syntax: OneSyntaxToRuleThemAll::Scss, code: ".a{}".into() });
    let css = grass_compile(OneSyntaxToRuleThemAll::Scss, "$c: red; .a { b { color: $c; } }");
    b.finish_compile(vec![css], vec![]).unwrap();
    let out = &b.state.loaded_css_modules[0].1;
    assert!(out.contains(".a b") && out.contains("color: red"));
}

#[test]
fn finish_compile_refuses_wrong_counts() {
    let mut b = SabryBuilder::new(config());
    b.add_scope(ScopeSource { name: "s".into(), syntax: OneSyntaxToRuleThemAll::Scss, code: ".a{}".into() });
    assert!(matches!(b.finish_compile(vec![], vec![]), Err(SabryBuildError::Another(_))));
    let r = b.finish_compile(vec![".a{}".into()], vec![".p{}".into()]);
    assert!(matches!(r, Err(SabryBuildError::Another(_))));
    assert!(b.state.loaded_css_modules.is_empty());
}

#[test]
fn bad_browser_version_is_reported() {
    let mut c = config();
    c.lightningcss.targets.safari = Some("13.x".into());
    let adapter = CompilerAdapter::new(c);
    let r = adapter.lightningcss(".a{color:red}");
    assert!(matches!(r, Err(SabryCompilerError::Targets(ref v)) if v == "13.x"));
}

#[test]
fn parse_ver_codes() {
    assert_eq!(SabryLightTargets::parse_ver("13.2"), (13 << 16) | (2 << 8));
    assert_eq!(SabryLightTargets::parse_ver("10"), 10 << 16);
    assert_eq!(SabryLightTargets::parse_ver("1.2.3"), 66051);
    assert_eq!(SabryLightTargets::try_parse_ver("1.2.3.4"), None);
    assert_eq!(SabryLightTargets::try_parse_ver("x"), None);
    assert_eq!(SabryLightTargets::try_parse_ver(""), None);
    assert_eq!(SabryLightTargets::try_parse_ver("1..2"), None);
    assert_eq!(SabryLightTargets::try_parse_ver("4294967296"), None);
    assert_eq!(SabryLightTargets::try_parse_ver("+5"), Some(5 << 16));
}

#[test]
fn syntax_names() {
    assert_eq!(OneSyntaxToRuleThemAll::try_from_name("sass"), Ok(OneSyntaxToRuleThemAll::Sass));
    assert_eq!(OneSyntaxToRuleThemAll::try_from_name("scss"), Ok(OneSyntaxToRuleThemAll::Scss));
    assert_eq!(OneSyntaxToRuleThemAll::try_from_name("less"), Err(()));
    assert_eq!(OneSyntaxToRuleThemAll::default(), OneSyntaxToRuleThemAll::Scss);
    assert_eq!(OneSyntaxToRuleThemAll::Sass.name(), "sass");
}

#[test]
fn config_defaults() {
    let c = SabryConfig::default();
    assert_eq!(c.sass.scanroot, "src");
    assert_eq!(c.sass.intermediate_dir, "target/.sabry/sass");
    assert_eq!(c.sass.module_name_collision, BehavSassModCollision::Merge);
    assert_eq!(c.hash.collision, BehavHashCollision::Ignore);
    assert!(c.css.minify);
    assert!(c.css.bundle.is_none());
}

#[test]
fn build_phases_advance_in_order() {
    let mut p = BuildPhase::Init;
    let order = [
        BuildPhase::PreludesLoaded,
        BuildPhase::ScopesDiscovered,
        BuildPhase::Compiled,
        BuildPhase::OutputWritten,
    ];
    for expected in order {
        p = p.advance(true);
        assert_eq!(p, expected);
    }
    assert_eq!(p.advance(false), BuildPhase::OutputWritten);
    assert_eq!(BuildPhase::ScopesDiscovered.advance(false), BuildPhase::Aborted);
    assert_eq!(BuildPhase::Aborted.advance(true), BuildPhase::Aborted);
}

#[test]
fn compiled_preludes_come_before_raw_css() {
    let mut b = SabryBuilder::new(config());
    b.add_css_prelude("/*raw*/".into());
    b.add_sass_prelude(sabry::builder::SassPreludeModule {
        syntax: OneSyntaxToRuleThemAll::Scss,
        code: ".p { color: red; }".into(),
    });
    let pre = grass_compile(OneSyntaxToRuleThemAll::Scss, &b.state.sass_prelude[0].code);
    b.finish_compile(vec![], vec![pre]).unwrap();
    assert!(b.state.css_prelude.ends_with("/*raw*/"));
    assert!(b.state.css_prelude.starts_with(".p"));
}

#[test]
fn syntax_error_stops_before_compiling() {
    let mut b = SabryBuilder::new(config());
    b.add_scope(ScopeSource { name: "ok".into(), syntax: OneSyntaxToRuleThemAll::Scss, code: ".a{}".into() });
    b.add_scope(ScopeSource { name: "bad".into(), syntax: OneSyntaxToRuleThemAll::Scss, code: ".a{".into() });
    assert!(matches!(b.prepare_scopes(), Err(SabryBuildError::SyntaxError(_))));
    assert!(b.state.loaded_css_modules.is_empty());
}

#[test]
fn minified_transform() {
    let mut c = config();
    c.css.minify = true;
    let adapter = CompilerAdapter::new(c);
    assert_eq!(adapter.lightningcss(".a {\n  color: red;\n}\n").unwrap(), ".a{color:red}");
    let plain = CompilerAdapter::new(config());
    assert!(plain.lightningcss(".a{color:red}").unwrap().contains("color: red"));
}
