use sabry::config::SabryHashConfig;
use sabry::hash::{make_hash_input, ScopeHash};
use sabry::scoper::ArbitraryScope;
use sabry::syntax::OneSyntaxToRuleThemAll;

fn scope(name: &str, code: &str) -> ArbitraryScope {
    ArbitraryScope::from_source(OneSyntaxToRuleThemAll::Scss, name.to_string(), code).unwrap()
}

#[test]
fn hashing_twice_is_identical() {
    let cfg = SabryHashConfig::default();
    let a = ScopeHash::new(&scope("card", ".a{color:red;}"), &cfg);
    let b = ScopeHash::new(&scope("card", ".a{color:red;}"), &cfg);
    assert_eq!(a, b);
    assert!(!a.as_str().is_empty());
    assert!(a.as_str().len() <= 8);
}

#[test]
fn hash_depends_on_enabled_facets() {
    let cfg = SabryHashConfig::default();
    let a = ScopeHash::new(&scope("card", ".a{color:red;}"), &cfg);
    let b = ScopeHash::new(&scope("menu", ".a{color:red;}"), &cfg);
    assert_ne!(a, b);
    let no_name = SabryHashConfig { use_scope_name: false, ..SabryHashConfig::default() };
    let c = ScopeHash::new(&scope("card", ".a{color:red;}"), &no_name);
    let d = ScopeHash::new(&scope("menu", ".b{color:red;}"), &no_name);
    assert_eq!(c, d);
}

#[test]
fn hash_input_layout() {
    let s = scope("ab", ".x{} #y{}");
    let cfg = SabryHashConfig {
        size: 32,
        collision: sabry::config::BehavHashCollision::Ignore,
        use_scope_name: true,
        use_item_names: true,
        use_code_size: true,
        use_code_text: true,
    };
    let input = make_hash_input(&s, &cfg);
    let mut expect: Vec<u8> = b"ab".to_vec();
    expect.extend_from_slice(b".x{} #y{}");
    expect.extend_from_slice(&9u64.to_le_bytes());
    expect.extend_from_slice(b"xy");
    assert_eq!(input, expect);
}

#[test]
fn hash_size_bounds_length() {
    let s = scope("ab", ".x{}");
    let zero = SabryHashConfig { size: 0, ..SabryHashConfig::default() };
    assert_eq!(ScopeHash::new(&s, &zero).as_str(), "");
    let big = SabryHashConfig { size: 1000, ..SabryHashConfig::default() };
    let h = ScopeHash::new(&s, &big);
    assert!(h.as_str().len() >= 30 && h.as_str().len() <= 44);
}

#[test]
fn default_hash_config() {
    let d = SabryHashConfig::default();
    assert_eq!(d.size, 6);
    assert!(d.use_scope_name && d.use_code_size && !d.use_code_text && !d.use_item_names);
}

#[test]
fn hash_is_sanitized_base64_of_cut_digest() {
    let s = scope("card", ".a{color:red;}");
    let cfg = SabryHashConfig::default();
    let input = make_hash_input(&s, &cfg);
    let digest = blake3::hash(&input);
    let encoded = base64::Engine::encode(
        &base64::engine::general_purpose::URL_SAFE_NO_PAD,
        &digest.as_bytes()[..6],
    );
    let expect = sabry::sanitize::apply_basic_rusty_member_gen_rules(&encoded);
    assert_eq!(ScopeHash::new(&s, &cfg).as_str(), expect);
    assert_eq!(encoded.len(), 8);
}
