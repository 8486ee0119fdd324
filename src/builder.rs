//! Orchestration of one build: side modules are accumulated under a collision
//! policy, discovered scopes are hashed, checked for hash collisions and compiled in
//! discovery order, and the output is laid out as per-scope files and a bundle.
//! Reading and writing files is left to the caller, who performs the actions that
//! these functions return.
use vstd::prelude::*;
use vstd::string::*;

use crate::compiler::{light_of, CompilerAdapter, LightOutcome, SabryCompilerError};
use crate::config::{BehavHashCollision, BehavSassModCollision, SabryConfig};
use vstd::utf8::*;

use crate::hash::{hash_input_of, hash_of_input, ScopeHash};
use crate::scoper::{
    collected, concat3, has_unsupported_glob, hashed_all, sort_by_start, spans_fit, spliced,
    ArbitraryScope, HashedScope, ScopeError,
};
use crate::syntax::{parsed_statements, selectors_in, OneSyntaxToRuleThemAll};
use crate::text::str_equals;

verus! {

/// A scope declared in the project: its name, syntax and source.
#[derive(Debug)]
pub struct ScopeSource {
    pub name: String,
    pub syntax: OneSyntaxToRuleThemAll,
    pub code: String,
}

/// A stylesheet compiled into the CSS prelude.
#[derive(Debug)]
pub struct SassPreludeModule {
    pub syntax: OneSyntaxToRuleThemAll,
    pub code: String,
}

/// Why a build failed.
#[derive(Debug)]
pub enum SabryBuildError {
    /// A side module was loaded twice and the policy forbids it.
    ModuleCollision { module: String },
    /// Scope `scope` got the hash already given to scope `other`, and the policy
    /// forbids it.
    HashCollision { scope: String, other: String },
    /// A scope could not be parsed or rewritten.
    SyntaxError(ScopeError),
    /// A scope or prelude could not be compiled.
    CssCompile(SabryCompilerError),
    Another(String),
}

/// What the caller does with a side module's backing file after a load.
#[derive(Debug)]
pub struct ModuleWrite {
    /// First load of this name: remove any stale file, then create it anew.
    /// Otherwise append to it.
    pub fresh: bool,
    /// The text to write: the code between two newlines.
    pub chunk: String,
}

/// Everything one build accumulates.
#[derive(Debug)]
pub struct SabryBuildState {
    /// `(hash, scope name)` of the scopes hashed so far, kept under the `Error`
    /// hash-collision policy; no hash twice.
    pub known_scope_hashes: Vec<(String, String)>,
    /// Side modules by name, with everything loaded under each name; no name twice.
    pub side_modules: Vec<(String, String)>,
    /// Scopes found in the project, in discovery order.
    pub loaded_stylyses: Vec<ScopeSource>,
    /// Compiled scopes, `(scope name, CSS)`, in discovery order.
    pub loaded_css_modules: Vec<(String, String)>,
    /// CSS written ahead of each scope in the bundle; separate from the scopes so
    /// that no name collides.
    pub css_prelude: String,
    /// Stylesheets compiled into the CSS prelude.
    pub sass_prelude: Vec<SassPreludeModule>,
    /// Raw CSS written into the CSS prelude, after the compiled stylesheets.
    pub raw_css_prelude: Vec<String>,
}

/// No two entries of `v` share their first part.
pub open spec fn keys_unique(v: Seq<(Seq<char>, Seq<char>)>) -> bool {
    forall|i: int, j: int| 0 <= i < j < v.len() ==> v[i].0 != v[j].0
}

impl SabryBuildState {
    /// Hashes and module names are each kept once.
    pub open spec fn wf(&self) -> bool {
        keys_unique(pair_views(self.known_scope_hashes@)) && keys_unique(pair_views(self.side_modules@))
    }
}

/// The text a load adds to a side module: the code between two newlines.
pub open spec fn module_chunk(code: Seq<char>) -> Seq<char> {
    seq!['\n'] + code + seq!['\n']
}

/// Views of `(name, text)` pairs.
pub open spec fn pair_views(v: Seq<(String, String)>) -> Seq<(Seq<char>, Seq<char>)> {
    v.map_values(|p: (String, String)| (p.0@, p.1@))
}

/// Whether `i` is the first index of a module named `name`.
pub open spec fn first_named(mods: Seq<(Seq<char>, Seq<char>)>, name: Seq<char>, i: int) -> bool {
    0 <= i < mods.len() && mods[i].0 == name && forall|j: int| 0 <= j < i ==> (#[trigger] mods[j]).0 != name
}

/// Index of the module named `name`, if loaded.
pub open spec fn module_index(mods: Seq<(Seq<char>, Seq<char>)>, name: Seq<char>) -> Option<int> {
    if exists|i: int| first_named(mods, name, i) {
        Some(choose|i: int| first_named(mods, name, i))
    } else {
        None
    }
}

/// The side modules after loading `code` under `name`: a new entry the first time;
/// later, the chunk appended under `Merge`, and `None` (a failed build) under `Error`.
pub open spec fn load_module(
    mods: Seq<(Seq<char>, Seq<char>)>,
    name: Seq<char>,
    code: Seq<char>,
    policy: BehavSassModCollision,
) -> Option<Seq<(Seq<char>, Seq<char>)>> {
    match module_index(mods, name) {
        None => Some(mods.push((name, module_chunk(code)))),
        Some(i) => match policy {
            BehavSassModCollision::Merge => Some(mods.update(i, (name, mods[i].1 + module_chunk(code)))),
            BehavSassModCollision::Error => None,
        },
    }
}

/// The bundle of the first `k` compiled scopes: the prelude, then the scope's CSS, for
/// each scope in order.
pub open spec fn bundle_of(prelude: Seq<char>, mods: Seq<(Seq<char>, Seq<char>)>, k: int) -> Seq<char>
    decreases k,
{
    if k <= 0 {
        Seq::empty()
    } else {
        bundle_of(prelude, mods, k - 1) + prelude + mods[k - 1].1
    }
}

/// The path of a scope's own CSS file under `dir`.
pub open spec fn scope_path(dir: Seq<char>, name: Seq<char>) -> Seq<char> {
    dir + seq!['/'] + name + seq!['.', 'c', 's', 's']
}

fn find_name(v: &Vec<(String, String)>, name: &str) -> (r: Option<usize>)
    ensures
        r is Some <==> module_index(pair_views(v@), name@) is Some,
        r is Some ==> module_index(pair_views(v@), name@) == Some(r->0 as int),
{
    let ghost pv = pair_views(v@);
    let n = v.len();
    let mut i: usize = 0;
    while i < n
        invariant
            n == v@.len(),
            pv == pair_views(v@),
            i <= n,
            forall|k: int| 0 <= k < i ==> (#[trigger] pv[k]).0 != name@,
        decreases n - i,
    {
        if str_equals(v[i].0.as_str(), name) {
            assert(pv[i as int].0 == name@);
            assert(first_named(pv, name@, i as int));
            proof {
                let c = choose|c: int| first_named(pv, name@, c);
                assert(first_named(pv, name@, c));
                if c < i as int {
                    assert(pv[c].0 != name@);
                } else if c > i as int {
                    assert(pv[i as int].0 != name@);
                }
            }
            return Some(i);
        }
        i = i + 1;
    }
    assert forall|c: int| !first_named(pv, name@, c) by {
        if first_named(pv, name@, c) {
            assert(pv[c].0 != name@);
        }
    }
    None
}

impl SabryBuildState {
    /// A state with nothing loaded.
    pub fn new() -> (r: Self)
        ensures
            r.known_scope_hashes@.len() == 0,
            r.side_modules@.len() == 0,
            r.loaded_stylyses@.len() == 0,
            r.loaded_css_modules@.len() == 0,
            r.css_prelude@.len() == 0,
            r.sass_prelude@.len() == 0,
            r.raw_css_prelude@.len() == 0,
            r.wf(),
    {
        SabryBuildState {
            known_scope_hashes: Vec::new(),
            side_modules: Vec::new(),
            loaded_stylyses: Vec::new(),
            loaded_css_modules: Vec::new(),
            css_prelude: String::new(),
            sass_prelude: Vec::new(),
            raw_css_prelude: Vec::new(),
        }
    }

    /// Loads `code` as side module `name` under `policy` (see [load_module]), and says
    /// how the caller is to write the module's file. On failure nothing changes.
    pub fn load_side_module(&mut self, name: String, code: String, policy: BehavSassModCollision) -> (r: Result<
        ModuleWrite,
        SabryBuildError,
    >)
        ensures
            r is Ok <==> load_module(pair_views(old(self).side_modules@), name@, code@, policy) is Some,
            r is Ok ==> pair_views(final(self).side_modules@) == load_module(
                pair_views(old(self).side_modules@),
                name@,
                code@,
                policy,
            )->0,
            r is Ok ==> r->Ok_0.chunk@ == module_chunk(code@) && (r->Ok_0.fresh <==> module_index(
                pair_views(old(self).side_modules@),
                name@,
            ) is None),
            r is Err ==> r->Err_0 == (SabryBuildError::ModuleCollision { module: name }),
            r is Err ==> final(self).side_modules@ == old(self).side_modules@,
            final(self).known_scope_hashes == old(self).known_scope_hashes,
            final(self).loaded_stylyses == old(self).loaded_stylyses,
            final(self).loaded_css_modules == old(self).loaded_css_modules,
            final(self).css_prelude == old(self).css_prelude,
            final(self).sass_prelude == old(self).sass_prelude,
            final(self).raw_css_prelude == old(self).raw_css_prelude,
            old(self).wf() ==> final(self).wf(),
    {
        proof {
            reveal_strlit("\n");
            reveal_strlit("");
            assert("\n"@ =~= seq!['\n']);
            assert(""@ =~= Seq::<char>::empty());
        }
        let ghost mods = pair_views(self.side_modules@);
        let chunk = concat3("\n", code.as_str(), "\n");
        match find_name(&self.side_modules, name.as_str()) {
            None => {
                self.side_modules.push((name, chunk.clone()));
                assert(pair_views(self.side_modules@) =~= mods.push((name@, module_chunk(code@))));
                proof {
                    if !keys_unique(pair_views(self.side_modules@)) && keys_unique(mods) {
                        let (a, b) = choose|a: int, b: int| 0 <= a < b < pair_views(self.side_modules@).len() && pair_views(self.side_modules@)[a].0 == pair_views(self.side_modules@)[b].0;
                        assert(b == mods.len());
                        lemma_first_exists(mods, name@, a);
                    }
                }
                Ok(ModuleWrite { fresh: true, chunk })
            },
            Some(i) => match policy {
                BehavSassModCollision::Error => Err(SabryBuildError::ModuleCollision { module: name }),
                BehavSassModCollision::Merge => {
                    let merged = concat3(self.side_modules[i].1.as_str(), chunk.as_str(), "");
                    assert(merged@ =~= mods[i as int].1 + module_chunk(code@));
                    self.side_modules.set(i, (name, merged));
                    proof {
                        assert(pair_views(self.side_modules@) =~= mods.update(i as int, (name@, mods[i as int].1 + module_chunk(code@))));
                    }
                    Ok(ModuleWrite { fresh: false, chunk })
                },
            },
        }
    }
}

/// Merge policy: loading a new module `name` with code `a` and then `b` keeps, under
/// `Merge`, one module of that name holding `a` and then `b`, each between newlines;
/// under `Error` the second load fails.
pub proof fn lemma_merge_policy(
    mods: Seq<(Seq<char>, Seq<char>)>,
    name: Seq<char>,
    a: Seq<char>,
    b: Seq<char>,
)
    requires
        module_index(mods, name) is None,
    ensures
        ({
            let once = load_module(mods, name, a, BehavSassModCollision::Merge)->0;
            let twice = load_module(once, name, b, BehavSassModCollision::Merge);
            &&& twice is Some
            &&& twice->0.len() == mods.len() + 1
            &&& module_index(twice->0, name) == Some(mods.len() as int)
            &&& twice->0[mods.len() as int].1 == seq!['\n'] + a + seq!['\n', '\n'] + b + seq!['\n']
        }),
        ({
            let once = load_module(mods, name, a, BehavSassModCollision::Error);
            &&& once is Some
            &&& load_module(once->0, name, b, BehavSassModCollision::Error) is None
        }),
{
    let once = mods.push((name, module_chunk(a)));
    let k = mods.len() as int;
    assert(forall|j: int| 0 <= j < k ==> (#[trigger] mods[j]).0 != name) by {
        assert forall|j: int| 0 <= j < k implies (#[trigger] mods[j]).0 != name by {
            if mods[j].0 == name {
                lemma_first_exists(mods, name, j);
            }
        }
    }
    assert(first_named(once, name, k));
    lemma_first_unique(once, name, k);
    let twice = once.update(k, (name, once[k].1 + module_chunk(b)));
    assert(first_named(twice, name, k));
    lemma_first_unique(twice, name, k);
    assert(twice[k].1 =~= seq!['\n'] + a + seq!['\n', '\n'] + b + seq!['\n']);
}

proof fn lemma_first_exists(mods: Seq<(Seq<char>, Seq<char>)>, name: Seq<char>, j: int)
    requires
        0 <= j < mods.len(),
        mods[j].0 == name,
    ensures
        module_index(mods, name) is Some,
    decreases j,
{
    if forall|v: int| 0 <= v < j ==> (#[trigger] mods[v]).0 != name {
        assert(first_named(mods, name, j));
    } else {
        let v = choose|v: int| 0 <= v < j && (#[trigger] mods[v]).0 == name;
        lemma_first_exists(mods, name, v);
    }
}

proof fn lemma_first_unique(mods: Seq<(Seq<char>, Seq<char>)>, name: Seq<char>, i: int)
    requires
        first_named(mods, name, i),
    ensures
        module_index(mods, name) == Some(i),
{
    let c = choose|c: int| first_named(mods, name, c);
    assert(first_named(mods, name, c));
    if c < i {
        assert(mods[c].0 != name);
    } else if c > i {
        assert(mods[i].0 != name);
    }
}

/// The name kept with the first `(hash, name)` entry whose hash is `h`.
pub open spec fn first_name_of(known: Seq<(Seq<char>, Seq<char>)>, h: Seq<char>) -> Option<Seq<char>>
    decreases known.len(),
{
    if known.len() == 0 {
        None
    } else if known[0].0 == h {
        Some(known[0].1)
    } else {
        first_name_of(known.drop_first(), h)
    }
}

proof fn lemma_first_name_of(known: Seq<(Seq<char>, Seq<char>)>, h: Seq<char>)
    ensures
        first_name_of(known, h) is None <==> forall|i: int| 0 <= i < known.len() ==> (#[trigger] known[i]).0 != h,
    decreases known.len(),
{
    if known.len() > 0 {
        lemma_first_name_of(known.drop_first(), h);
        if known[0].0 != h {
            assert forall|i: int| 1 <= i < known.len() implies (#[trigger] known[i]).0 == known.drop_first()[i - 1].0 by {}
        }
    }
}

/// What a declared scope becomes under `config`: its hash and the bytes of its
/// rewritten source, where its source parses and its rewrite succeeds.
pub open spec fn declared_rewrite(s: ScopeSource, config: SabryConfig) -> Option<(Seq<char>, Seq<u8>)> {
    match parsed_statements(s.code@, s.syntax) {
        Err(_) => None,
        Ok(st) => {
            let sels = selectors_in(st);
            let bytes = encode_utf8(s.code@);
            let h = hash_of_input(hash_input_of(s.name@, s.code@, sels, config.hash), config.hash);
            let ord = sort_by_start(hashed_all(collected(sels, bytes), h, config.scoping));
            if !has_unsupported_glob(sels, bytes) && spans_fit(bytes, ord) {
                Some((h, spliced(bytes, ord)))
            } else {
                None
            }
        },
    }
}

pub open spec fn rewrite_hash(p: (Seq<char>, Seq<u8>)) -> Seq<char> {
    p.0
}

pub open spec fn rewrite_bytes(p: (Seq<char>, Seq<u8>)) -> Seq<u8> {
    p.1
}

/// The first failure met while scopes are prepared.
pub enum PrepFailure {
    /// Scope `index` does not parse or cannot be rewritten.
    Syntax { index: int },
    /// Scope `index` got the hash kept for the scope named `other`.
    Collision { index: int, other: Seq<char> },
}

/// The kept `(hash, name)` entries after preparing the first `k` scopes from `known`,
/// in order: each is parsed and rewritten, then its hash is checked; under `Error` a
/// kept hash fails and a new one is kept, under `Ignore` nothing is kept.
pub open spec fn prepare_prefix(
    known: Seq<(Seq<char>, Seq<char>)>,
    scopes: Seq<ScopeSource>,
    config: SabryConfig,
    k: int,
) -> Result<Seq<(Seq<char>, Seq<char>)>, PrepFailure>
    decreases k,
{
    if k <= 0 {
        Ok(known)
    } else {
        match prepare_prefix(known, scopes, config, k - 1) {
            Err(e) => Err(e),
            Ok(kn) => match declared_rewrite(scopes[k - 1], config) {
                None => Err(PrepFailure::Syntax { index: k - 1 }),
                Some(hr) => match config.hash.collision {
                    BehavHashCollision::Ignore => Ok(kn),
                    BehavHashCollision::Error => match first_name_of(kn, hr.0) {
                        Some(o) => Err(PrepFailure::Collision { index: k - 1, other: o }),
                        None => Ok(kn.push((hr.0, scopes[k - 1].name@))),
                    },
                },
            },
        }
    }
}

proof fn lemma_prepare_err_stays(
    known: Seq<(Seq<char>, Seq<char>)>,
    scopes: Seq<ScopeSource>,
    config: SabryConfig,
    k: int,
    k2: int,
)
    requires
        0 <= k <= k2,
        prepare_prefix(known, scopes, config, k) is Err,
    ensures
        prepare_prefix(known, scopes, config, k2) == prepare_prefix(known, scopes, config, k),
    decreases k2 - k,
{
    if k2 > k {
        lemma_prepare_err_stays(known, scopes, config, k, k2 - 1);
    }
}

/// Collision policy: two scopes with the same hash, both rewritable, fail the build
/// under `Error` at the later one, naming the earlier one; under `Ignore` both pass.
pub proof fn lemma_collision_policy(a: ScopeSource, b: ScopeSource, config: SabryConfig)
    requires
        declared_rewrite(a, config) is Some,
        declared_rewrite(b, config) is Some,
        rewrite_hash(declared_rewrite(a, config)->0) == rewrite_hash(declared_rewrite(b, config)->0),
    ensures
        config.hash.collision == BehavHashCollision::Error ==> prepare_prefix(
            Seq::empty(),
            seq![a, b],
            config,
            2,
        ) == Err::<Seq<(Seq<char>, Seq<char>)>, PrepFailure>(PrepFailure::Collision { index: 1, other: a.name@ }),
        config.hash.collision == BehavHashCollision::Ignore ==> prepare_prefix(
            Seq::empty(),
            seq![a, b],
            config,
            2,
        ) is Ok,
{
    reveal_with_fuel(prepare_prefix, 3);
    let s = seq![a, b];
    assert(s[0] == a && s[1] == b);
    let k0 = Seq::<(Seq<char>, Seq<char>)>::empty();
    assert(prepare_prefix(k0, s, config, 0) == Ok::<Seq<(Seq<char>, Seq<char>)>, PrepFailure>(k0));
    if config.hash.collision == BehavHashCollision::Error {
        assert(first_name_of(k0, rewrite_hash(declared_rewrite(a, config)->0)) is None);
        let k1 = k0.push((rewrite_hash(declared_rewrite(a, config)->0), a.name@));
        assert(k1.drop_first() =~= k0);
        assert(first_name_of(k1, rewrite_hash(declared_rewrite(b, config)->0)) == Some(a.name@));
    }
}

/// Prepares one declared scope: parses it, hashes it under `config` and rewrites it
/// under that hash and the configured scoping mode.
pub fn prepare_scope(s: &ScopeSource, config: &SabryConfig) -> (r: Result<HashedScope, ScopeError>)
    ensures
        r is Ok <==> declared_rewrite(*s, *config) is Some,
        r is Ok ==> ({
            let hs = r->Ok_0;
            &&& hs.hash@ == rewrite_hash(declared_rewrite(*s, *config)->0)
            &&& encode_utf8(hs.hashed_code@) == rewrite_bytes(declared_rewrite(*s, *config)->0)
            &&& hs.original_scope.name@ == s.name@
            &&& hs.original_scope.adapter.spec_syntax() == s.syntax
        }),
{
    let scope = match ArbitraryScope::from_source(s.syntax, s.name.clone(), s.code.as_str()) {
        Ok(sc) => sc,
        Err(e) => return Err(e),
    };
    scope.hashed(&config.hash, config.scoping)
}

/// The first scope name kept with hash `h`.
fn find_hash(known: &Vec<(String, String)>, h: &str) -> (r: Option<String>)
    ensures
        r is Some <==> first_name_of(pair_views(known@), h@) is Some,
        r is Some ==> r->0@ == first_name_of(pair_views(known@), h@)->0,
{
    let ghost pv = pair_views(known@);
    let n = known.len();
    let mut i: usize = 0;
    assert(pv.subrange(0, n as int) =~= pv);
    while i < n
        invariant
            n == known@.len(),
            pv == pair_views(known@),
            i <= n,
            first_name_of(pv, h@) == first_name_of(pv.subrange(i as int, n as int), h@),
        decreases n - i,
    {
        let ghost rest = pv.subrange(i as int, n as int);
        assert(rest[0] == pv[i as int]);
        if str_equals(known[i].0.as_str(), h) {
            return Some(known[i].1.clone());
        }
        assert(rest.drop_first() =~= pv.subrange(i + 1, n as int));
        i = i + 1;
    }
    None
}

/// A rewritten scope to be compiled: its name, syntax and rewritten source.
#[derive(Debug)]
pub struct CompileJob {
    pub name: String,
    pub syntax: OneSyntaxToRuleThemAll,
    pub code: String,
}

/// The raw CSS preludes written one after the other.
pub open spec fn concat_all(v: Seq<String>) -> Seq<char>
    decreases v.len(),
{
    if v.len() == 0 {
        Seq::empty()
    } else {
        concat_all(v.drop_last()) + v.last()@
    }
}

/// The entry point of a build: the configuration, the compiler it sets up, and what
/// the build has accumulated.
pub struct SabryBuilder {
    pub css_compiler: CompilerAdapter,
    pub state: SabryBuildState,
}

impl SabryBuilder {
    /// A builder for `config` with nothing loaded.
    pub fn new(config: SabryConfig) -> (r: Self)
        ensures
            r.css_compiler.config == config,
            r.state.known_scope_hashes@.len() == 0,
            r.state.side_modules@.len() == 0,
            r.state.loaded_stylyses@.len() == 0,
            r.state.loaded_css_modules@.len() == 0,
            r.state.css_prelude@.len() == 0,
            r.state.sass_prelude@.len() == 0,
            r.state.raw_css_prelude@.len() == 0,
            r.state.wf(),
    {
        SabryBuilder { css_compiler: CompilerAdapter::new(config), state: SabryBuildState::new() }
    }

    pub fn config(&self) -> (r: &SabryConfig)
        ensures
            r == &self.css_compiler.config,
    {
        &self.css_compiler.config
    }

    /// Loads side module `name` under the configured collision policy (see
    /// [SabryBuildState::load_side_module]).
    pub fn load_side_module(&mut self, name: String, code: String) -> (r: Result<
        ModuleWrite,
        SabryBuildError,
    >)
        ensures
            final(self).css_compiler == old(self).css_compiler,
            r is Ok <==> load_module(
                pair_views(old(self).state.side_modules@),
                name@,
                code@,
                old(self).css_compiler.config.sass.module_name_collision,
            ) is Some,
            r is Ok ==> pair_views(final(self).state.side_modules@) == load_module(
                pair_views(old(self).state.side_modules@),
                name@,
                code@,
                old(self).css_compiler.config.sass.module_name_collision,
            )->0,
            r is Ok ==> r->Ok_0.chunk@ == module_chunk(code@) && (r->Ok_0.fresh <==> module_index(
                pair_views(old(self).state.side_modules@),
                name@,
            ) is None),
            r is Err ==> r->Err_0 == (SabryBuildError::ModuleCollision { module: name }),
            r is Err ==> final(self).state.side_modules@ == old(self).state.side_modules@,
            final(self).state.known_scope_hashes == old(self).state.known_scope_hashes,
            final(self).state.loaded_stylyses == old(self).state.loaded_stylyses,
            final(self).state.loaded_css_modules == old(self).state.loaded_css_modules,
            final(self).state.css_prelude == old(self).state.css_prelude,
            final(self).state.sass_prelude == old(self).state.sass_prelude,
            final(self).state.raw_css_prelude == old(self).state.raw_css_prelude,
            old(self).state.wf() ==> final(self).state.wf(),
    {
        let policy = self.css_compiler.config.sass.module_name_collision;
        self.state.load_side_module(name, code, policy)
    }

    /// Adds a scope found in the project, after those found before it.
    pub fn add_scope(&mut self, scope: ScopeSource)
        ensures
            final(self).state.loaded_stylyses@ == old(self).state.loaded_stylyses@.push(scope),
            final(self).css_compiler == old(self).css_compiler,
            final(self).state.known_scope_hashes == old(self).state.known_scope_hashes,
            final(self).state.side_modules == old(self).state.side_modules,
    {
        self.state.loaded_stylyses.push(scope);
    }

    /// Adds a stylesheet to be compiled into the CSS prelude.
    pub fn add_sass_prelude(&mut self, prelude: SassPreludeModule)
        ensures
            final(self).state.sass_prelude@ == old(self).state.sass_prelude@.push(prelude),
            final(self).css_compiler == old(self).css_compiler,
            final(self).state.known_scope_hashes == old(self).state.known_scope_hashes,
            final(self).state.side_modules == old(self).state.side_modules,
    {
        self.state.sass_prelude.push(prelude);
    }

    /// Adds raw CSS, written uncompiled into the CSS prelude after the compiled
    /// stylesheets.
    pub fn add_css_prelude(&mut self, code: String)
        ensures
            final(self).state.raw_css_prelude@ == old(self).state.raw_css_prelude@.push(code),
            final(self).css_compiler == old(self).css_compiler,
            final(self).state.known_scope_hashes == old(self).state.known_scope_hashes,
            final(self).state.side_modules == old(self).state.side_modules,
    {
        self.state.raw_css_prelude.push(code);
    }

    /// Prepares every loaded scope for compilation, in discovery order: each is parsed,
    /// hashed and rewritten, then its hash is checked under the configured policy (see
    /// [prepare_prefix]). The first failure ends the build before anything is
    /// compiled. On success, one job per scope: its name, syntax and rewritten source,
    /// which the caller compiles and hands to [SabryBuilder::finish_compile].
    pub fn prepare_scopes(&mut self) -> (r: Result<Vec<CompileJob>, SabryBuildError>)
        ensures
            ({
                let scopes = old(self).state.loaded_stylyses@;
                let config = old(self).css_compiler.config;
                let prep = prepare_prefix(
                    pair_views(old(self).state.known_scope_hashes@),
                    scopes,
                    config,
                    scopes.len() as int,
                );
                &&& (r is Ok <==> prep is Ok)
                &&& (prep matches Err(PrepFailure::Syntax { .. }) <==> r matches Err(
                    SabryBuildError::SyntaxError(_),
                ))
                &&& (prep matches Err(PrepFailure::Collision { index, other }) ==> r matches Err(
                    SabryBuildError::HashCollision { scope, other: o },
                ) && scope@ == scopes[index].name@ && o@ == other)
                &&& (r is Ok ==> pair_views(final(self).state.known_scope_hashes@) == prep->Ok_0)
                &&& (r is Ok ==> r->Ok_0@.len() == scopes.len() && forall|k: int|
                    0 <= k < scopes.len() ==> {
                        let job = #[trigger] r->Ok_0@[k];
                        &&& job.name@ == scopes[k].name@
                        &&& job.syntax == scopes[k].syntax
                        &&& encode_utf8(job.code@) == rewrite_bytes(declared_rewrite(scopes[k], config)->0)
                    })
            }),
            final(self).css_compiler == old(self).css_compiler,
            final(self).state.loaded_stylyses == old(self).state.loaded_stylyses,
            final(self).state.side_modules == old(self).state.side_modules,
            final(self).state.sass_prelude == old(self).state.sass_prelude,
            final(self).state.raw_css_prelude == old(self).state.raw_css_prelude,
            final(self).state.loaded_css_modules == old(self).state.loaded_css_modules,
            final(self).state.css_prelude == old(self).state.css_prelude,
            old(self).state.wf() ==> final(self).state.wf(),
    {
        let ghost config = self.css_compiler.config;
        let ghost scopes = self.state.loaded_stylyses@;
        let ghost known0 = pair_views(self.state.known_scope_hashes@);
        let policy = self.css_compiler.config.hash.collision;
        let n = self.state.loaded_stylyses.len();
        let mut jobs: Vec<CompileJob> = Vec::new();
        let mut i: usize = 0;
        while i < n
            invariant
                n == scopes.len(),
                i <= n,
                scopes == self.state.loaded_stylyses@,
                self.state.loaded_stylyses == old(self).state.loaded_stylyses,
                self.state.side_modules == old(self).state.side_modules,
                self.state.sass_prelude == old(self).state.sass_prelude,
                self.state.raw_css_prelude == old(self).state.raw_css_prelude,
                self.state.loaded_css_modules == old(self).state.loaded_css_modules,
                self.state.css_prelude == old(self).state.css_prelude,
                self.css_compiler == old(self).css_compiler,
                config == self.css_compiler.config,
                policy == config.hash.collision,
                known0 == pair_views(old(self).state.known_scope_hashes@),
                prepare_prefix(known0, scopes, config, i as int) == Ok::<
                    Seq<(Seq<char>, Seq<char>)>,
                    PrepFailure,
                >(pair_views(self.state.known_scope_hashes@)),
                old(self).state.wf() ==> self.state.wf(),
                jobs@.len() == i,
                forall|k: int|
                    0 <= k < i ==> {
                        let job = #[trigger] jobs@[k];
                        &&& job.name@ == scopes[k].name@
                        &&& job.syntax == scopes[k].syntax
                        &&& encode_utf8(job.code@) == rewrite_bytes(declared_rewrite(scopes[k], config)->0)
                    },
            decreases n - i,
        {
            let styly = &self.state.loaded_stylyses[i];
            let hashed = match prepare_scope(styly, &self.css_compiler.config) {
                Ok(h) => h,
                Err(e) => {
                    proof {
                        lemma_prepare_err_stays(known0, scopes, config, i + 1, n as int);
                    }
                    return Err(SabryBuildError::SyntaxError(e));
                },
            };
            let ghost kn = pair_views(self.state.known_scope_hashes@);
            if policy == BehavHashCollision::Error {
                match find_hash(&self.state.known_scope_hashes, hashed.hash.as_str()) {
                    Some(other) => {
                        proof {
                            lemma_prepare_err_stays(known0, scopes, config, i + 1, n as int);
                        }
                        return Err(
                            SabryBuildError::HashCollision { scope: styly.name.clone(), other },
                        );
                    },
                    None => {
                        let entry = (hashed.hash.as_str().to_owned(), styly.name.clone());
                        self.state.known_scope_hashes.push(entry);
                        proof {
                            let kn2 = pair_views(self.state.known_scope_hashes@);
                            assert(kn2 =~= kn.push((hashed.hash@, scopes[i as int].name@)));
                            lemma_first_name_of(kn, hashed.hash@);
                            if old(self).state.wf() {
                                assert forall|a: int, b: int| 0 <= a < b < kn2.len() implies kn2[a].0 != kn2[b].0 by {
                                    if b == kn.len() {
                                        assert(kn[a].0 != hashed.hash@);
                                    }
                                }
                            }
                        }
                    },
                }
            }
            let job = CompileJob { name: styly.name.clone(), syntax: styly.syntax, code: hashed.hashed_code };
            jobs.push(job);
            i = i + 1;
        }
        Ok(jobs)
    }

    /// Takes the compiled CSS of every loaded scope (`scope_css`, in discovery order)
    /// and of every style prelude (`prelude_css`, in order), passes each through
    /// [CompilerAdapter::lightningcss], and keeps the results: one `(scope name, CSS)`
    /// entry per scope, and the preludes' CSS followed by the raw CSS preludes added to
    /// the CSS prelude. Nothing is kept unless every piece passes.
    pub fn finish_compile(&mut self, scope_css: Vec<String>, prelude_css: Vec<String>) -> (r: Result<
        (),
        SabryBuildError,
    >)
        ensures
            ({
                let config = old(self).css_compiler.config;
                let counts = scope_css@.len() == old(self).state.loaded_stylyses@.len()
                    && prelude_css@.len() == old(self).state.sass_prelude@.len();
                &&& (r is Ok <==> counts && !config.lightningcss.targets.invalid_version()
                    && all_css(scope_css@, config) && all_css(prelude_css@, config))
                &&& (!counts ==> r matches Err(SabryBuildError::Another(_)))
                &&& (counts && config.lightningcss.targets.invalid_version() ==> r matches Err(
                    SabryBuildError::CssCompile(SabryCompilerError::Targets(_)),
                ))
                &&& (r is Err ==> *final(self) == *old(self))
                &&& (r is Ok ==> ({
                    let scopes = old(self).state.loaded_stylyses@;
                    let before = old(self).state.loaded_css_modules@;
                    let after = final(self).state.loaded_css_modules@;
                    &&& after.len() == before.len() + scopes.len()
                    &&& forall|k: int| 0 <= k < before.len() ==> after[k] == before[k]
                    &&& forall|k: int|
                        0 <= k < scopes.len() ==> (#[trigger] after[before.len() + k]).0@
                            == scopes[k].name@ && light_of(scope_css@[k]@, config) == LightOutcome::Css(
                            after[before.len() + k].1@,
                        )
                    &&& final(self).state.css_prelude@ == old(self).state.css_prelude@ + lights_concat(
                        prelude_css@,
                        config,
                    ) + concat_all(old(self).state.raw_css_prelude@)
                    &&& final(self).css_compiler == old(self).css_compiler
                    &&& final(self).state.loaded_stylyses == old(self).state.loaded_stylyses
                    &&& final(self).state.side_modules == old(self).state.side_modules
                    &&& final(self).state.sass_prelude == old(self).state.sass_prelude
                    &&& final(self).state.raw_css_prelude == old(self).state.raw_css_prelude
                    &&& final(self).state.known_scope_hashes == old(self).state.known_scope_hashes
                }))
            }),
    {
        let ghost config = self.css_compiler.config;
        if scope_css.len() != self.state.loaded_stylyses.len() || prelude_css.len()
            != self.state.sass_prelude.len() {
            return Err(SabryBuildError::Another(String::from_str("compiled pieces do not match the loaded ones")));
        }
        if let Err(which) = self.css_compiler.config.lightningcss.targets.versions() {
            return Err(SabryBuildError::CssCompile(SabryCompilerError::Targets(which)));
        }
        let n = scope_css.len();
        let mut passed: Vec<String> = Vec::new();
        let mut i: usize = 0;
        while i < n
            invariant
                n == scope_css@.len(),
                i <= n,
                *self == *old(self),
                config == self.css_compiler.config,
                config == old(self).css_compiler.config,
                scope_css@.len() == old(self).state.loaded_stylyses@.len(),
                prelude_css@.len() == old(self).state.sass_prelude@.len(),
                !config.lightningcss.targets.invalid_version(),
                passed@.len() == i,
                forall|k: int| 0 <= k < i ==> light_of(scope_css@[k]@, config) == LightOutcome::Css(
                    (#[trigger] passed@[k])@,
                ),
            decreases n - i,
        {
            match self.css_compiler.lightningcss(scope_css[i].as_str()) {
                Ok(c) => passed.push(c),
                Err(e) => {
                    assert(!(light_of(scope_css@[i as int]@, config) is Css));
                    return Err(SabryBuildError::CssCompile(e));
                },
            }
            i = i + 1;
        }
        let m = prelude_css.len();
        let mut prelude = String::new();
        let mut j: usize = 0;
        while j < m
            invariant
                m == prelude_css@.len(),
                n == scope_css@.len(),
                j <= m,
                *self == *old(self),
                config == self.css_compiler.config,
                config == old(self).css_compiler.config,
                scope_css@.len() == old(self).state.loaded_stylyses@.len(),
                prelude_css@.len() == old(self).state.sass_prelude@.len(),
                !config.lightningcss.targets.invalid_version(),
                passed@.len() == n,
                forall|k: int| 0 <= k < n ==> light_of(scope_css@[k]@, config) == LightOutcome::Css(
                    (#[trigger] passed@[k])@,
                ),
                forall|k: int| 0 <= k < j ==> (light_of(#[trigger] prelude_css@[k]@, config) is Css),
                prelude@ == lights_concat(prelude_css@.subrange(0, j as int), config),
            decreases m - j,
        {
            match self.css_compiler.lightningcss(prelude_css[j].as_str()) {
                Ok(c) => {
                    prelude.append(c.as_str());
                    proof {
                        let t = prelude_css@.subrange(0, j + 1);
                        assert(t.drop_last() =~= prelude_css@.subrange(0, j as int));
                    }
                },
                Err(e) => {
                    assert(!(light_of(prelude_css@[j as int]@, config) is Css));
                    return Err(SabryBuildError::CssCompile(e));
                },
            }
            j = j + 1;
        }
        assert(prelude_css@.subrange(0, m as int) =~= prelude_css@);
        assert(all_css(scope_css@, config)) by {
            assert forall|k: int| 0 <= k < scope_css@.len() implies (light_of(#[trigger] scope_css@[k]@, config) is Css) by {
                assert(light_of(scope_css@[k]@, config) == LightOutcome::Css(passed@[k]@));
            }
        }
        let ghost before = self.state.loaded_css_modules@;
        let ghost scopes = self.state.loaded_stylyses@;
        let mut k: usize = 0;
        while k < n
            invariant
                n == scopes.len(),
                n == passed@.len(),
                k <= n,
                scopes == self.state.loaded_stylyses@,
                self.state.loaded_stylyses == old(self).state.loaded_stylyses,
                self.state.css_prelude == old(self).state.css_prelude,
                self.state.raw_css_prelude == old(self).state.raw_css_prelude,
                self.state.side_modules == old(self).state.side_modules,
                self.state.sass_prelude == old(self).state.sass_prelude,
                self.state.known_scope_hashes == old(self).state.known_scope_hashes,
                self.css_compiler == old(self).css_compiler,
                config == old(self).css_compiler.config,
                forall|t: int| 0 <= t < n ==> light_of(scope_css@[t]@, config) == LightOutcome::Css(
                    (#[trigger] passed@[t])@,
                ),
                before == old(self).state.loaded_css_modules@,
                self.state.loaded_css_modules@.len() == before.len() + k,
                forall|t: int| 0 <= t < before.len() ==> self.state.loaded_css_modules@[t] == before[t],
                forall|t: int|
                    0 <= t < k ==> (#[trigger] self.state.loaded_css_modules@[before.len() + t]).0@
                        == scopes[t].name@ && self.state.loaded_css_modules@[before.len() + t].1@
                        == passed@[t]@,
            decreases n - k,
        {
            let entry = (self.state.loaded_stylyses[k].name.clone(), passed[k].clone());
            self.state.loaded_css_modules.push(entry);
            k = k + 1;
        }
        assert forall|u: int| 0 <= u < n implies (#[trigger] self.state.loaded_css_modules@[before.len() + u]).0@
            == scopes[u].name@ && light_of(scope_css@[u]@, config) == LightOutcome::Css(
            self.state.loaded_css_modules@[before.len() + u].1@,
        ) by {
            assert(light_of(scope_css@[u]@, config) == LightOutcome::Css(passed@[u]@));
        }
        self.state.css_prelude.append(prelude.as_str());
        let r = self.state.raw_css_prelude.len();
        let mut t: usize = 0;
        while t < r
            invariant
                r == self.state.raw_css_prelude@.len(),
                t <= r,
                self.state.raw_css_prelude == old(self).state.raw_css_prelude,
                self.state.loaded_stylyses == old(self).state.loaded_stylyses,
                self.state.side_modules == old(self).state.side_modules,
                self.state.sass_prelude == old(self).state.sass_prelude,
                self.state.known_scope_hashes == old(self).state.known_scope_hashes,
                self.css_compiler == old(self).css_compiler,
                self.state.loaded_css_modules@.len() == before.len() + n,
                forall|u: int| 0 <= u < before.len() ==> self.state.loaded_css_modules@[u] == before[u],
                forall|u: int|
                    0 <= u < n ==> (#[trigger] self.state.loaded_css_modules@[before.len() + u]).0@
                        == scopes[u].name@ && light_of(scope_css@[u]@, config) == LightOutcome::Css(
                        self.state.loaded_css_modules@[before.len() + u].1@,
                    ),
                self.state.css_prelude@ == old(self).state.css_prelude@ + prelude@ + concat_all(
                    self.state.raw_css_prelude@.subrange(0, t as int),
                ),
            decreases r - t,
        {
            self.state.css_prelude.append(self.state.raw_css_prelude[t].as_str());
            proof {
                let sub = self.state.raw_css_prelude@.subrange(0, t + 1);
                assert(sub.drop_last() =~= self.state.raw_css_prelude@.subrange(0, t as int));
            }
            t = t + 1;
        }
        assert(self.state.raw_css_prelude@.subrange(0, r as int) =~= self.state.raw_css_prelude@);
        Ok(())
    }
}

/// Every piece of `v` passes the CSS pass under `config`.
pub open spec fn all_css(v: Seq<String>, config: SabryConfig) -> bool {
    forall|k: int| 0 <= k < v.len() ==> (light_of(#[trigger] v[k]@, config) is Css)
}

/// The printed CSS of an outcome that is one.
pub open spec fn printed(o: LightOutcome) -> Seq<char> {
    match o {
        LightOutcome::Css(c) => c,
        _ => Seq::empty(),
    }
}

/// The CSS pass's results for `v`, one after the other.
pub open spec fn lights_concat(v: Seq<String>, config: SabryConfig) -> Seq<char>
    decreases v.len(),
{
    if v.len() == 0 {
        Seq::empty()
    } else {
        lights_concat(v.drop_last(), config) + printed(light_of(v.last()@, config))
    }
}

impl SabryBuilder {
    /// The bundle: for each compiled scope in discovery order, the CSS prelude followed
    /// by the scope's CSS.
    pub fn bundle(&self) -> (r: String)
        ensures
            r@ == bundle_of(
                self.state.css_prelude@,
                pair_views(self.state.loaded_css_modules@),
                self.state.loaded_css_modules@.len() as int,
            ),
    {
        let ghost mods = pair_views(self.state.loaded_css_modules@);
        let n = self.state.loaded_css_modules.len();
        let mut out = String::new();
        let mut i: usize = 0;
        while i < n
            invariant
                n == self.state.loaded_css_modules@.len(),
                mods == pair_views(self.state.loaded_css_modules@),
                i <= n,
                out@ == bundle_of(self.state.css_prelude@, mods, i as int),
            decreases n - i,
        {
            out.append(self.state.css_prelude.as_str());
            out.append(self.state.loaded_css_modules[i].1.as_str());
            assert(mods[i as int].1 == self.state.loaded_css_modules@[i as int].1@);
            i = i + 1;
        }
        out
    }

    /// One `(path, CSS)` per compiled scope, in order: the scope's CSS in
    /// `<dir>/<scope name>.css`.
    pub fn scope_files(&self, dir: &str) -> (r: Vec<(String, String)>)
        ensures
            r@.len() == self.state.loaded_css_modules@.len(),
            forall|k: int|
                0 <= k < r@.len() ==> (#[trigger] r@[k]).0@ == scope_path(
                    dir@,
                    self.state.loaded_css_modules@[k].0@,
                ) && r@[k].1@ == self.state.loaded_css_modules@[k].1@,
    {
        let n = self.state.loaded_css_modules.len();
        let mut out: Vec<(String, String)> = Vec::new();
        let mut i: usize = 0;
        while i < n
            invariant
                n == self.state.loaded_css_modules@.len(),
                i <= n,
                out@.len() == i,
                forall|k: int|
                    0 <= k < i ==> (#[trigger] out@[k]).0@ == scope_path(
                        dir@,
                        self.state.loaded_css_modules@[k].0@,
                    ) && out@[k].1@ == self.state.loaded_css_modules@[k].1@,
            decreases n - i,
        {
            let entry = &self.state.loaded_css_modules[i];
            proof {
                reveal_strlit("/");
                reveal_strlit(".css");
                reveal_strlit("");
                assert("/"@ =~= seq!['/']);
                assert(".css"@ =~= seq!['.', 'c', 's', 's']);
                assert(""@ =~= Seq::<char>::empty());
            }
            let head = concat3(dir, "/", entry.0.as_str());
            let path = concat3(head.as_str(), ".css", "");
            assert(path@ =~= scope_path(dir@, entry.0@));
            out.push((path, entry.1.clone()));
            i = i + 1;
        }
        out
    }
}

/// The phases of one build, in order; a build ends written or aborted.
#[derive(Debug, Clone, Copy, PartialEq, Eq, Structural)]
pub enum BuildPhase {
    Init,
    PreludesLoaded,
    ScopesDiscovered,
    Compiled,
    OutputWritten,
    Aborted,
}

/// Position of a phase in the build's order; the two terminal phases come last.
pub open spec fn phase_rank(p: BuildPhase) -> nat {
    match p {
        BuildPhase::Init => 0,
        BuildPhase::PreludesLoaded => 1,
        BuildPhase::ScopesDiscovered => 2,
        BuildPhase::Compiled => 3,
        BuildPhase::OutputWritten => 4,
        BuildPhase::Aborted => 5,
    }
}

pub open spec fn is_terminal(p: BuildPhase) -> bool {
    p == BuildPhase::OutputWritten || p == BuildPhase::Aborted
}

/// The phase that follows `p` when its work succeeded (`ok`) or failed.
pub open spec fn next_phase(p: BuildPhase, ok: bool) -> BuildPhase {
    if is_terminal(p) {
        p
    } else if !ok {
        BuildPhase::Aborted
    } else {
        match p {
            BuildPhase::Init => BuildPhase::PreludesLoaded,
            BuildPhase::PreludesLoaded => BuildPhase::ScopesDiscovered,
            BuildPhase::ScopesDiscovered => BuildPhase::Compiled,
            _ => BuildPhase::OutputWritten,
        }
    }
}

impl BuildPhase {
    /// The phase after this one's work succeeded (`ok`) or failed: the next phase in
    /// order, or `Aborted` at the first failure; terminal phases stay. Phases never
    /// go back.
    pub fn advance(self, ok: bool) -> (r: BuildPhase)
        ensures
            r == next_phase(self, ok),
            r != self ==> phase_rank(r) > phase_rank(self),
            !is_terminal(self) && !ok ==> r == BuildPhase::Aborted,
    {
        match self {
            BuildPhase::OutputWritten | BuildPhase::Aborted => self,
            _ => if !ok {
                BuildPhase::Aborted
            } else {
                match self {
                    BuildPhase::Init => BuildPhase::PreludesLoaded,
                    BuildPhase::PreludesLoaded => BuildPhase::ScopesDiscovered,
                    BuildPhase::ScopesDiscovered => BuildPhase::Compiled,
                    _ => BuildPhase::OutputWritten,
                }
            },
        }
    }
}

} // verus!
