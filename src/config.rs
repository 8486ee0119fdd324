//! Build configuration, with the documented default of every field.
use vstd::prelude::*;

use crate::scoper::ScopingMode;

verus! {

/// What to do when a side module is loaded twice under one name.
#[derive(Debug, Clone, Copy, PartialEq, Eq, Structural)]
pub enum BehavSassModCollision {
    /// Append the new code to the module, newline-separated.
    Merge,
    /// Fail the build.
    Error,
}

impl Default for BehavSassModCollision {
    fn default() -> (r: Self)
        ensures
            r == BehavSassModCollision::Merge,
    {
        BehavSassModCollision::Merge
    }
}

/// What to do when two scopes get the same hash.
#[derive(Debug, Clone, Copy, PartialEq, Eq, Structural)]
pub enum BehavHashCollision {
    /// Fail the build at the first duplicate.
    Error,
    /// Go on.
    Ignore,
}

impl Default for BehavHashCollision {
    fn default() -> (r: Self)
        ensures
            r == BehavHashCollision::Ignore,
    {
        BehavHashCollision::Ignore
    }
}

/// The `css` table: output locations, minification and raw CSS preludes.
#[derive(Debug)]
pub struct SabryCssConfig {
    /// Path of the single bundle file, if one is wanted.
    pub bundle: Option<String>,
    /// Directory for one CSS file per scope, if wanted.
    pub scopes: Option<String>,
    pub bundle_prelude: Option<Vec<String>>,
    /// Raw CSS files appended, uncompiled, to the prelude.
    pub prelude: Option<Vec<String>>,
    pub minify: bool,
}

impl SabryCssConfig {
    pub fn default_minify() -> (r: bool)
        ensures
            r == true,
    {
        true
    }
}

impl Default for SabryCssConfig {
    fn default() -> (r: Self)
        ensures
            r.bundle is None,
            r.scopes is None,
            r.bundle_prelude is None,
            r.prelude is None,
            r.minify == true,
    {
        SabryCssConfig {
            bundle: None,
            scopes: None,
            bundle_prelude: None,
            prelude: None,
            minify: Self::default_minify(),
        }
    }
}

/// The `sass` table: where scopes are searched for, side modules and style preludes.
#[derive(Debug)]
pub struct SabrySassConfig {
    pub scanroot: String,
    /// Side-module files loaded by their file name.
    pub modules: Option<Vec<String>>,
    pub intermediate_dir: String,
    pub module_name_collision: BehavSassModCollision,
    /// Stylesheet files compiled into the prelude.
    pub prelude: Option<Vec<String>>,
}

impl SabrySassConfig {
    pub fn default_scanroot() -> (r: String)
        ensures
            r@ == seq!['s', 'r', 'c'],
    {
        proof {
            reveal_strlit("src");
        }
        let r = String::from_str("src");
        assert(r@ =~= seq!['s', 'r', 'c']);
        r
    }

    pub fn default_intermediate_dir() -> (r: String)
        ensures
            r@ == "target/.sabry/sass"@,
    {
        String::from_str("target/.sabry/sass")
    }

    pub fn default_module_name_collision() -> (r: BehavSassModCollision)
        ensures
            r == BehavSassModCollision::Merge,
    {
        BehavSassModCollision::default()
    }
}

impl Default for SabrySassConfig {
    fn default() -> (r: Self)
        ensures
            r.scanroot@ == seq!['s', 'r', 'c'],
            r.modules is None,
            r.intermediate_dir@ == "target/.sabry/sass"@,
            r.module_name_collision == BehavSassModCollision::Merge,
            r.prelude is None,
    {
        SabrySassConfig {
            scanroot: Self::default_scanroot(),
            modules: None,
            intermediate_dir: Self::default_intermediate_dir(),
            module_name_collision: Self::default_module_name_collision(),
            prelude: None,
        }
    }
}

/// The `hash` table: which facets of a scope feed its hash, the hash's size in
/// digest bytes and the collision policy.
#[derive(Debug, Clone, Copy, PartialEq, Eq, Structural)]
pub struct SabryHashConfig {
    pub size: usize,
    pub collision: BehavHashCollision,
    pub use_scope_name: bool,
    pub use_item_names: bool,
    pub use_code_size: bool,
    pub use_code_text: bool,
}

impl SabryHashConfig {
    pub fn default_size() -> (r: usize)
        ensures
            r == 6,
    {
        6
    }

    pub fn default_collision() -> (r: BehavHashCollision)
        ensures
            r == BehavHashCollision::Ignore,
    {
        BehavHashCollision::default()
    }

    pub fn default_use_scope_name() -> (r: bool)
        ensures
            r == true,
    {
        true
    }

    pub fn default_use_item_names() -> (r: bool)
        ensures
            r == false,
    {
        false
    }

    pub fn default_use_code_size() -> (r: bool)
        ensures
            r == true,
    {
        true
    }

    pub fn default_use_code_text() -> (r: bool)
        ensures
            r == false,
    {
        false
    }
}

impl Default for SabryHashConfig {
    fn default() -> (r: Self)
        ensures
            r == (SabryHashConfig {
                size: 6,
                collision: BehavHashCollision::Ignore,
                use_scope_name: true,
                use_item_names: false,
                use_code_size: true,
                use_code_text: false,
            }),
    {
        SabryHashConfig {
            size: Self::default_size(),
            collision: Self::default_collision(),
            use_scope_name: Self::default_use_scope_name(),
            use_code_size: Self::default_use_code_size(),
            use_code_text: Self::default_use_code_text(),
            use_item_names: Self::default_use_item_names(),
        }
    }
}

/// Settings of the stylesheet compiler; it has none of its own yet.
#[derive(Debug, Default, Clone, Copy)]
pub struct SabryGrassConfig {}

/// Browser versions to target, as written (`safari = "13.2"`).
#[derive(Debug)]
pub struct SabryLightTargets {
    pub android: Option<String>,
    pub chrome: Option<String>,
    pub edge: Option<String>,
    pub firefox: Option<String>,
    pub ie: Option<String>,
    pub ios_saf: Option<String>,
    pub opera: Option<String>,
    pub safari: Option<String>,
    pub samsung: Option<String>,
}

impl Default for SabryLightTargets {
    fn default() -> (r: Self)
        ensures
            r.android is None && r.chrome is None && r.edge is None && r.firefox is None
                && r.ie is None && r.ios_saf is None && r.opera is None && r.safari is None
                && r.samsung is None,
    {
        SabryLightTargets {
            android: None,
            chrome: None,
            edge: None,
            firefox: None,
            ie: None,
            ios_saf: None,
            opera: None,
            safari: None,
            samsung: None,
        }
    }
}

/// Settings of the CSS transformer.
#[derive(Debug)]
pub struct SabryLightCssConfig {
    pub targets: SabryLightTargets,
}

/// The whole configuration.
#[derive(Debug)]
pub struct SabryConfig {
    /// How hashes are combined with selectors, for the whole build.
    pub scoping: ScopingMode,
    pub css: SabryCssConfig,
    pub sass: SabrySassConfig,
    pub hash: SabryHashConfig,
    pub grass: SabryGrassConfig,
    pub lightningcss: SabryLightCssConfig,
}

impl Default for SabryConfig {
    fn default() -> (r: Self)
        ensures
            r.scoping == ScopingMode::Composition,
            r.css.bundle is None,
            r.css.scopes is None,
            r.css.prelude is None,
            r.css.minify == true,
            r.sass.scanroot@ == seq!['s', 'r', 'c'],
            r.sass.modules is None,
            r.sass.prelude is None,
            r.sass.intermediate_dir@ == "target/.sabry/sass"@,
            r.sass.module_name_collision == BehavSassModCollision::Merge,
            r.hash == SabryHashConfig::spec_default(),
    {
        SabryConfig {
            scoping: ScopingMode::Composition,
            css: SabryCssConfig::default(),
            sass: SabrySassConfig::default(),
            hash: SabryHashConfig::default(),
            grass: SabryGrassConfig {  },
            lightningcss: SabryLightCssConfig { targets: SabryLightTargets::default() },
        }
    }
}

impl SabryHashConfig {
    /// The documented defaults: six digest bytes, collisions ignored, the scope name
    /// and the source size hashed, item names and source text not.
    pub open spec fn spec_default() -> SabryHashConfig {
        SabryHashConfig {
            size: 6,
            collision: BehavHashCollision::Ignore,
            use_scope_name: true,
            use_item_names: false,
            use_code_size: true,
            use_code_text: false,
        }
    }
}

/// A browser version as a number: major, minor and patch in its third, second and
/// first byte.
#[derive(Debug, Clone, Copy, PartialEq, Eq, Structural)]
pub struct BrowserVersions {
    pub android: Option<u32>,
    pub chrome: Option<u32>,
    pub edge: Option<u32>,
    pub firefox: Option<u32>,
    pub ie: Option<u32>,
    pub ios_saf: Option<u32>,
    pub opera: Option<u32>,
    pub safari: Option<u32>,
    pub samsung: Option<u32>,
}

/// `s` cut at every dot.
pub open spec fn split_dots(s: Seq<char>) -> Seq<Seq<char>>
    decreases s.len(),
{
    if s.len() == 0 {
        seq![Seq::empty()]
    } else {
        let parts = split_dots(s.drop_last());
        if s.last() == '.' {
            parts.push(Seq::empty())
        } else {
            parts.update(parts.len() - 1, parts.last().push(s.last()))
        }
    }
}

pub open spec fn is_digit(c: char) -> bool {
    '0' <= c && c <= '9'
}

/// The decimal value of a string of digits.
pub open spec fn dec_value(d: Seq<char>) -> nat
    decreases d.len(),
{
    if d.len() == 0 {
        0
    } else {
        dec_value(d.drop_last()) * 10 + ((d.last() as u32) - ('0' as u32)) as nat
    }
}

/// A part without its optional leading `+`.
pub open spec fn unsigned_digits(p: Seq<char>) -> Seq<char> {
    if p.len() > 0 && p[0] == '+' { p.drop_first() } else { p }
}

/// Whether a part reads as a `u32`: an optional `+`, then one or more digits whose
/// value fits.
pub open spec fn part_ok(p: Seq<char>) -> bool {
    unsigned_digits(p).len() > 0 && all_digits(unsigned_digits(p)) && dec_value(unsigned_digits(p))
        <= u32::MAX
}

pub open spec fn all_digits(d: Seq<char>) -> bool {
    forall|i: int| 0 <= i < d.len() ==> is_digit(#[trigger] d[i])
}

/// Whether `s` is a version: at most three dot-separated parts, each a `u32`.
pub open spec fn version_ok(s: Seq<char>) -> bool {
    let parts = split_dots(s);
    parts.len() <= 3 && forall|i: int| 0 <= i < parts.len() ==> part_ok(#[trigger] parts[i])
}

/// The version code of the first `k` parts: part `i` shifted left by `16 - 8 * i`
/// bits, all of them or-ed together.
pub open spec fn version_code(parts: Seq<Seq<char>>, k: int) -> u32
    decreases k,
{
    if k <= 0 {
        0
    } else {
        version_code(parts, k - 1) | (((dec_value(unsigned_digits(parts[k - 1])) as u32) << ((16 - 8 * (k
            - 1)) as u32)) as u32)
    }
}

proof fn lemma_dec_value_grows(d: Seq<char>, k: int)
    requires
        0 <= k <= d.len(),
        forall|i: int| 0 <= i < d.len() ==> is_digit(#[trigger] d[i]),
    ensures
        dec_value(d.subrange(0, k)) <= dec_value(d),
    decreases d.len() - k,
{
    if k < d.len() {
        let t = d.subrange(0, k + 1);
        assert(t.drop_last() =~= d.subrange(0, k));
        lemma_dec_value_grows(d, k + 1);
        assert(dec_value(t) >= dec_value(d.subrange(0, k)) * 10);
    } else {
        assert(d.subrange(0, k) =~= d);
    }
}

/// The `u32` that a part reads as, if it reads as one.
fn parse_part(p: &Vec<char>) -> (r: Option<u32>)
    ensures
        r is Some <==> part_ok(p@),
        r is Some ==> r->0 == dec_value(unsigned_digits(p@)),
{
    let ghost d = unsigned_digits(p@);
    let n = p.len();
    let start: usize = if n > 0 && p[0] == '+' { 1 } else { 0 };
    if start >= n {
        assert(d.len() == 0);
        return None;
    }
    assert(d =~= p@.subrange(start as int, n as int));
    let mut value: u64 = 0;
    let mut i: usize = start;
    while i < n
        invariant
            n == p@.len(),
            start <= i <= n,
            d == p@.subrange(start as int, n as int),
            d == unsigned_digits(p@),
            forall|k: int| start <= k < i ==> is_digit(#[trigger] p@[k]),
            value == dec_value(p@.subrange(start as int, i as int)),
            value <= u32::MAX,
        decreases n - i,
    {
        let c = p[i];
        if !('0' <= c && c <= '9') {
            assert(d[i - start] == p@[i as int]);
            assert(!is_digit(d[i - start]));
            assert(0 <= i - start < d.len());
            assert(!all_digits(d));

            return None;
        }
        let digit = (c as u32) - ('0' as u32);
        let next = value * 10 + digit as u64;
        proof {
            let t = p@.subrange(start as int, i + 1);
            assert(t.drop_last() =~= p@.subrange(start as int, i as int));
        }
        if next > u32::MAX as u64 {
            proof {
                assert forall|k: int| 0 <= k < i + 1 - start implies is_digit(
                    #[trigger] p@.subrange(start as int, i + 1)[k],
                ) by {
                    assert(p@.subrange(start as int, i + 1)[k] == p@[start + k]);
                }
                if part_ok(p@) {
                    assert(all_digits(d));
                    lemma_dec_value_grows(d, i + 1 - start);
                    assert(d.subrange(0, i + 1 - start) =~= p@.subrange(start as int, i + 1));
                }
            }
            return None;
        }
        value = next;
        i = i + 1;
    }
    assert(p@.subrange(start as int, n as int) =~= d);
    Some(value as u32)
}

/// The parts of `s`, cut at every dot.
fn split_parts(s: &str) -> (r: Vec<Vec<char>>)
    ensures
        r@.map_values(|v: Vec<char>| v@) == split_dots(s@),
{
    let n = s.unicode_len();
    let mut done: Vec<Vec<char>> = Vec::new();
    let mut cur: Vec<char> = Vec::new();
    let mut i: usize = 0;
    while i < n
        invariant
            n == s@.len(),
            i <= n,
            done@.map_values(|v: Vec<char>| v@).push(cur@) == split_dots(s@.subrange(0, i as int)),
        decreases n - i,
    {
        let c = s.get_char(i);
        let ghost pre = done@.map_values(|v: Vec<char>| v@).push(cur@);
        proof {
            let t = s@.subrange(0, i + 1);
            assert(t.drop_last() =~= s@.subrange(0, i as int));
        }
        if c == '.' {
            let finished = cur;
            cur = Vec::new();
            done.push(finished);
            assert(done@.map_values(|v: Vec<char>| v@).push(cur@) =~= pre.push(Seq::empty()));
        } else {
            cur.push(c);
            assert(done@.map_values(|v: Vec<char>| v@).push(cur@) =~= pre.update(
                pre.len() - 1,
                pre.last().push(c),
            ));
        }
        i = i + 1;
    }
    assert(s@.subrange(0, n as int) =~= s@);
    done.push(cur);
    done
}

impl SabryLightTargets {
    /// The version code of `ver`, if it is a version: at most three dot-separated
    /// `u32` parts, major shifted left 16 bits, minor 8, patch 0, or-ed together.
    pub fn try_parse_ver(ver: &str) -> (r: Option<u32>)
        ensures
            r is Some <==> version_ok(ver@),
            r is Some ==> r->0 == version_code(split_dots(ver@), split_dots(ver@).len() as int),
    {
        let parts = split_parts(ver);
        let ghost ps = split_dots(ver@);
        let n = parts.len();
        if n > 3 {
            return None;
        }
        let mut code: u32 = 0;
        let mut i: usize = 0;
        while i < n
            invariant
                n == parts@.len(),
                n <= 3,
                ps == parts@.map_values(|v: Vec<char>| v@),
                ps == split_dots(ver@),
                i <= n,
                forall|k: int| 0 <= k < i ==> part_ok(#[trigger] ps[k]),
                code == version_code(ps, i as int),
            decreases n - i,
        {
            assert(ps[i as int] == parts@[i as int]@);
            let value = match parse_part(&parts[i]) {
                Some(v) => v,
                None => return None,
            };
            let shift: u32 = 16 - 8 * (i as u32);
            code = code | (value << shift);
            i = i + 1;
        }
        Some(code)
    }

    /// The version code of `ver` (see [SabryLightTargets::try_parse_ver]), which
    /// must be a version.
    pub fn parse_ver(ver: &str) -> (r: u32)
        requires
            version_ok(ver@),
        ensures
            r == version_code(split_dots(ver@), split_dots(ver@).len() as int),
    {
        Self::try_parse_ver(ver).unwrap()
    }

    /// Whether some configured browser version is not a version.
    pub open spec fn invalid_version(&self) -> bool {
        opt_invalid(self.android) || opt_invalid(self.chrome) || opt_invalid(self.edge)
            || opt_invalid(self.firefox) || opt_invalid(self.ie) || opt_invalid(self.ios_saf)
            || opt_invalid(self.opera) || opt_invalid(self.safari) || opt_invalid(self.samsung)
    }

    /// Every configured browser version as a version code; the first one, in field
    /// order, that is not a version is named in the error.
    pub fn versions(&self) -> (r: Result<BrowserVersions, String>)
        ensures
            r is Ok <==> !self.invalid_version(),
            r is Ok ==> ({
                let b = r->Ok_0;
                &&& opt_code(self.android, b.android)
                &&& opt_code(self.chrome, b.chrome)
                &&& opt_code(self.edge, b.edge)
                &&& opt_code(self.firefox, b.firefox)
                &&& opt_code(self.ie, b.ie)
                &&& opt_code(self.ios_saf, b.ios_saf)
                &&& opt_code(self.opera, b.opera)
                &&& opt_code(self.safari, b.safari)
                &&& opt_code(self.samsung, b.samsung)
            }),
            r is Ok ==> r->Ok_0 == self.spec_versions(),
    {
        let android = version_of(&self.android)?;
        let chrome = version_of(&self.chrome)?;
        let edge = version_of(&self.edge)?;
        let firefox = version_of(&self.firefox)?;
        let ie = version_of(&self.ie)?;
        let ios_saf = version_of(&self.ios_saf)?;
        let opera = version_of(&self.opera)?;
        let safari = version_of(&self.safari)?;
        let samsung = version_of(&self.samsung)?;
        Ok(BrowserVersions { android, chrome, edge, firefox, ie, ios_saf, opera, safari, samsung })
    }
}

/// What a configured version reads as.
pub open spec fn code_of(v: Option<String>) -> Option<u32> {
    match v {
        Some(s) => Some(version_code(split_dots(s@), split_dots(s@).len() as int)),
        None => None,
    }
}

impl SabryLightTargets {
    /// The version codes of the configured browsers.
    pub open spec fn spec_versions(&self) -> BrowserVersions {
        BrowserVersions {
            android: code_of(self.android),
            chrome: code_of(self.chrome),
            edge: code_of(self.edge),
            firefox: code_of(self.firefox),
            ie: code_of(self.ie),
            ios_saf: code_of(self.ios_saf),
            opera: code_of(self.opera),
            safari: code_of(self.safari),
            samsung: code_of(self.samsung),
        }
    }
}

pub open spec fn opt_invalid(v: Option<String>) -> bool {
    match v {
        Some(s) => !version_ok(s@),
        None => false,
    }
}

/// `code` is what the configured `v` reads as.
pub open spec fn opt_code(v: Option<String>, code: Option<u32>) -> bool {
    match v {
        Some(s) => code == Some(version_code(split_dots(s@), split_dots(s@).len() as int)),
        None => code is None,
    }
}

fn version_of(v: &Option<String>) -> (r: Result<Option<u32>, String>)
    ensures
        r is Ok <==> !opt_invalid(*v),
        r is Ok ==> opt_code(*v, r->Ok_0),
{
    match v {
        Some(s) => match SabryLightTargets::try_parse_ver(s.as_str()) {
            Some(code) => Ok(Some(code)),
            None => Err(s.clone()),
        },
        None => Ok(None),
    }
}

/// The `[package.metadata]` table of a manifest, as far as this library reads it.
#[derive(Debug)]
pub struct ValuableManifestPkgMeta {
    pub sabry: Option<SabryConfig>,
}

/// The `[package]` table of a manifest, as far as this library reads it.
#[derive(Debug)]
pub struct ValuableManifestPkg {
    pub metadata: Option<ValuableManifestPkgMeta>,
}

/// A project manifest, as far as this library reads it.
#[derive(Debug)]
pub struct ValuableManifest {
    pub package: Option<ValuableManifestPkg>,
}

/// The configuration a manifest gives, if its `[package.metadata.sabry]` table is there.
pub open spec fn manifest_config(m: ValuableManifest) -> Option<SabryConfig> {
    match m.package {
        Some(p) => match p.metadata {
            Some(md) => md.sabry,
            None => None,
        },
        None => None,
    }
}

/// A configuration with every documented default.
pub open spec fn is_default_config(r: SabryConfig) -> bool {
    &&& r.scoping == ScopingMode::Composition
    &&& r.css.bundle is None
    &&& r.css.scopes is None
    &&& r.css.prelude is None
    &&& r.css.minify == true
    &&& r.sass.scanroot@ == seq!['s', 'r', 'c']
    &&& r.sass.modules is None
    &&& r.sass.prelude is None
    &&& r.sass.intermediate_dir@ == "target/.sabry/sass"@
    &&& r.sass.module_name_collision == BehavSassModCollision::Merge
    &&& r.hash == SabryHashConfig::spec_default()
}

impl SabryConfig {
    /// The configuration that a manifest gives: its `[package.metadata.sabry]` table,
    /// or the defaults where that table is missing.
    pub fn from_manifest(m: ValuableManifest) -> (r: Self)
        ensures
            manifest_config(m) is Some ==> r == manifest_config(m)->0,
            manifest_config(m) is None ==> is_default_config(r),
    {
        match m.package {
            Some(p) => match p.metadata {
                Some(md) => match md.sabry {
                    Some(c) => c,
                    None => SabryConfig::default(),
                },
                None => SabryConfig::default(),
            },
            None => SabryConfig::default(),
        }
    }
}

} // verus!
