//! The scope hash: a deterministic digest of the enabled facets of a scope,
//! truncated, encoded URL-safe without padding and sanitized into an identifier.
use vstd::prelude::*;
use vstd::utf8::*;

use crate::config::SabryHashConfig;
use crate::sanitize::{apply_basic_rusty_member_gen_rules, sanitized};
use crate::scoper::ArbitraryScope;
use crate::syntax::{
    derefs, parsed_statements, selectors_in, Node, OneSyntaxToRuleThemAll, ParseReport, Simple,
};

verus! {

/// A hash given to a scope. Equality is by value.
#[derive(Debug, PartialEq, Eq, Hash)]
pub struct ScopeHash(String);

impl View for ScopeHash {
    type V = Seq<char>;

    closed spec fn view(&self) -> Seq<char> {
        self.0@
    }
}

impl ScopeHash {
    pub fn as_str(&self) -> (r: &str)
        ensures
            r@ == self@,
    {
        self.0.as_str()
    }

    /// A hash with the given text, as tests and callers with a known hash need.
    pub fn test_init(v: String) -> (r: Self)
        ensures
            r@ == v@,
    {
        ScopeHash(v)
    }
}

/// Length in bytes of the digest the hash is cut from.
pub const DIGEST_LEN: usize = 32;

/// The BLAKE3 digest of a byte string, at its default output length.
pub uninterp spec fn blake3_digest(input: Seq<u8>) -> Seq<u8>;

/// Relies on `blake3::hash`: the default-length (32-byte) digest of the input,
/// equal to feeding the same bytes to a `Hasher` in any number of updates.
#[verifier::external_body]
fn blake3_hash(input: &[u8]) -> (r: Vec<u8>)
    ensures
        r@ == blake3_digest(input@),
        r@.len() == DIGEST_LEN,
{
    blake3::hash(input).as_bytes().to_vec()
}

/// The character of the URL-safe base64 alphabet for a six-bit value.
pub open spec fn b64_char(v: int) -> char {
    if v < 26 {
        ((65 + v) as u8) as char
    } else if v < 52 {
        ((97 + v - 26) as u8) as char
    } else if v < 62 {
        ((48 + v - 52) as u8) as char
    } else if v == 62 {
        '-'
    } else {
        '_'
    }
}

/// The URL-safe base64 text of a byte string, without padding: every three bytes
/// become four characters, a last two bytes three, a last byte two.
pub open spec fn base64_url_no_pad(b: Seq<u8>) -> Seq<char>
    decreases b.len(),
{
    let x0 = if b.len() > 0 { b[0] as int } else { 0 };
    let x1 = if b.len() > 1 { b[1] as int } else { 0 };
    let x2 = if b.len() > 2 { b[2] as int } else { 0 };
    if b.len() == 0 {
        Seq::empty()
    } else if b.len() == 1 {
        seq![b64_char(x0 / 4), b64_char((x0 % 4) * 16)]
    } else if b.len() == 2 {
        seq![b64_char(x0 / 4), b64_char((x0 % 4) * 16 + x1 / 16), b64_char((x1 % 16) * 4)]
    } else {
        seq![
            b64_char(x0 / 4),
            b64_char((x0 % 4) * 16 + x1 / 16),
            b64_char((x1 % 16) * 4 + x2 / 64),
            b64_char(x2 % 64),
        ] + base64_url_no_pad(b.subrange(3, b.len() as int))
    }
}

proof fn lemma_base64_len(b: Seq<u8>)
    ensures
        base64_url_no_pad(b).len() == (4 * b.len() + 2) / 3,
    decreases b.len(),
{
    if b.len() >= 3 {
        lemma_base64_len(b.subrange(3, b.len() as int));
    }
}

/// Relies on base64's `URL_SAFE_NO_PAD` engine: the URL-safe alphabet (`-` and `_`
/// for 62 and 63), no padding.
#[verifier::external_body]
fn encode_base64(b: &[u8]) -> (r: String)
    ensures
        r@ == base64_url_no_pad(b@),
{
    base64::Engine::encode(&base64::engine::general_purpose::URL_SAFE_NO_PAD, b)
}

/// The eight little-endian bytes of `n`, taken from the `k`-th byte on.
pub open spec fn le_bytes_from(n: nat, k: nat) -> Seq<u8>
    decreases 8 - k,
{
    if k >= 8 {
        Seq::empty()
    } else {
        seq![(n % 256) as u8] + le_bytes_from(n / 256, k + 1)
    }
}

/// The eight little-endian bytes of `n`.
pub open spec fn le_bytes(n: nat) -> Seq<u8> {
    le_bytes_from(n, 0)
}

/// The bytes of the literal names of the classes (or of the ids) among `s`, in order.
pub open spec fn names_bytes(s: Seq<Simple>, ids: bool) -> Seq<u8>
    decreases s.len(),
{
    if s.len() == 0 {
        Seq::empty()
    } else {
        let before = names_bytes(s.drop_last(), ids);
        match s.last() {
            Simple::Class(Some(i)) => if !ids {
                before + encode_utf8(i.raw@)
            } else {
                before
            },
            Simple::Id(Some(i)) => if ids {
                before + encode_utf8(i.raw@)
            } else {
                before
            },
            _ => before,
        }
    }
}

/// What is digested for a scope named `name` with source `source` and simple
/// selectors `sels`: in this order and only where enabled, the bytes of the name, the
/// bytes of the source, the little-endian length of the source, and the literal names
/// of the classes then of the ids.
pub open spec fn hash_input_of(
    name: Seq<char>,
    source: Seq<char>,
    sels: Seq<Simple>,
    config: SabryHashConfig,
) -> Seq<u8> {
    let src = encode_utf8(source);
    (if config.use_scope_name { encode_utf8(name) } else { Seq::empty() }) + (
    if config.use_code_text { src } else { Seq::empty() }) + (if config.use_code_size {
        le_bytes(src.len())
    } else {
        Seq::empty()
    }) + (if config.use_item_names {
        names_bytes(sels, false) + names_bytes(sels, true)
    } else {
        Seq::empty()
    })
}

/// What is digested for a parsed scope.
pub open spec fn hash_input(scope: ArbitraryScope, config: SabryHashConfig) -> Seq<u8> {
    hash_input_of(scope.name@, scope.adapter.spec_source(), scope.adapter.spec_selectors(), config)
}

/// How many digest bytes the hash is made of.
pub open spec fn hash_size(config: SabryHashConfig) -> nat {
    if config.size >= DIGEST_LEN { DIGEST_LEN as nat } else { config.size as nat }
}

/// The hash of digested bytes: the digest cut to the configured size, encoded
/// URL-safe without padding and sanitized into an identifier.
pub open spec fn hash_of_input(input: Seq<u8>, config: SabryHashConfig) -> Seq<char> {
    sanitized(base64_url_no_pad(blake3_digest(input).subrange(0, hash_size(config) as int)))
}

/// The hash of a parsed scope.
pub open spec fn scope_hash(scope: ArbitraryScope, config: SabryHashConfig) -> Seq<char> {
    hash_of_input(hash_input(scope, config), config)
}

/// The hash of the scope named `name` with source `source` in `syntax`; `None`
/// where the source does not parse.
pub open spec fn source_hash(
    name: Seq<char>,
    source: Seq<char>,
    syntax: OneSyntaxToRuleThemAll,
    config: SabryHashConfig,
) -> Option<Seq<char>> {
    match parsed_statements(source, syntax) {
        Ok(st) => Some(hash_of_input(hash_input_of(name, source, selectors_in(st), config), config)),
        Err(_) => None,
    }
}

fn push_slice(out: &mut Vec<u8>, b: &[u8])
    ensures
        final(out)@ == old(out)@ + b@,
{
    let n = b.len();
    let mut i: usize = 0;
    while i < n
        invariant
            n == b@.len(),
            i <= n,
            out@ == old(out)@ + b@.subrange(0, i as int),
        decreases n - i,
    {
        out.push(b[i]);
        i = i + 1;
        assert(out@ =~= old(out)@ + b@.subrange(0, i as int));
    }
    assert(b@.subrange(0, n as int) =~= b@);
}

fn push_le_bytes(out: &mut Vec<u8>, n: usize)
    ensures
        final(out)@ == old(out)@ + le_bytes(n as nat),
{
    let mut x: u64 = n as u64;
    let mut k: u64 = 0;
    while k < 8
        invariant
            k <= 8,
            old(out)@ + le_bytes(n as nat) == out@ + le_bytes_from(x as nat, k as nat),
        decreases 8 - k,
    {
        let ghost before = out@;
        out.push((x % 256) as u8);
        proof {
            assert(le_bytes_from(x as nat, k as nat) == seq![(x % 256) as u8] + le_bytes_from(
                (x / 256) as nat,
                (k + 1) as nat,
            ));
            assert(out@ + le_bytes_from((x / 256) as nat, (k + 1) as nat) =~= before
                + le_bytes_from(x as nat, k as nat));
        }
        x = x / 256;
        k = k + 1;
    }
    assert(out@ + le_bytes_from(x as nat, k as nat) =~= out@);
}

fn push_names(out: &mut Vec<u8>, sels: &Vec<&Simple>, ids: bool)
    ensures
        final(out)@ == old(out)@ + names_bytes(derefs(sels@), ids),
{
    let ghost s = derefs(sels@);
    let n = sels.len();
    let mut i: usize = 0;
    while i < n
        invariant
            n == sels@.len(),
            s == derefs(sels@),
            i <= n,
            out@ == old(out)@ + names_bytes(s.subrange(0, i as int), ids),
        decreases n - i,
    {
        let ghost before = out@;
        let x: &Simple = sels[i];
        match x {
            Simple::Class(Some(name)) => if !ids {
                push_slice(out, name.raw.as_str().as_bytes());
            },
            Simple::Id(Some(name)) => if ids {
                push_slice(out, name.raw.as_str().as_bytes());
            },
            _ => {},
        }
        proof {
            let t = s.subrange(0, i + 1);
            assert(t.drop_last() =~= s.subrange(0, i as int));
            assert(t.last() == s[i as int]);
            assert(out@ =~= old(out)@ + names_bytes(t, ids));
        }
        i = i + 1;
    }
    assert(s.subrange(0, n as int) =~= s);
}

/// The bytes digested for `scope` under `config`.
pub fn make_hash_input(scope: &ArbitraryScope, config: &SabryHashConfig) -> (r: Vec<u8>)
    ensures
        r@ == hash_input(*scope, *config),
{
    let src = scope.adapter().source();
    let mut out: Vec<u8> = Vec::new();
    let ghost p0 = if config.use_scope_name { encode_utf8(scope.name@) } else { Seq::<u8>::empty() };
    if config.use_scope_name {
        push_slice(&mut out, scope.name.as_str().as_bytes());
    }
    assert(out@ =~= p0);
    if config.use_code_text {
        push_slice(&mut out, src.as_bytes());
    }
    if config.use_code_size {
        push_le_bytes(&mut out, src.as_bytes().len());
    }
    if config.use_item_names {
        let sels = scope.adapter().selectors();
        push_names(&mut out, &sels, false);
        push_names(&mut out, &sels, true);
    }
    assert(out@ =~= hash_input(*scope, *config));
    out
}

impl ScopeHash {
    /// Hashes `scope` under `config` (see [scope_hash]). A size of 0 gives the empty
    /// hash; a hash of `k` digest bytes (at most 32) has at most `ceil(4k/3) + 1`
    /// characters, so none is longer than 44.
    pub fn new(scope: &ArbitraryScope, config: &SabryHashConfig) -> (r: Self)
        ensures
            r@ == scope_hash(*scope, *config),
            config.size == 0 ==> r@.len() == 0,
            r@.len() <= (4 * hash_size(*config) + 2) / 3 + 1,
            r@.len() <= 44,
    {
        proof {
            let d = blake3_digest(hash_input(*scope, *config)).subrange(0, hash_size(*config) as int);
            lemma_base64_len(d);
            crate::sanitize::lemma_sanitized_len(base64_url_no_pad(d));
        }
        let input = make_hash_input(scope, config);
        let digest = blake3_hash(input.as_slice());
        let size = if config.size >= DIGEST_LEN {
            DIGEST_LEN
        } else {
            config.size
        };
        let mut cut: Vec<u8> = Vec::new();
        let mut i: usize = 0;
        while i < size
            invariant
                size <= digest@.len(),
                i <= size,
                cut@ == digest@.subrange(0, i as int),
            decreases size - i,
        {
            cut.push(digest[i]);
            i = i + 1;
            assert(cut@ =~= digest@.subrange(0, i as int));
        }
        let encoded = encode_base64(cut.as_slice());
        ScopeHash(apply_basic_rusty_member_gen_rules(encoded.as_str()))
    }
}

/// Hashing is deterministic: a scope parsed from a source gets the hash that its
/// name, source and syntax determine, so two scopes with the same name, parsed from
/// the same source in the same syntax, get the same hash under the same configuration.
pub proof fn lemma_hash_deterministic(
    a: ArbitraryScope,
    b: ArbitraryScope,
    source: Seq<char>,
    syntax: OneSyntaxToRuleThemAll,
    config: SabryHashConfig,
)
    requires
        a.name@ == b.name@,
        a.adapter.spec_source() == source,
        b.adapter.spec_source() == source,
        parsed_statements(source, syntax) == Ok::<Seq<Node>, ParseReport>(a.adapter.spec_statements()),
        parsed_statements(source, syntax) == Ok::<Seq<Node>, ParseReport>(b.adapter.spec_statements()),
    ensures
        source_hash(a.name@, source, syntax, config) == Some(scope_hash(a, config)),
        scope_hash(a, config) == scope_hash(b, config),
{
}

} // verus!
