//! Scoping of selectors: each class, id, tag and global-modifier selector of a
//! scope gets a hashed CSS form, spliced back into the source at its span, and a
//! host-facing form for markup.
use vstd::prelude::*;
use vstd::string::*;

use vstd::utf8::*;

use crate::config::SabryHashConfig;
use crate::hash::{scope_hash, ScopeHash};
use crate::sanitize::{apply_basic_rusty_member_gen_rules, sanitized};
use crate::syntax::{
    derefs, parsed_statements, Node, OneSyntaxToRuleThemAll, ParseFailure, ParseReport, Simple, Span,
    StylesheetAdapter,
};
use crate::text::{byte_slice, str_equals};

verus! {

/// The kind of a scoped selector.
#[derive(Debug, Clone, Copy, PartialEq, Eq, Structural, Hash)]
pub enum SelectorKind {
    Class,
    Id,
    Tag,
    Glob,
}

/// How the hash is combined with a selector; one mode holds for a whole build.
#[derive(Debug, Clone, Copy, PartialEq, Eq, Structural)]
pub enum ScopingMode {
    /// Classes get the hash as a second class, ids get it as a prefix, tags are
    /// scoped under an element bearing the hash class.
    Composition,
    /// Every selector gets the hash appended as a class.
    Attachment,
}

/// Mathematical model of a scoped selector.
pub struct SelectorModel {
    pub kind: SelectorKind,
    /// The selector's text as written (for a global modifier, its whole text).
    pub ident: Seq<char>,
    /// Where that text stands in the source.
    pub span: Span,
    /// For a global modifier, the span of the wrapped selector; else equal to `span`.
    pub inner: Span,
    /// For a global modifier, the text of the wrapped selector; else empty.
    pub raw: Seq<char>,
}

/// Just any simple CSS selector: its text and where it stands.
#[derive(Debug, PartialEq, Eq, Hash)]
pub struct ArbitrarySelector {
    pub ident: String,
    pub span: Span,
}

/// A selector that can be scoped, and then hashed.
#[derive(Debug, PartialEq, Eq, Hash)]
pub enum ScopedSelector {
    Class(ArbitrarySelector),
    Id(ArbitrarySelector),
    Tag(ArbitrarySelector),
    Glob { origin: ArbitrarySelector, inner_span: Span, raw: String },
}

impl View for ScopedSelector {
    type V = SelectorModel;

    open spec fn view(&self) -> SelectorModel {
        match self {
            ScopedSelector::Class(a) => SelectorModel {
                kind: SelectorKind::Class,
                ident: a.ident@,
                span: a.span,
                inner: a.span,
                raw: Seq::empty(),
            },
            ScopedSelector::Id(a) => SelectorModel {
                kind: SelectorKind::Id,
                ident: a.ident@,
                span: a.span,
                inner: a.span,
                raw: Seq::empty(),
            },
            ScopedSelector::Tag(a) => SelectorModel {
                kind: SelectorKind::Tag,
                ident: a.ident@,
                span: a.span,
                inner: a.span,
                raw: Seq::empty(),
            },
            ScopedSelector::Glob { origin, inner_span, raw } => SelectorModel {
                kind: SelectorKind::Glob,
                ident: origin.ident@,
                span: origin.span,
                inner: *inner_span,
                raw: raw@,
            },
        }
    }
}

/// The text put in place of a selector in the rewritten stylesheet.
pub open spec fn css_form(m: SelectorModel, hash: Seq<char>, mode: ScopingMode) -> Seq<char> {
    match mode {
        ScopingMode::Composition => match m.kind {
            SelectorKind::Class => hash + seq!['.'] + m.ident,
            SelectorKind::Id => hash + seq!['-'] + m.ident,
            SelectorKind::Tag => seq!['.'] + hash + seq![' '] + m.ident,
            SelectorKind::Glob => m.raw,
        },
        ScopingMode::Attachment => match m.kind {
            SelectorKind::Glob => m.raw,
            _ => m.ident + seq!['.'] + hash,
        },
    }
}

/// The string that markup must carry for the rewritten selector to match it;
/// `None` for tags and global modifiers.
pub open spec fn html_form(m: SelectorModel, hash: Seq<char>, mode: ScopingMode) -> Option<
    Seq<char>,
> {
    match mode {
        ScopingMode::Composition => match m.kind {
            SelectorKind::Class => Some(hash + seq![' '] + m.ident),
            SelectorKind::Id => Some(hash + seq!['-'] + m.ident),
            _ => None,
        },
        ScopingMode::Attachment => match m.kind {
            SelectorKind::Class => Some(m.ident + seq![' '] + hash),
            SelectorKind::Id => Some(m.ident),
            _ => None,
        },
    }
}

/// The host identifier of a selector: its sanitized text, prefixed `the` for ids and
/// `any` for tags; global modifiers have none.
pub open spec fn rusty_ident(m: SelectorModel) -> Option<Seq<char>> {
    match m.kind {
        SelectorKind::Class => Some(sanitized(m.ident)),
        SelectorKind::Id => Some(seq!['t', 'h', 'e'] + sanitized(m.ident)),
        SelectorKind::Tag => Some(seq!['a', 'n', 'y'] + sanitized(m.ident)),
        SelectorKind::Glob => None,
    }
}

/// `a`, `b` and `c` written one after the other.
pub fn concat3(a: &str, b: &str, c: &str) -> (r: String)
    ensures
        r@ == a@ + b@ + c@,
{
    let mut s = String::from_str(a);
    s.append(b);
    s.append(c);
    s
}

impl ScopedSelector {
    /// Borrows the underlying [ArbitrarySelector].
    pub fn as_arbitrary(&self) -> (r: &ArbitrarySelector)
        ensures
            r.ident@ == self@.ident,
            r.span == self@.span,
    {
        match self {
            ScopedSelector::Class(a) => a,
            ScopedSelector::Id(a) => a,
            ScopedSelector::Tag(a) => a,
            ScopedSelector::Glob { origin, .. } => origin,
        }
    }

    /// Host identifier for this selector, built from its sanitized text: as is for a
    /// class, prefixed `the` for an id and `any` for a tag; none for a global modifier.
    pub fn gen_rusty_ident(&self) -> (r: Option<String>)
        ensures
            r is Some <==> rusty_ident(self@) is Some,
            r is Some ==> r->0@ == rusty_ident(self@)->0,
    {
        let basic = apply_basic_rusty_member_gen_rules(self.as_arbitrary().ident.as_str());
        proof {
            reveal_strlit("the");
            reveal_strlit("any");
            reveal_strlit("");
            assert("the"@ =~= seq!['t', 'h', 'e']);
            assert("any"@ =~= seq!['a', 'n', 'y']);
        }
        match self {
            ScopedSelector::Class(_) => Some(basic),
            ScopedSelector::Id(_) => {
                let r = concat3("the", basic.as_str(), "");
                assert(r@ =~= seq!['t', 'h', 'e'] + sanitized(self@.ident));
                Some(r)
            },
            ScopedSelector::Tag(_) => {
                let r = concat3("any", basic.as_str(), "");
                assert(r@ =~= seq!['a', 'n', 'y'] + sanitized(self@.ident));
                Some(r)
            },
            ScopedSelector::Glob { .. } => None,
        }
    }
}

/// Mathematical model of a hashed selector.
pub struct HashedModel {
    pub sel: SelectorModel,
    pub css: Seq<char>,
    pub html: Option<Seq<char>>,
}

/// A selector of a hashed scope with its two hashed forms.
#[derive(Debug, PartialEq, Eq, Hash)]
pub struct HashedSelector {
    pub sel: ScopedSelector,
    /// What stands in place of the selector in the rewritten stylesheet.
    pub css_ident: String,
    /// What markup must carry to match `css_ident`, where anything can.
    pub html_ident: Option<String>,
}

pub open spec fn opt_view(o: Option<String>) -> Option<Seq<char>> {
    match o {
        Some(s) => Some(s@),
        None => None,
    }
}

impl View for HashedSelector {
    type V = HashedModel;

    open spec fn view(&self) -> HashedModel {
        HashedModel { sel: self.sel@, css: self.css_ident@, html: opt_view(self.html_ident) }
    }
}

/// The hashed selector that `m` becomes under `hash` and `mode`.
pub open spec fn hashed_model(m: SelectorModel, hash: Seq<char>, mode: ScopingMode) -> HashedModel {
    HashedModel { sel: m, css: css_form(m, hash, mode), html: html_form(m, hash, mode) }
}

impl HashedSelector {
    /// Hashes `sel` under `hash` and `mode`.
    pub fn new(sel: ScopedSelector, hash: &str, mode: ScopingMode) -> (r: HashedSelector)
        ensures
            r@ == hashed_model(sel@, hash@, mode),
    {
        let css_ident = Self::make_hashed_css(&sel, hash, mode);
        let html_ident = Self::make_hashed_html(&sel, hash, mode);
        HashedSelector { sel, css_ident, html_ident }
    }

    /// The selector's form in the rewritten stylesheet.
    pub fn make_hashed_css(value: &ScopedSelector, hash: &str, mode: ScopingMode) -> (r: String)
        ensures
            r@ == css_form(value@, hash@, mode),
    {
        proof {
            reveal_strlit(".");
            reveal_strlit("-");
            reveal_strlit(" ");
            reveal_strlit("");
        }
        match mode {
            ScopingMode::Composition => match value {
                ScopedSelector::Class(a) => concat3(hash, ".", a.ident.as_str()),
                ScopedSelector::Id(a) => concat3(hash, "-", a.ident.as_str()),
                ScopedSelector::Tag(a) => {
                    let head = concat3(".", hash, " ");
                    let r = concat3(head.as_str(), a.ident.as_str(), "");
                    assert(r@ =~= seq!['.'] + hash@ + seq![' '] + a.ident@);
                    r
                },
                ScopedSelector::Glob { raw, .. } => raw.clone(),
            },
            ScopingMode::Attachment => match value {
                ScopedSelector::Glob { raw, .. } => raw.clone(),
                _ => concat3(value.as_arbitrary().ident.as_str(), ".", hash),
            },
        }
    }

    /// The selector's form for markup; `None` where markup cannot name it.
    pub fn make_hashed_html(value: &ScopedSelector, hash: &str, mode: ScopingMode) -> (r: Option<
        String,
    >)
        ensures
            opt_view(r) == html_form(value@, hash@, mode),
    {
        proof {
            reveal_strlit("-");
            reveal_strlit(" ");
            reveal_strlit("");
        }
        match mode {
            ScopingMode::Composition => match value {
                ScopedSelector::Class(a) => Some(concat3(hash, " ", a.ident.as_str())),
                ScopedSelector::Id(a) => Some(concat3(hash, "-", a.ident.as_str())),
                _ => None,
            },
            ScopingMode::Attachment => match value {
                ScopedSelector::Class(a) => Some(concat3(a.ident.as_str(), " ", hash)),
                ScopedSelector::Id(a) => {
                    let r = a.ident.clone();
                    Some(r)
                },
                _ => None,
            },
        }
    }
}

/// Views of a sequence of hashed selectors.
pub open spec fn hviews(v: Seq<HashedSelector>) -> Seq<HashedModel> {
    v.map_values(|h: HashedSelector| h@)
}

/// `s` with `x` inserted before the first element that starts after `x`.
pub open spec fn insert_sorted(s: Seq<HashedModel>, x: HashedModel) -> Seq<HashedModel>
    decreases s.len(),
{
    if s.len() == 0 {
        seq![x]
    } else if s[0].sel.span.start > x.sel.span.start {
        seq![x] + s
    } else {
        seq![s[0]] + insert_sorted(s.drop_first(), x)
    }
}

/// `s` sorted by span start, stably (insertion sort).
pub open spec fn sort_by_start(s: Seq<HashedModel>) -> Seq<HashedModel>
    decreases s.len(),
{
    if s.len() == 0 {
        Seq::empty()
    } else {
        insert_sorted(sort_by_start(s.drop_last()), s.last())
    }
}

proof fn lemma_insert_sorted_at(s: Seq<HashedModel>, x: HashedModel, j: int)
    requires
        0 <= j <= s.len(),
        forall|k: int| 0 <= k < j ==> s[k].sel.span.start <= x.sel.span.start,
        j == s.len() || s[j].sel.span.start > x.sel.span.start,
    ensures
        insert_sorted(s, x) == s.insert(j, x),
    decreases j,
{
    if j == 0 {
        assert(insert_sorted(s, x) =~= s.insert(0, x));
    } else {
        lemma_insert_sorted_at(s.drop_first(), x, j - 1);
        assert(insert_sorted(s, x) =~= s.insert(j, x));
    }
}

/// Sorts hashed selectors by span start, keeping the order of equal starts.
pub fn sort_selectors(v: Vec<HashedSelector>) -> (r: Vec<HashedSelector>)
    ensures
        hviews(r@) == sort_by_start(hviews(v@)),
{
    let mut out: Vec<HashedSelector> = Vec::new();
    let mut rest = v;
    let ghost all = v@;
    let mut taken: usize = 0;
    let n = rest.len();
    // Elements leave `rest` from the front; `out` holds the sorted ones taken so far.
    assert(rest@ =~= all.subrange(0, n as int));
    while taken < n
        invariant
            n == all.len(),
            taken <= n,
            rest@ =~= all.subrange(taken as int, n as int),
            hviews(out@) == sort_by_start(hviews(all.subrange(0, taken as int))),
        decreases n - taken,
    {
        let x = rest.remove(0);
        proof {
            assert(x == all[taken as int]);
        }
        let m = out.len();
        let mut j: usize = 0;
        while j < m && out[j].sel.as_arbitrary().span.start <= x.sel.as_arbitrary().span.start
            invariant
                m == out@.len(),
                j <= m,
                forall|k: int| 0 <= k < j ==> out@[k].sel@.span.start <= x.sel@.span.start,
            decreases m - j,
        {
            j = j + 1;
        }
        proof {
            let hv = hviews(out@);
            lemma_insert_sorted_at(hv, x@, j as int);
            let pre = hviews(all.subrange(0, taken as int));
            let next = hviews(all.subrange(0, taken + 1));
            assert(next.drop_last() =~= pre);
            assert(next.last() == x@);
        }
        let ghost before = out@;
        out.insert(j, x);
        taken = taken + 1;
        proof {
            assert(hviews(out@) =~= hviews(before).insert(j as int, x@));
            assert(rest@ =~= all.subrange(taken as int, n as int));
        }
    }
    assert(all.subrange(0, n as int) =~= all);
    out
}

/// Whether `v` is ordered by span start.
pub open spec fn sorted_by_start(v: Seq<HashedModel>) -> bool {
    forall|i: int, j: int| 0 <= i < j < v.len() ==> v[i].sel.span.start <= v[j].sel.span.start
}

/// Where `insert_sorted` puts `x` into `s`.
pub open spec fn insert_pos(s: Seq<HashedModel>, x: HashedModel) -> int
    decreases s.len(),
{
    if s.len() == 0 || s[0].sel.span.start > x.sel.span.start {
        0
    } else {
        1 + insert_pos(s.drop_first(), x)
    }
}

proof fn lemma_insert_sorted_is_insert(s: Seq<HashedModel>, x: HashedModel)
    ensures
        0 <= insert_pos(s, x) <= s.len(),
        insert_sorted(s, x) == s.insert(insert_pos(s, x), x),
    decreases s.len(),
{
    if s.len() == 0 || s[0].sel.span.start > x.sel.span.start {
        assert(insert_sorted(s, x) =~= s.insert(0, x));
    } else {
        lemma_insert_sorted_is_insert(s.drop_first(), x);
        assert(insert_sorted(s, x) =~= s.insert(insert_pos(s, x), x));
    }
}

proof fn lemma_insert_sorted_sorted(s: Seq<HashedModel>, x: HashedModel)
    requires
        sorted_by_start(s),
    ensures
        sorted_by_start(insert_sorted(s, x)),
    decreases s.len(),
{
    if s.len() > 0 && s[0].sel.span.start <= x.sel.span.start {
        let rest = s.drop_first();
        assert(sorted_by_start(rest)) by {
            assert forall|i: int, j: int| 0 <= i < j < rest.len() implies rest[i].sel.span.start
                <= rest[j].sel.span.start by {
                assert(rest[i] == s[i + 1] && rest[j] == s[j + 1]);
            }
        }
        lemma_insert_sorted_sorted(rest, x);
        lemma_insert_sorted_is_insert(rest, x);
        let r = insert_sorted(rest, x);
        let p = insert_pos(rest, x);
        assert forall|k: int| 0 <= k < r.len() implies s[0].sel.span.start <= r[k].sel.span.start by {
            if k < p {
                assert(r[k] == rest[k] && rest[k] == s[k + 1]);
            } else if k > p {
                assert(r[k] == rest[k - 1] && rest[k - 1] == s[k]);
            }
        }
        assert(insert_sorted(s, x) =~= seq![s[0]] + r);
    } else if s.len() > 0 {
        assert(insert_sorted(s, x) =~= seq![x] + s);
    }
}

/// `sort_by_start` orders by span start and keeps every element: its result is sorted
/// and holds the same multiset of hashed selectors.
pub proof fn lemma_sort_by_start(s: Seq<HashedModel>)
    ensures
        sorted_by_start(sort_by_start(s)),
        sort_by_start(s).to_multiset() == s.to_multiset(),
    decreases s.len(),
{
    broadcast use vstd::seq_lib::to_multiset_insert, vstd::seq_lib::to_multiset_build;

    if s.len() > 0 {
        let t = sort_by_start(s.drop_last());
        lemma_sort_by_start(s.drop_last());
        lemma_insert_sorted_sorted(t, s.last());
        lemma_insert_sorted_is_insert(t, s.last());
        assert(s =~= s.drop_last().push(s.last()));
    } else {
        assert(sort_by_start(s) =~= s);
    }
}

/// Two spans share no byte.
pub open spec fn spans_disjoint(a: Span, b: Span) -> bool {
    a.end <= b.start || b.end <= a.start
}

/// Disjoint spans fit once sorted: where every span is non-empty, lies inside `src`
/// between character boundaries, and shares no byte with any other, the selectors
/// in span order follow each other as splicing needs (see [spans_fit]). With
/// [lemma_sort_by_start], this holds of the order `HashedScope::new` uses.
pub proof fn lemma_disjoint_spans_fit(src: Seq<u8>, v: Seq<HashedModel>)
    requires
        sorted_by_start(v),
        forall|i: int|
            0 <= i < v.len() ==> span_in(src, (#[trigger] v[i]).sel.span) && v[i].sel.span.start
                < v[i].sel.span.end,
        forall|i: int, j: int|
            0 <= i < v.len() && 0 <= j < v.len() && i != j ==> spans_disjoint(
                (#[trigger] v[i]).sel.span,
                (#[trigger] v[j]).sel.span,
            ),
    ensures
        spans_fit(src, v),
{
    assert forall|i: int| 0 <= i < v.len() implies span_fits(src, v, i) by {
        assert(span_in(src, v[i].sel.span));
        if i > 0 {
            assert(span_in(src, v[i - 1].sel.span));
            assert(spans_disjoint(v[i - 1].sel.span, v[i].sel.span));
            assert(v[i - 1].sel.span.start <= v[i].sel.span.start);
        }
    }
}

proof fn lemma_encode_concat(a: Seq<char>, b: Seq<char>)
    ensures
        encode_utf8(a + b) == encode_utf8(a) + encode_utf8(b),
    decreases a.len(),
{
    if a.len() == 0 {
        assert(a + b =~= b);
        assert(encode_utf8(a) + encode_utf8(b) =~= encode_utf8(b));
    } else {
        assert((a + b).drop_first() =~= a.drop_first() + b);
        lemma_encode_concat(a.drop_first(), b);
        assert(encode_utf8(a + b) =~= encode_utf8(a) + encode_utf8(b));
    }
}

/// Where the untouched text before selector `i` starts.
pub open spec fn prev_end(v: Seq<HashedModel>, i: int) -> int {
    if i <= 0 {
        0
    } else {
        v[i - 1].sel.span.end as int
    }
}

/// Selector `i` stands in order after the one before it, inside the source, at
/// character boundaries.
pub open spec fn span_fits(src: Seq<u8>, v: Seq<HashedModel>, i: int) -> bool {
    let sp = v[i].sel.span;
    &&& prev_end(v, i) <= sp.start
    &&& sp.start <= sp.end
    &&& sp.end <= src.len()
    &&& is_char_boundary(src, sp.start as int)
    &&& is_char_boundary(src, sp.end as int)
}

/// The spans of `v` follow each other without overlap inside `src`, each from
/// one character boundary to another.
pub open spec fn spans_fit(src: Seq<u8>, v: Seq<HashedModel>) -> bool {
    forall|i: int| 0 <= i < v.len() ==> span_fits(src, v, i)
}

/// The rewritten text up to the end of the `k`-th replacement: each gap copied
/// from the source, then the selector's CSS form.
pub open spec fn spliced_prefix(src: Seq<u8>, v: Seq<HashedModel>, k: int) -> Seq<u8>
    decreases k,
{
    if k <= 0 {
        Seq::empty()
    } else {
        spliced_prefix(src, v, k - 1) + src.subrange(prev_end(v, k - 1), v[k - 1].sel.span.start as int)
            + encode_utf8(v[k - 1].css)
    }
}

/// The rewritten text: every selector's span replaced by its CSS form, every
/// byte outside the spans copied once, in order.
pub open spec fn spliced(src: Seq<u8>, v: Seq<HashedModel>) -> Seq<u8> {
    spliced_prefix(src, v, v.len() as int) + src.subrange(prev_end(v, v.len() as int), src.len() as int)
}

/// Splices the CSS form of every selector of `v`, taken in order, into `src` at its
/// span; `None` where the spans do not fit (see [spans_fit]).
pub fn splice(src: &str, v: &Vec<HashedSelector>) -> (r: Option<String>)
    ensures
        r is Some <==> spans_fit(src.spec_bytes(), hviews(v@)),
        r is Some ==> encode_utf8(r->0@) == spliced(src.spec_bytes(), hviews(v@)),
{
    broadcast use encode_utf8_valid_utf8, is_char_boundary_start_end_of_seq;

    let ghost b = src.spec_bytes();
    let ghost hv = hviews(v@);
    let n = v.len();
    let mut out = String::new();
    let mut last: usize = 0;
    let mut i: usize = 0;
    while i < n
        invariant
            n == v@.len(),
            hv == hviews(v@),
            b == src.spec_bytes(),
            valid_utf8(b),
            i <= n,
            last as int == prev_end(hv, i as int),
            last <= b.len(),
            is_char_boundary(b, last as int),
            forall|k: int| 0 <= k < i ==> span_fits(b, hv, k),
            encode_utf8(out@) == spliced_prefix(b, hv, i as int),
        decreases n - i,
    {
        let sel = &v[i];
        let sp = sel.sel.as_arbitrary().span;
        assert(sp == hv[i as int].sel.span);
        if !(last <= sp.start && sp.start <= sp.end && src.is_char_boundary(sp.start)
            && src.is_char_boundary(sp.end)) {
            assert(!span_fits(b, hv, i as int));
            return None;
        }
        let gap = byte_slice(src, last, sp.start).unwrap();
        let ghost before = out@;
        out.append(gap);
        out.append(sel.css_ident.as_str());
        proof {
            lemma_encode_concat(before, gap@);
            lemma_encode_concat(before + gap@, sel.css_ident@);
            assert(out@ == before + gap@ + sel.css_ident@);
        }
        last = sp.end;
        i = i + 1;
    }
    let (_, tail) = src.split_at(last);
    let ghost before = out@;
    out.append(tail);
    proof {
        lemma_encode_concat(before, tail@);
    }
    Some(out)
}

/// The text of `src` under span `sp`.
pub open spec fn text_at(src: Seq<u8>, sp: Span) -> Seq<char> {
    decode_utf8(src.subrange(sp.start as int, sp.end as int))
}

/// A span that lies inside `src` from one character boundary to another.
pub open spec fn span_in(src: Seq<u8>, sp: Span) -> bool {
    sp.start <= sp.end <= src.len() && is_char_boundary(src, sp.start as int) && is_char_boundary(
        src,
        sp.end as int,
    )
}

/// The pseudo-class that opts a selector out of scoping.
pub open spec fn is_global_name(n: Seq<char>) -> bool {
    n == seq!['g', 'l', 'o', 'b', 'a', 'l']
}

/// The scoped selector of kind `kind` that simple selector `x` gives, if any: a
/// class, id or tag with a literal name, or a global modifier wrapping a selector
/// list, of which the first selector is the escape target.
pub open spec fn model_of(x: Simple, kind: SelectorKind, src: Seq<u8>) -> Option<SelectorModel> {
    match x {
        Simple::Class(Some(i)) => if kind == SelectorKind::Class {
            Some(SelectorModel { kind, ident: i.raw@, span: i.span, inner: i.span, raw: Seq::empty() })
        } else {
            None
        },
        Simple::Id(Some(i)) => if kind == SelectorKind::Id {
            Some(SelectorModel { kind, ident: i.raw@, span: i.span, inner: i.span, raw: Seq::empty() })
        } else {
            None
        },
        Simple::Tag(Some(i)) => if kind == SelectorKind::Tag {
            Some(SelectorModel { kind, ident: i.raw@, span: i.span, inner: i.span, raw: Seq::empty() })
        } else {
            None
        },
        Simple::PseudoClass { name: Some(n), inner: Some(v), span } => if kind == SelectorKind::Glob
            && is_global_name(n.raw@) && v@.len() > 0 {
            Some(
                SelectorModel {
                    kind,
                    ident: text_at(src, span),
                    span,
                    inner: v@[0],
                    raw: text_at(src, v@[0]),
                },
            )
        } else {
            None
        },
        _ => None,
    }
}

/// A global modifier that cannot be scoped: it wraps other than exactly one
/// selector, or its spans do not lie on character boundaries of the source.
pub open spec fn glob_unsupported(x: Simple, src: Seq<u8>) -> bool {
    match x {
        Simple::PseudoClass { name: Some(n), inner: Some(v), span } => is_global_name(n.raw@) && (
        v@.len() != 1 || !span_in(src, span) || !span_in(src, v@[0])),
        _ => false,
    }
}

/// Whether any selector of `s` is a global modifier that cannot be scoped.
pub open spec fn has_unsupported_glob(s: Seq<Simple>, src: Seq<u8>) -> bool {
    exists|i: int| 0 <= i < s.len() && glob_unsupported(#[trigger] s[i], src)
}

/// The scoped selectors of kind `kind` among `s`, in order.
pub open spec fn pick(s: Seq<Simple>, kind: SelectorKind, src: Seq<u8>) -> Seq<SelectorModel>
    decreases s.len(),
{
    if s.len() == 0 {
        Seq::empty()
    } else {
        let before = pick(s.drop_last(), kind, src);
        match model_of(s.last(), kind, src) {
            Some(m) => before.push(m),
            None => before,
        }
    }
}

/// Every scoped selector of a stylesheet: classes, then ids, then tags, then global
/// modifiers, each in traversal order.
pub open spec fn collected(s: Seq<Simple>, src: Seq<u8>) -> Seq<SelectorModel> {
    pick(s, SelectorKind::Class, src) + pick(s, SelectorKind::Id, src) + pick(
        s,
        SelectorKind::Tag,
        src,
    ) + pick(s, SelectorKind::Glob, src)
}

/// The hashed selectors that `ms` become under `hash` and `mode`.
pub open spec fn hashed_all(ms: Seq<SelectorModel>, hash: Seq<char>, mode: ScopingMode) -> Seq<
    HashedModel,
> {
    ms.map_values(|m: SelectorModel| hashed_model(m, hash, mode))
}

/// Why a scope could not be built or rewritten.
#[derive(Debug)]
pub enum ScopeError {
    /// The parser refused the source: its diagnostic, and the offending span.
    Parse { kind: String, span: Span },
    /// A global modifier wraps other than exactly one selector, or has a span off
    /// the source's character boundaries.
    UnsupportedGlobal { span: Span },
    /// Selector spans overlap or leave the source.
    Overlap,
}

fn scoped_from(x: &Simple, kind: SelectorKind, src: &str) -> (r: Result<Option<ScopedSelector>, Span>)
    ensures
        r is Err <==> kind == SelectorKind::Glob && glob_unsupported(*x, src.spec_bytes()),
        r is Ok ==> match r->Ok_0 {
            Some(sel) => model_of(*x, kind, src.spec_bytes()) == Some(sel@),
            None => model_of(*x, kind, src.spec_bytes()) is None,
        },
{
    broadcast use encode_utf8_decode_utf8;

    proof {
        reveal_strlit("global");
        assert("global"@ =~= seq!['g', 'l', 'o', 'b', 'a', 'l']);
    }
    match x {
        Simple::Class(Some(i)) => if kind == SelectorKind::Class {
            Ok(Some(ScopedSelector::Class(ArbitrarySelector { ident: i.raw.clone(), span: i.span })))
        } else {
            Ok(None)
        },
        Simple::Id(Some(i)) => if kind == SelectorKind::Id {
            Ok(Some(ScopedSelector::Id(ArbitrarySelector { ident: i.raw.clone(), span: i.span })))
        } else {
            Ok(None)
        },
        Simple::Tag(Some(i)) => if kind == SelectorKind::Tag {
            Ok(Some(ScopedSelector::Tag(ArbitrarySelector { ident: i.raw.clone(), span: i.span })))
        } else {
            Ok(None)
        },
        Simple::PseudoClass { name: Some(n), inner: Some(v), span } => {
            if kind != SelectorKind::Glob || !str_equals(n.raw.as_str(), "global") {
                return Ok(None);
            }
            if v.len() != 1 {
                return Err(*span);
            }
            let inner = v[0];
            let origin_text = byte_slice(src, span.start, span.end);
            let inner_text = byte_slice(src, inner.start, inner.end);
            match (origin_text, inner_text) {
                (Some(o), Some(t)) => {
                    let sel = ScopedSelector::Glob {
                        origin: ArbitrarySelector { ident: o.to_owned(), span: *span },
                        inner_span: inner,
                        raw: t.to_owned(),
                    };
                    Ok(Some(sel))
                },
                _ => Err(*span),
            }
        },
        _ => Ok(None),
    }
}

/// Appends, hashed, the scoped selectors of kind `kind` among `sels`.
fn push_hashed(
    sels: &Vec<&Simple>,
    kind: SelectorKind,
    src: &str,
    hash: &str,
    mode: ScopingMode,
    out: &mut Vec<HashedSelector>,
) -> (r: Result<(), Span>)
    ensures
        r is Err <==> kind == SelectorKind::Glob && has_unsupported_glob(
            derefs(sels@),
            src.spec_bytes(),
        ),
        r is Ok ==> hviews(final(out)@) == hviews(old(out)@) + hashed_all(
            pick(derefs(sels@), kind, src.spec_bytes()),
            hash@,
            mode,
        ),
{
    let ghost s = derefs(sels@);
    let ghost b = src.spec_bytes();
    let n = sels.len();
    let mut i: usize = 0;
    while i < n
        invariant
            n == sels@.len(),
            s == derefs(sels@),
            b == src.spec_bytes(),
            i <= n,
            kind == SelectorKind::Glob ==> forall|k: int| 0 <= k < i ==> !glob_unsupported(#[trigger] s[k], b),
            hviews(out@) == hviews(old(out)@) + hashed_all(
                pick(s.subrange(0, i as int), kind, b),
                hash@,
                mode,
            ),
        decreases n - i,
    {
        let ghost before = out@;
        let x: &Simple = sels[i];
        assert(*x == s[i as int]);
        match scoped_from(x, kind, src) {
            Err(sp) => {
                assert(glob_unsupported(s[i as int], b));
                return Err(sp);
            },
            Ok(Some(sel)) => {
                let ghost m = sel@;
                out.push(HashedSelector::new(sel, hash, mode));
                proof {
                    let t = s.subrange(0, i + 1);
                    assert(t.drop_last() =~= s.subrange(0, i as int));
                    assert(t.last() == s[i as int]);
                    let p0 = pick(s.subrange(0, i as int), kind, b);
                    assert(pick(t, kind, b) == p0.push(m));
                    assert(hashed_all(p0.push(m), hash@, mode) =~= hashed_all(p0, hash@, mode).push(
                        hashed_model(m, hash@, mode),
                    ));
                    assert(hviews(out@) =~= hviews(before).push(hashed_model(m, hash@, mode)));
                }
            },
            Ok(None) => {
                proof {
                    let t = s.subrange(0, i + 1);
                    assert(t.drop_last() =~= s.subrange(0, i as int));
                    assert(t.last() == s[i as int]);
                }
            },
        }
        i = i + 1;
    }
    assert(s.subrange(0, n as int) =~= s);
    Ok(())
}

/// A named scope of stylesheet source, parsed.
pub struct ArbitraryScope {
    /// Name of the scope.
    pub name: String,
    pub adapter: StylesheetAdapter,
}

impl ArbitraryScope {
    /// Parses `source` in `syntax` and names the scope `name`.
    pub fn from_source(syntax: OneSyntaxToRuleThemAll, name: String, source: &str) -> (r: Result<
        Self,
        ScopeError,
    >)
        ensures
            r is Ok <==> parsed_statements(source@, syntax) is Ok,
            r is Ok ==> ({
                let sc = r->Ok_0;
                &&& sc.name@ == name@
                &&& sc.adapter.spec_syntax() == syntax
                &&& sc.adapter.spec_source() == source@
                &&& parsed_statements(source@, syntax) == Ok::<Seq<Node>, ParseReport>(
                    sc.adapter.spec_statements(),
                )
            }),
            r is Err ==> r->Err_0 is Parse,
            r matches Err(ScopeError::Parse { kind, span }) ==> parsed_statements(source@, syntax)
                == Err::<Seq<Node>, ParseReport>(ParseReport { kind: kind@, span }),
    {
        match StylesheetAdapter::new(source, syntax) {
            Ok(adapter) => Ok(ArbitraryScope { name, adapter }),
            Err(ParseFailure { kind, span }) => Err(ScopeError::Parse { kind, span }),
        }
    }

    /// Borrows the parsed stylesheet.
    pub fn adapter(&self) -> (r: &StylesheetAdapter)
        ensures
            r == &self.adapter,
    {
        &self.adapter
    }
}

/// A rewritten scope: the scope as given, its hash, the rewritten source and its
/// hashed selectors in span order.
pub struct HashedScope {
    /// The scope as given; never changed.
    pub original_scope: ArbitraryScope,
    /// The source with every selector replaced by its hashed CSS form.
    pub hashed_code: String,
    /// The hashed selectors, sorted by span start.
    pub hashed_selectors: Vec<HashedSelector>,
    pub hash: ScopeHash,
}

/// The UTF-8 bytes of the scope's source.
pub open spec fn source_bytes(scope: ArbitraryScope) -> Seq<u8> {
    encode_utf8(scope.adapter.spec_source())
}

/// The hashed selectors of a scope in span order.
pub open spec fn ordered_selectors(scope: ArbitraryScope, hash: Seq<char>, mode: ScopingMode) -> Seq<
    HashedModel,
> {
    sort_by_start(
        hashed_all(collected(scope.adapter.spec_selectors(), source_bytes(scope)), hash, mode),
    )
}

impl HashedScope {
    /// Rewrites `scope` under `hash` and `mode`. Fails where a global modifier cannot be
    /// scoped, or where the selector spans, in span order, do not follow each other
    /// inside the source at character boundaries.
    pub fn new(hash: ScopeHash, scope: ArbitraryScope, mode: ScopingMode) -> (r: Result<
        Self,
        ScopeError,
    >)
        ensures
            ({
                let bad_glob = has_unsupported_glob(scope.adapter.spec_selectors(), source_bytes(scope));
                let fits = spans_fit(source_bytes(scope), ordered_selectors(scope, hash@, mode));
                &&& (r is Ok <==> !bad_glob && fits)
                &&& (r is Err ==> (r->Err_0 is UnsupportedGlobal <==> bad_glob))
                &&& (r is Err ==> (r->Err_0 is Overlap <==> !bad_glob && !fits))
            }),
            r is Ok ==> ({
                let hs = r->Ok_0;
                &&& hs.original_scope == scope
                &&& hs.hash@ == hash@
                &&& hviews(hs.hashed_selectors@) == ordered_selectors(scope, hash@, mode)
                &&& encode_utf8(hs.hashed_code@) == spliced(
                    source_bytes(scope),
                    ordered_selectors(scope, hash@, mode),
                )
            }),
    {
        let src = scope.adapter.source();
        let sels = scope.adapter.selectors();
        let h = hash.as_str();
        let mut all: Vec<HashedSelector> = Vec::new();
        let ghost s = derefs(sels@);
        let ghost b = src.spec_bytes();
        if let Err(span) = push_hashed(&sels, SelectorKind::Class, src, h, mode, &mut all) {
            return Err(ScopeError::UnsupportedGlobal { span });
        }
        if let Err(span) = push_hashed(&sels, SelectorKind::Id, src, h, mode, &mut all) {
            return Err(ScopeError::UnsupportedGlobal { span });
        }
        if let Err(span) = push_hashed(&sels, SelectorKind::Tag, src, h, mode, &mut all) {
            return Err(ScopeError::UnsupportedGlobal { span });
        }
        if let Err(span) = push_hashed(&sels, SelectorKind::Glob, src, h, mode, &mut all) {
            return Err(ScopeError::UnsupportedGlobal { span });
        }
        proof {
            let c = pick(s, SelectorKind::Class, b);
            let i = pick(s, SelectorKind::Id, b);
            let t = pick(s, SelectorKind::Tag, b);
            let g = pick(s, SelectorKind::Glob, b);
            assert(hashed_all(collected(s, b), hash@, mode) =~= hashed_all(c, hash@, mode) + hashed_all(i, hash@, mode)
                + hashed_all(t, hash@, mode) + hashed_all(g, hash@, mode));
            assert(hviews(all@) =~= hashed_all(collected(s, b), hash@, mode));
        }
        let sorted = sort_selectors(all);
        match splice(src, &sorted) {
            Some(code) => Ok(
                HashedScope { original_scope: scope, hashed_code: code, hashed_selectors: sorted, hash },
            ),
            None => Err(ScopeError::Overlap),
        }
    }
}

/// Total length of the first `k` spans of `v`.
pub open spec fn removed_len(v: Seq<HashedModel>, k: int) -> int
    decreases k,
{
    if k <= 0 {
        0
    } else {
        removed_len(v, k - 1) + (v[k - 1].sel.span.end - v[k - 1].sel.span.start)
    }
}

/// Total byte length of the first `k` CSS forms of `v`.
pub open spec fn added_len(v: Seq<HashedModel>, k: int) -> int
    decreases k,
{
    if k <= 0 {
        0
    } else {
        added_len(v, k - 1) + encode_utf8(v[k - 1].css).len()
    }
}

proof fn lemma_spliced_prefix_len(src: Seq<u8>, v: Seq<HashedModel>, k: int)
    requires
        spans_fit(src, v),
        0 <= k <= v.len(),
    ensures
        spliced_prefix(src, v, k).len() == prev_end(v, k) - removed_len(v, k) + added_len(v, k),
    decreases k,
{
    if k > 0 {
        lemma_spliced_prefix_len(src, v, k - 1);
        assert(span_fits(src, v, k - 1));
    }
}

/// Span coverage: where the spans fit, the rewritten text is as long as the source,
/// less every replaced span, plus every CSS form; the untouched gaps are the source's
/// bytes between the spans, each copied once and in order.
pub proof fn lemma_splice_coverage(src: Seq<u8>, v: Seq<HashedModel>)
    requires
        spans_fit(src, v),
    ensures
        spliced(src, v).len() == src.len() - removed_len(v, v.len() as int) + added_len(
            v,
            v.len() as int,
        ),
        forall|i: int|
            0 <= i < v.len() ==> spliced_prefix(src, v, i + 1) == spliced_prefix(src, v, i)
                + src.subrange(prev_end(v, i), #[trigger] v[i].sel.span.start as int) + encode_utf8(
                v[i].css,
            ),
{
    lemma_spliced_prefix_len(src, v, v.len() as int);
    if v.len() > 0 {
        assert(span_fits(src, v, v.len() - 1));
    }
}

impl ArbitraryScope {
    /// Hashes this scope under `config` and rewrites it under that hash and `mode`.
    pub fn hashed(self, config: &SabryHashConfig, mode: ScopingMode) -> (r: Result<
        HashedScope,
        ScopeError,
    >)
        ensures
            r is Ok <==> !has_unsupported_glob(self.adapter.spec_selectors(), source_bytes(self))
                && spans_fit(source_bytes(self), ordered_selectors(self, scope_hash(self, *config), mode)),
            r is Ok ==> ({
                let hs = r->Ok_0;
                &&& hs.original_scope == self
                &&& hs.hash@ == scope_hash(self, *config)
                &&& hviews(hs.hashed_selectors@) == ordered_selectors(self, scope_hash(self, *config), mode)
                &&& encode_utf8(hs.hashed_code@) == spliced(
                    source_bytes(self),
                    ordered_selectors(self, scope_hash(self, *config), mode),
                )
            }),
    {
        let hash = ScopeHash::new(&self, config);
        HashedScope::new(hash, self, mode)
    }
}

/// The host identifier table of hashed selectors: for each one that markup can name,
/// its host identifier and its host-facing form, in order.
pub open spec fn ident_table_of(v: Seq<HashedModel>) -> Seq<(Seq<char>, Seq<char>)>
    decreases v.len(),
{
    if v.len() == 0 {
        Seq::empty()
    } else {
        let before = ident_table_of(v.drop_last());
        let h = v.last();
        match (rusty_ident(h.sel), h.html) {
            (Some(id), Some(html)) => before.push((id, html)),
            _ => before,
        }
    }
}

impl HashedScope {
    /// The identifier table handed to host code: `(host identifier, host-facing
    /// form)` for each class and id selector, in span order.
    pub fn ident_table(&self) -> (r: Vec<(String, String)>)
        ensures
            r@.map_values(|p: (String, String)| (p.0@, p.1@)) == ident_table_of(
                hviews(self.hashed_selectors@),
            ),
    {
        let ghost hv = hviews(self.hashed_selectors@);
        let n = self.hashed_selectors.len();
        let mut out: Vec<(String, String)> = Vec::new();
        let mut i: usize = 0;
        while i < n
            invariant
                n == self.hashed_selectors@.len(),
                hv == hviews(self.hashed_selectors@),
                i <= n,
                out@.map_values(|p: (String, String)| (p.0@, p.1@)) == ident_table_of(
                    hv.subrange(0, i as int),
                ),
            decreases n - i,
        {
            let hs = &self.hashed_selectors[i];
            let ghost before = out@;
            proof {
                let t = hv.subrange(0, i + 1);
                assert(t.drop_last() =~= hv.subrange(0, i as int));
                assert(t.last() == hs@);
            }
            match (hs.sel.gen_rusty_ident(), &hs.html_ident) {
                (Some(id), Some(html)) => {
                    out.push((id, html.clone()));
                    assert(out@.map_values(|p: (String, String)| (p.0@, p.1@)) =~= before.map_values(
                        |p: (String, String)| (p.0@, p.1@),
                    ).push((rusty_ident(hs.sel@)->0, html@)));
                },
                _ => {},
            }
            i = i + 1;
        }
        assert(hv.subrange(0, n as int) =~= hv);
        out
    }
}

/// The class string for a nesting selector `&<suffix>` under class `c`: `c` followed
/// by the suffix.
pub fn nest(c: &str, suffix: &str) -> (r: String)
    ensures
        r@ == c@ + suffix@,
{
    let mut s = String::from_str(c);
    s.append(suffix);
    s
}

/// The text a nesting suffix opens with, where its first part is static.
pub open spec fn suffix_head(parts: Seq<Option<String>>) -> Option<Seq<char>> {
    if parts.len() > 0 && parts[0] is Some {
        Some(parts[0]->0@)
    } else {
        None
    }
}

/// The nesting members of a scope: for each `&<suffix>` whose suffix opens with a
/// static part, in traversal order, the host name `_<sanitized part>` and that part.
pub open spec fn nesting_table_of(s: Seq<Simple>) -> Seq<(Seq<char>, Seq<char>)>
    decreases s.len(),
{
    if s.len() == 0 {
        Seq::empty()
    } else {
        let before = nesting_table_of(s.drop_last());
        match s.last() {
            Simple::Nesting(Some(parts)) => match suffix_head(parts@) {
                Some(t) => before.push((seq!['_'] + sanitized(t), t)),
                None => before,
            },
            _ => before,
        }
    }
}

impl ArbitraryScope {
    /// `(host name, suffix)` for each nesting selector whose suffix opens with a static
    /// part (that part is the suffix kept); host code
    /// builds the class of such a selector with [nest].
    pub fn nesting_table(&self) -> (r: Vec<(String, String)>)
        ensures
            r@.map_values(|p: (String, String)| (p.0@, p.1@)) == nesting_table_of(
                self.adapter.spec_selectors(),
            ),
    {
        let sels = self.adapter.selectors();
        let ghost s = derefs(sels@);
        let n = sels.len();
        let mut out: Vec<(String, String)> = Vec::new();
        let mut i: usize = 0;
        while i < n
            invariant
                n == sels@.len(),
                s == derefs(sels@),
                s == self.adapter.spec_selectors(),
                i <= n,
                out@.map_values(|p: (String, String)| (p.0@, p.1@)) == nesting_table_of(
                    s.subrange(0, i as int),
                ),
            decreases n - i,
        {
            let x: &Simple = sels[i];
            let ghost before = out@;
            proof {
                let t = s.subrange(0, i + 1);
                assert(t.drop_last() =~= s.subrange(0, i as int));
                assert(t.last() == *x);
            }
            let head: Option<&String> = match x {
                Simple::Nesting(Some(parts)) => if parts.len() > 0 {
                    match &parts[0] {
                        Some(t) => Some(t),
                        None => None,
                    }
                } else {
                    None
                },
                _ => None,
            };
            assert(head is Some ==> x matches Simple::Nesting(Some(_)));
            match head {
                Some(suffix) => {
                    proof {
                        reveal_strlit("_");
                        reveal_strlit("");
                        assert("_"@ =~= seq!['_']);
                    }
                    let name = concat3("_", apply_basic_rusty_member_gen_rules(suffix.as_str()).as_str(), "");
                    out.push((name, suffix.clone()));
                    assert(out@.map_values(|p: (String, String)| (p.0@, p.1@)) =~= before.map_values(
                        |p: (String, String)| (p.0@, p.1@),
                    ).push((seq!['_'] + sanitized(suffix@), suffix@)));
                },
                _ => {},
            }
            i = i + 1;
        }
        assert(s.subrange(0, n as int) =~= s);
        out
    }
}

} // verus!
