//! The library's own model of a parsed stylesheet: qualified rules, their compound
//! selectors and the simple selectors in them, each carrying the byte span of its
//! text in the source. The parse itself is done by the `raffia` parser.
use vstd::prelude::*;

use crate::text::str_equals;

verus! {

/// Stylesheet syntax of a scope.
#[derive(Debug, Clone, Copy, PartialEq, Eq, Structural)]
pub enum OneSyntaxToRuleThemAll {
    Sass,
    Scss,
}

impl Default for OneSyntaxToRuleThemAll {
    fn default() -> (r: Self)
        ensures
            r == OneSyntaxToRuleThemAll::Scss,
    {
        OneSyntaxToRuleThemAll::Scss
    }
}

/// The syntax a name stands for: `sass` or `scss`.
pub open spec fn syntax_named(name: Seq<char>) -> Option<OneSyntaxToRuleThemAll> {
    if name == seq!['s', 'a', 's', 's'] {
        Some(OneSyntaxToRuleThemAll::Sass)
    } else if name == seq!['s', 'c', 's', 's'] {
        Some(OneSyntaxToRuleThemAll::Scss)
    } else {
        None
    }
}

impl OneSyntaxToRuleThemAll {
    /// Reads a syntax from its name, `sass` or `scss`; any other name is refused.
    pub fn try_from_name(value: &str) -> (r: Result<Self, ()>)
        ensures
            r is Ok <==> syntax_named(value@) is Some,
            r is Ok ==> syntax_named(value@) == Some(r->Ok_0),
    {
        proof {
            reveal_strlit("sass");
            reveal_strlit("scss");
            assert("sass"@ =~= seq!['s', 'a', 's', 's']);
            assert("scss"@ =~= seq!['s', 'c', 's', 's']);
        }
        if str_equals(value, "sass") {
            Ok(OneSyntaxToRuleThemAll::Sass)
        } else if str_equals(value, "scss") {
            Ok(OneSyntaxToRuleThemAll::Scss)
        } else {
            Err(())
        }
    }

    /// The name of this syntax, as used for file extensions.
    pub fn name(&self) -> (r: &'static str)
        ensures
            syntax_named(r@) == Some(*self),
    {
        proof {
            reveal_strlit("sass");
            reveal_strlit("scss");
            assert("sass"@ =~= seq!['s', 'a', 's', 's']);
            assert("scss"@ =~= seq!['s', 'c', 's', 's']);
        }
        match self {
            OneSyntaxToRuleThemAll::Sass => "sass",
            OneSyntaxToRuleThemAll::Scss => "scss",
        }
    }
}

/// Half-open byte range `[start, end)` into a source text.
#[derive(Debug, Clone, Copy, PartialEq, Eq, Structural, Hash)]
pub struct Span {
    pub start: usize,
    pub end: usize,
}

/// A literal identifier as written, with the span of its text.
#[derive(Debug)]
pub struct Ident {
    pub raw: String,
    pub span: Span,
}

/// One simple selector of a compound selector. Names written with interpolation
/// have no literal text and are carried as `None`.
#[derive(Debug)]
pub enum Simple {
    Class(Option<Ident>),
    Id(Option<Ident>),
    /// A tag-name type selector (the universal selector is `Other`).
    Tag(Option<Ident>),
    /// A pseudo-class; `inner` holds the spans of the selectors of its argument
    /// when that argument is a selector list.
    PseudoClass { name: Option<Ident>, inner: Option<Vec<Span>>, span: Span },
    /// `&` with the parts of the suffix that follows it, if any: each part's text
    /// where it is static, `None` where it is interpolated.
    Nesting(Option<Vec<Option<String>>>),
    Other,
}

/// A compound selector: simple selectors written together with no combinator.
#[derive(Debug)]
pub struct Compound {
    pub children: Vec<Simple>,
}

/// An item of a complex selector: a compound selector, or a combinator between two.
#[derive(Debug)]
pub enum ComplexItem {
    Compound(Compound),
    Combinator,
}

/// A complex selector: compound selectors joined by combinators.
#[derive(Debug)]
pub struct Complex {
    pub children: Vec<ComplexItem>,
}

/// A statement of a stylesheet; only qualified rules carry selectors.
#[derive(Debug)]
pub enum Node {
    QualifiedRule { selectors: Vec<Complex>, block: Vec<Node> },
    Other,
}

/// The simple selectors of the compound items of a complex selector, in order.
pub open spec fn items_simples(items: Seq<ComplexItem>) -> Seq<Simple>
    decreases items.len(),
{
    if items.len() == 0 {
        Seq::empty()
    } else {
        match items.last() {
            ComplexItem::Compound(c) => items_simples(items.drop_last()) + c.children@,
            ComplexItem::Combinator => items_simples(items.drop_last()),
        }
    }
}

/// The simple selectors of a selector list, complex selector after complex selector.
pub open spec fn flatten(c: Seq<Complex>) -> Seq<Simple>
    decreases c.len(),
{
    if c.len() == 0 {
        Seq::empty()
    } else {
        flatten(c.drop_last()) + items_simples(c.last().children@)
    }
}

/// The simple selectors of the given statements: for each qualified rule, depth
/// first, those of its nested block and then those of its own selector.
pub open spec fn selectors_in(stmts: Seq<Node>) -> Seq<Simple>
    decreases stmts,
{
    if stmts.len() == 0 {
        Seq::empty()
    } else {
        let last = stmts[stmts.len() - 1];
        let before = selectors_in(stmts.subrange(0, stmts.len() - 1));
        match last {
            Node::QualifiedRule { selectors, block } => before + selectors_in(block@)
                + flatten(selectors@),
            Node::Other => before,
        }
    }
}

/// The selectors that a sequence of references points at.
pub open spec fn derefs(s: Seq<&Simple>) -> Seq<Simple> {
    s.map_values(|r: &Simple| *r)
}

fn push_items<'a>(items: &'a Vec<ComplexItem>, out: &mut Vec<&'a Simple>)
    ensures
        derefs(final(out)@) == derefs(old(out)@) + items_simples(items@),
{
    let n = items.len();
    let mut i: usize = 0;
    while i < n
        invariant
            n == items@.len(),
            i <= n,
            derefs(out@) == derefs(old(out)@) + items_simples(items@.subrange(0, i as int)),
        decreases n - i,
    {
        let ghost before = out@;
        proof {
            let s = items@.subrange(0, i + 1);
            assert(s.drop_last() =~= items@.subrange(0, i as int));
        }
        match &items[i] {
            ComplexItem::Compound(c) => {
                let children = &c.children;
                let m = children.len();
                let mut j: usize = 0;
                while j < m
                    invariant
                        m == children@.len(),
                        j <= m,
                        derefs(out@) == derefs(before) + children@.subrange(0, j as int),
                    decreases m - j,
                {
                    let ghost prev = out@;
                    out.push(&children[j]);
                    assert(derefs(out@) =~= derefs(prev).push(children@[j as int]));
                    j = j + 1;
                    assert(derefs(out@) =~= derefs(before) + children@.subrange(0, j as int));
                }
                assert(children@.subrange(0, m as int) =~= children@);
            },
            ComplexItem::Combinator => {},
        }
        i = i + 1;
        assert(derefs(out@) =~= derefs(old(out)@) + items_simples(items@.subrange(0, i as int)));
    }
    assert(items@.subrange(0, n as int) =~= items@);
}

fn push_flattened<'a>(c: &'a Vec<Complex>, out: &mut Vec<&'a Simple>)
    ensures
        derefs(final(out)@) == derefs(old(out)@) + flatten(c@),
{
    let n = c.len();
    let mut i: usize = 0;
    while i < n
        invariant
            n == c@.len(),
            i <= n,
            derefs(out@) == derefs(old(out)@) + flatten(c@.subrange(0, i as int)),
        decreases n - i,
    {
        push_items(&c[i].children, out);
        proof {
            let s = c@.subrange(0, i + 1);
            assert(s.drop_last() =~= c@.subrange(0, i as int));
        }
        i = i + 1;
        assert(derefs(out@) =~= derefs(old(out)@) + flatten(c@.subrange(0, i as int)));
    }
    assert(c@.subrange(0, n as int) =~= c@);
}

/// Appends the simple selectors of `stmts` to `out`, in the order of `selectors_in`.
fn push_selectors<'a>(stmts: &'a Vec<Node>, out: &mut Vec<&'a Simple>)
    ensures
        derefs(final(out)@) == derefs(old(out)@) + selectors_in(stmts@),
    decreases stmts@,
{
    let n = stmts.len();
    let mut i: usize = 0;
    while i < n
        invariant
            n == stmts@.len(),
            i <= n,
            derefs(out@) == derefs(old(out)@) + selectors_in(stmts@.subrange(0, i as int)),
        decreases n - i,
    {
        let ghost before = out@;
        match &stmts[i] {
            Node::QualifiedRule { selectors, block } => {
                assert(decreases_to!(stmts@ => stmts@[i as int]));
                push_selectors(block, out);
                push_flattened(selectors, out);
            },
            Node::Other => {},
        }
        proof {
            let s = stmts@.subrange(0, i + 1);
            assert(s.subrange(0, s.len() - 1) =~= stmts@.subrange(0, i as int));
            assert(s[s.len() - 1] == stmts@[i as int]);
        }
        i = i + 1;
        assert(derefs(out@) =~= derefs(old(out)@) + selectors_in(stmts@.subrange(0, i as int)));
    }
    assert(stmts@.subrange(0, n as int) =~= stmts@);
}

/// Why the parser refused a source text: its diagnostic and the offending span.
#[derive(Debug)]
pub struct ParseFailure {
    pub kind: String,
    pub span: Span,
}

/// Model of a parser's report: its diagnostic text and the offending span.
pub struct ParseReport {
    pub kind: Seq<char>,
    pub span: Span,
}

impl ParseFailure {
    pub open spec fn report(&self) -> ParseReport {
        ParseReport { kind: self.kind@, span: self.span }
    }
}

/// What the `raffia` parser makes of a source text in a syntax: the statements,
/// modelled as the library's, or the error it reports.
pub uninterp spec fn parsed_statements(
    source: Seq<char>,
    syntax: OneSyntaxToRuleThemAll,
) -> Result<Seq<Node>, ParseReport>;

#[verifier::external_type_specification]
#[verifier::external_body]
pub struct ExRaffiaStatement<'s>(raffia::ast::Statement<'s>);

#[verifier::external_type_specification]
#[verifier::external_body]
pub struct ExRaffiaSelectorList<'s>(raffia::ast::SelectorList<'s>);

#[verifier::external_type_specification]
#[verifier::external_body]
pub struct ExRaffiaSimpleSelector<'s>(raffia::ast::SimpleSelector<'s>);

#[verifier::external_type_specification]
#[verifier::external_body]
pub struct ExRaffiaInterpolableIdent<'s>(raffia::ast::InterpolableIdent<'s>);

#[verifier::external_type_specification]
#[verifier::external_body]
pub struct ExRaffiaPseudoClassSelector<'s>(raffia::ast::PseudoClassSelector<'s>);

/// Relies on raffia's `Parser::parse::<Stylesheet>` (comments ignored): the parse,
/// or the error's kind (its `Debug` text) and span, depends on the source text and
/// the syntax alone.
#[verifier::external_body]
fn raffia_parse(source: &str, syntax: OneSyntaxToRuleThemAll) -> (r: Result<
    Vec<Node>,
    ParseFailure,
>)
    ensures
        r is Ok ==> parsed_statements(source@, syntax) == Ok::<Seq<Node>, ParseReport>(r->Ok_0@),
        r is Err ==> parsed_statements(source@, syntax) == Err::<Seq<Node>, ParseReport>(
            r->Err_0.report(),
        ),
{
    let syntax = match syntax {
        OneSyntaxToRuleThemAll::Sass => raffia::Syntax::Sass,
        OneSyntaxToRuleThemAll::Scss => raffia::Syntax::Scss,
    };
    let mut parser = raffia::ParserBuilder::new(source).ignore_comments().syntax(syntax).build();
    match parser.parse::<raffia::ast::Stylesheet>() {
        Ok(sheet) => Ok(statements_from(&sheet.statements)),
        Err(e) => Err(
            ParseFailure { kind: format!("{:?}", e.kind), span: Span { start: e.span.start, end: e.span.end } },
        ),
    }
}

/// Moves a raffia statement list into the library's model, one statement each.
#[verifier::external_body]
fn statements_from(stmts: &[raffia::ast::Statement]) -> Vec<Node> {
    stmts.iter().map(|st| match st {
        raffia::ast::Statement::QualifiedRule(q) => Node::QualifiedRule {
            selectors: complexes_from(&q.selector),
            block: statements_from(&q.block.statements),
        },
        _ => Node::Other,
    }).collect()
}

/// Moves the complex selectors of a raffia selector list into the library's model,
/// item by item.
#[verifier::external_body]
fn complexes_from(list: &raffia::ast::SelectorList) -> Vec<Complex> {
    list.selectors.iter().map(|c| Complex {
        children: c.children.iter().map(|child| match child {
            raffia::ast::ComplexSelectorChild::CompoundSelector(cs) => ComplexItem::Compound(
                Compound { children: cs.children.iter().map(simple_from).collect() },
            ),
            raffia::ast::ComplexSelectorChild::Combinator(_) => ComplexItem::Combinator,
        }).collect(),
    }).collect()
}

/// Moves one raffia simple selector into the library's model.
#[verifier::external_body]
fn simple_from(s: &raffia::ast::SimpleSelector) -> Simple {
    match s {
        raffia::ast::SimpleSelector::Class(c) => Simple::Class(ident_from(&c.name)),
        raffia::ast::SimpleSelector::Id(i) => Simple::Id(ident_from(&i.name)),
        raffia::ast::SimpleSelector::Type(raffia::ast::TypeSelector::TagName(t)) => Simple::Tag(
            ident_from(&t.name.name),
        ),
        raffia::ast::SimpleSelector::PseudoClass(p) => pseudo_from(p),
        raffia::ast::SimpleSelector::Nesting(n) => Simple::Nesting(
            n.suffix.as_ref().map(suffix_parts),
        ),
        _ => Simple::Other,
    }
}

/// Moves a raffia pseudo-class into the library's model, with the spans of the
/// selectors of its argument where that argument is a selector list.
#[verifier::external_body]
fn pseudo_from(p: &raffia::ast::PseudoClassSelector) -> Simple {
    let inner = p.arg.as_ref().and_then(|a| match &a.kind {
        raffia::ast::PseudoClassSelectorArgKind::SelectorList(l) => Some(
            l.selectors.iter().map(|c| Span { start: c.span.start, end: c.span.end }).collect(),
        ),
        _ => None,
    });
    let span = Span { start: p.span.start, end: p.span.end };
    Simple::PseudoClass { name: ident_from(&p.name), inner, span }
}

/// The literal text and span of a raffia identifier; `None` for an interpolated one.
#[verifier::external_body]
fn ident_from(i: &raffia::ast::InterpolableIdent) -> Option<Ident> {
    match i {
        raffia::ast::InterpolableIdent::Literal(l) => Some(
            Ident { raw: l.raw.to_string(), span: Span { start: l.span.start, end: l.span.end } },
        ),
        _ => None,
    }
}

/// The parts of a nesting suffix: each static part's text, `None` for each
/// interpolated part; a literal suffix is one static part.
#[verifier::external_body]
fn suffix_parts(i: &raffia::ast::InterpolableIdent) -> Vec<Option<String>> {
    match i {
        raffia::ast::InterpolableIdent::Literal(l) => vec![Some(l.raw.to_string())],
        raffia::ast::InterpolableIdent::SassInterpolated(s) => s.elements.iter().map(|e| match e {
            raffia::ast::SassInterpolatedIdentElement::Static(p) => Some(p.raw.to_string()),
            raffia::ast::SassInterpolatedIdentElement::Expression(_) => None,
        }).collect(),
        raffia::ast::InterpolableIdent::LessInterpolated(s) => s.elements.iter().map(|e| match e {
            raffia::ast::LessInterpolatedIdentElement::Static(p) => Some(p.raw.to_string()),
            _ => None,
        }).collect(),
    }
}

/// The variant of a simple selector.
#[derive(Debug, Clone, Copy, PartialEq, Eq, Structural)]
pub enum SimpleKind {
    Class,
    Id,
    Tag,
    PseudoClass,
    Nesting,
    Other,
}

pub open spec fn kind_of(x: Simple) -> SimpleKind {
    match x {
        Simple::Class(_) => SimpleKind::Class,
        Simple::Id(_) => SimpleKind::Id,
        Simple::Tag(_) => SimpleKind::Tag,
        Simple::PseudoClass { .. } => SimpleKind::PseudoClass,
        Simple::Nesting(_) => SimpleKind::Nesting,
        Simple::Other => SimpleKind::Other,
    }
}

/// The selectors of `s` of variant `k`, in order.
pub open spec fn of_kind(s: Seq<Simple>, k: SimpleKind) -> Seq<Simple>
    decreases s.len(),
{
    if s.len() == 0 {
        Seq::empty()
    } else if kind_of(s.last()) == k {
        of_kind(s.drop_last(), k).push(s.last())
    } else {
        of_kind(s.drop_last(), k)
    }
}

/// A parsed stylesheet together with its source text and syntax.
pub struct StylesheetAdapter {
    syntax: OneSyntaxToRuleThemAll,
    source: String,
    statements: Vec<Node>,
}

impl StylesheetAdapter {
    pub closed spec fn spec_source(&self) -> Seq<char> {
        self.source@
    }

    pub closed spec fn spec_statements(&self) -> Seq<Node> {
        self.statements@
    }

    /// All simple selectors of the stylesheet, in traversal order.
    pub open spec fn spec_selectors(&self) -> Seq<Simple> {
        selectors_in(self.spec_statements())
    }

    /// Parses `source` in `syntax`.
    pub fn new(source: &str, syntax: OneSyntaxToRuleThemAll) -> (r: Result<Self, ParseFailure>)
        ensures
            r is Ok <==> parsed_statements(source@, syntax) is Ok,
            r is Ok ==> ({
                let a = r->Ok_0;
                &&& a.spec_syntax() == syntax
                &&& a.spec_source() == source@
                &&& parsed_statements(source@, syntax) == Ok::<Seq<Node>, ParseReport>(
                    a.spec_statements(),
                )
            }),
            r is Err ==> parsed_statements(source@, syntax) == Err::<Seq<Node>, ParseReport>(
                r->Err_0.report(),
            ),
    {
        match raffia_parse(source, syntax) {
            Ok(statements) => Ok(StylesheetAdapter { syntax, source: source.to_owned(), statements }),
            Err(e) => Err(e),
        }
    }

    pub closed spec fn spec_syntax(&self) -> OneSyntaxToRuleThemAll {
        self.syntax
    }

    /// The statements are the parse of the source in the syntax.
    #[verifier::type_invariant]
    spec fn wf(&self) -> bool {
        parsed_statements(self.source@, self.syntax) == Ok::<Seq<Node>, ParseReport>(
            self.statements@,
        )
    }

    /// The parsed statements.
    pub fn statements(&self) -> (r: &Vec<Node>)
        ensures
            r@ == self.spec_statements(),
    {
        &self.statements
    }

    pub fn syntax(&self) -> (r: OneSyntaxToRuleThemAll)
        ensures
            r == self.spec_syntax(),
    {
        self.syntax
    }

    pub fn source(&self) -> (r: &str)
        ensures
            r@ == self.spec_source(),
    {
        self.source.as_str()
    }

    /// Every simple selector of the stylesheet, in traversal order.
    pub fn selectors(&self) -> (r: Vec<&Simple>)
        ensures
            derefs(r@) == self.spec_selectors(),
    {
        let mut out: Vec<&Simple> = Vec::new();
        push_selectors(&self.statements, &mut out);
        assert(derefs(out@) =~= self.spec_selectors());
        out
    }

    /// The simple selectors of variant `k`, in traversal order.
    pub fn selectors_by(&self, k: SimpleKind) -> (r: Vec<&Simple>)
        ensures
            derefs(r@) == of_kind(self.spec_selectors(), k),
    {
        let all = self.selectors();
        let ghost s = derefs(all@);
        let n = all.len();
        let mut out: Vec<&Simple> = Vec::new();
        let mut i: usize = 0;
        while i < n
            invariant
                n == all@.len(),
                s == derefs(all@),
                i <= n,
                derefs(out@) == of_kind(s.subrange(0, i as int), k),
            decreases n - i,
        {
            let x: &Simple = all[i];
            let xk = match x {
                Simple::Class(_) => SimpleKind::Class,
                Simple::Id(_) => SimpleKind::Id,
                Simple::Tag(_) => SimpleKind::Tag,
                Simple::PseudoClass { .. } => SimpleKind::PseudoClass,
                Simple::Nesting(_) => SimpleKind::Nesting,
                Simple::Other => SimpleKind::Other,
            };
            let ghost before = out@;
            if xk == k {
                out.push(x);
                assert(derefs(out@) =~= derefs(before).push(*x));
            }
            proof {
                let t = s.subrange(0, i + 1);
                assert(t.drop_last() =~= s.subrange(0, i as int));
                assert(t.last() == s[i as int]);
            }
            i = i + 1;
        }
        assert(s.subrange(0, n as int) =~= s);
        out
    }

    /// The class selectors, in traversal order.
    pub fn class_selectors(&self) -> (r: Vec<&Simple>)
        ensures
            derefs(r@) == of_kind(self.spec_selectors(), SimpleKind::Class),
    {
        self.selectors_by(SimpleKind::Class)
    }

    /// The id selectors, in traversal order.
    pub fn id_selectors(&self) -> (r: Vec<&Simple>)
        ensures
            derefs(r@) == of_kind(self.spec_selectors(), SimpleKind::Id),
    {
        self.selectors_by(SimpleKind::Id)
    }

    /// The tag-name selectors, in traversal order.
    pub fn type_selectors(&self) -> (r: Vec<&Simple>)
        ensures
            derefs(r@) == of_kind(self.spec_selectors(), SimpleKind::Tag),
    {
        self.selectors_by(SimpleKind::Tag)
    }

    /// The nesting selectors, in traversal order.
    pub fn nesting_selectors(&self) -> (r: Vec<&Simple>)
        ensures
            derefs(r@) == of_kind(self.spec_selectors(), SimpleKind::Nesting),
    {
        self.selectors_by(SimpleKind::Nesting)
    }
}

} // verus!
