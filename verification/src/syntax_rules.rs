//! The macro pattern engine: `syntax-rules` transformers, the matching of their
//! patterns against a use, and the instantiation of their templates.
//!
//! A use is matched against the rules of a transformer in order. The first rule whose
//! pattern matches binds the pattern's variables to parts of the use, and its template
//! is written out with the variables replaced. Identifiers that the template itself
//! binds are written out under fresh names, so that they can neither catch nor be
//! caught by the identifiers of the use.

use vstd::prelude::*;
use crate::lexer::LispNum;
use crate::parser::Datum;
use crate::parser::datum_result;
use crate::parser::datum_views;
use crate::parser::DatumView;
use crate::parser::lemma_datum_view;
use crate::text::chars_of;
use crate::text::same_str;
use crate::text::string_of;
use crate::CompilerError;
use crate::CompilerErrorView;
use crate::SyntaxErrorKind;

verus! {

// ---------------------------------------------------------------------------------
// Patterns
// ---------------------------------------------------------------------------------

/// The pattern of a rule.
#[derive(Debug, PartialEq)]
pub enum Pattern {
    /// A literal of the transformer, which matches itself, or else a variable, which
    /// matches anything and is bound to it.
    Identifier(String),
    /// A boolean, number, character or string, which matches its equal.
    Datum(Datum),
    /// A list of as many elements as the pattern has, each matching in its place.
    List(Vec<Pattern>),
    /// A list, dotted or not, of at least as many elements as stand before the dot;
    /// what is left of it matches the pattern behind the dot.
    Pair(Vec<Pattern>, Box<Pattern>),
    /// A list: the first patterns, one pattern for any number of elements in the
    /// middle, and the last patterns.
    EllipsisList(Vec<Pattern>, Box<Pattern>, Vec<Pattern>),
    /// A vector, as `EllipsisList` for a list.
    EllipsisVector(Vec<Pattern>, Box<Pattern>, Vec<Pattern>),
    /// A vector of as many elements as the pattern has, each matching in its place.
    Vector(Vec<Pattern>),
}

/// The mathematical model of a [`Pattern`].
pub enum PatternView {
    Identifier(Seq<char>),
    Datum(DatumView),
    List(Seq<PatternView>),
    Pair(Seq<PatternView>, Box<PatternView>),
    EllipsisList(Seq<PatternView>, Box<PatternView>, Seq<PatternView>),
    EllipsisVector(Seq<PatternView>, Box<PatternView>, Seq<PatternView>),
    Vector(Seq<PatternView>),
}

impl Pattern {
    /// The model of the pattern.
    pub open spec fn model(&self) -> PatternView
        decreases self,
    {
        match self {
            Pattern::Identifier(name) => PatternView::Identifier(name@),
            Pattern::Datum(d) => PatternView::Datum(d@),
            Pattern::List(ps) => PatternView::List(
                Seq::new(
                    ps@.len(),
                    |k: int|
                        if 0 <= k < ps@.len() {
                            ps@[k].model()
                        } else {
                            PatternView::List(Seq::empty())
                        },
                ),
            ),
            Pattern::Pair(ps, tail) => PatternView::Pair(
                Seq::new(
                    ps@.len(),
                    |k: int|
                        if 0 <= k < ps@.len() {
                            ps@[k].model()
                        } else {
                            PatternView::List(Seq::empty())
                        },
                ),
                Box::new(tail.model()),
            ),
            Pattern::EllipsisList(first, repeated, last) => PatternView::EllipsisList(
                Seq::new(
                    first@.len(),
                    |k: int|
                        if 0 <= k < first@.len() {
                            first@[k].model()
                        } else {
                            PatternView::List(Seq::empty())
                        },
                ),
                Box::new(repeated.model()),
                Seq::new(
                    last@.len(),
                    |k: int|
                        if 0 <= k < last@.len() {
                            last@[k].model()
                        } else {
                            PatternView::List(Seq::empty())
                        },
                ),
            ),
            Pattern::EllipsisVector(first, repeated, last) => PatternView::EllipsisVector(
                Seq::new(
                    first@.len(),
                    |k: int|
                        if 0 <= k < first@.len() {
                            first@[k].model()
                        } else {
                            PatternView::List(Seq::empty())
                        },
                ),
                Box::new(repeated.model()),
                Seq::new(
                    last@.len(),
                    |k: int|
                        if 0 <= k < last@.len() {
                            last@[k].model()
                        } else {
                            PatternView::List(Seq::empty())
                        },
                ),
            ),
            Pattern::Vector(ps) => PatternView::Vector(
                Seq::new(
                    ps@.len(),
                    |k: int|
                        if 0 <= k < ps@.len() {
                            ps@[k].model()
                        } else {
                            PatternView::List(Seq::empty())
                        },
                ),
            ),
        }
    }
}

impl View for Pattern {
    type V = PatternView;

    open spec fn view(&self) -> PatternView {
        self.model()
    }
}

/// The models of a sequence of patterns, one for one.
pub open spec fn pattern_views(ps: Seq<Pattern>) -> Seq<PatternView> {
    Seq::new(ps.len(), |k: int| ps[k]@)
}

/// The model of a pattern with parts, over the models of the parts.
pub proof fn lemma_pattern_view(p: Pattern)
    ensures
        p matches Pattern::List(ps) ==> p@ == PatternView::List(pattern_views(ps@)),
        p matches Pattern::Vector(ps) ==> p@ == PatternView::Vector(pattern_views(ps@)),
        p matches Pattern::Pair(ps, tail) ==> p@ == PatternView::Pair(
            pattern_views(ps@),
            Box::new(tail@),
        ),
        p matches Pattern::EllipsisList(first, repeated, last) ==> p@ == PatternView::EllipsisList(
            pattern_views(first@),
            Box::new(repeated@),
            pattern_views(last@),
        ),
        p matches Pattern::EllipsisVector(first, repeated, last) ==> p@
            == PatternView::EllipsisVector(
            pattern_views(first@),
            Box::new(repeated@),
            pattern_views(last@),
        ),
{
    match p {
        Pattern::List(ps) => {
            assert(p@->List_0 =~= pattern_views(ps@));
        },
        Pattern::Vector(ps) => {
            assert(p@->Vector_0 =~= pattern_views(ps@));
        },
        Pattern::Pair(ps, tail) => {
            assert(p@->Pair_0 =~= pattern_views(ps@));
        },
        Pattern::EllipsisList(first, repeated, last) => {
            assert(p@->EllipsisList_0 =~= pattern_views(first@));
            assert(p@->EllipsisList_2 =~= pattern_views(last@));
        },
        Pattern::EllipsisVector(first, repeated, last) => {
            assert(p@->EllipsisVector_0 =~= pattern_views(first@));
            assert(p@->EllipsisVector_2 =~= pattern_views(last@));
        },
        _ => {},
    }
}

// ---------------------------------------------------------------------------------
// Templates
// ---------------------------------------------------------------------------------

/// The template of a rule.
#[derive(Debug, PartialEq)]
pub enum Template {
    /// A variable of the pattern, for which its binding is written, or else an
    /// identifier that is written as it stands or under a fresh name.
    Identifier(String),
    /// A boolean, number, character or string, which is written as it stands.
    Datum(Datum),
    /// A list of what its elements write.
    List(Vec<Template>),
    /// A list of what the elements before the dot write, which goes on with what the
    /// template behind the dot writes.
    Pair(Vec<Template>, Box<Template>),
    /// A vector of what its elements write.
    Vector(Vec<Template>),
    /// An element that is followed by an ellipsis: it is written once for each
    /// element that its variables were bound to.
    Ellipsis(Box<Template>),
}

/// The mathematical model of a [`Template`].
pub enum TemplateView {
    Identifier(Seq<char>),
    Datum(DatumView),
    List(Seq<TemplateView>),
    Pair(Seq<TemplateView>, Box<TemplateView>),
    Vector(Seq<TemplateView>),
    Ellipsis(Box<TemplateView>),
}

impl Template {
    /// The model of the template.
    pub open spec fn model(&self) -> TemplateView
        decreases self,
    {
        match self {
            Template::Identifier(name) => TemplateView::Identifier(name@),
            Template::Datum(d) => TemplateView::Datum(d@),
            Template::List(ts) => TemplateView::List(
                Seq::new(
                    ts@.len(),
                    |k: int|
                        if 0 <= k < ts@.len() {
                            ts@[k].model()
                        } else {
                            TemplateView::List(Seq::empty())
                        },
                ),
            ),
            Template::Pair(ts, tail) => TemplateView::Pair(
                Seq::new(
                    ts@.len(),
                    |k: int|
                        if 0 <= k < ts@.len() {
                            ts@[k].model()
                        } else {
                            TemplateView::List(Seq::empty())
                        },
                ),
                Box::new(tail.model()),
            ),
            Template::Vector(ts) => TemplateView::Vector(
                Seq::new(
                    ts@.len(),
                    |k: int|
                        if 0 <= k < ts@.len() {
                            ts@[k].model()
                        } else {
                            TemplateView::List(Seq::empty())
                        },
                ),
            ),
            Template::Ellipsis(t) => TemplateView::Ellipsis(Box::new(t.model())),
        }
    }
}

impl View for Template {
    type V = TemplateView;

    open spec fn view(&self) -> TemplateView {
        self.model()
    }
}

/// The models of a sequence of templates, one for one.
pub open spec fn template_views(ts: Seq<Template>) -> Seq<TemplateView> {
    Seq::new(ts.len(), |k: int| ts[k]@)
}

/// The model of a template with parts, over the models of the parts.
pub proof fn lemma_template_view(t: Template)
    ensures
        t matches Template::List(ts) ==> t@ == TemplateView::List(template_views(ts@)),
        t matches Template::Vector(ts) ==> t@ == TemplateView::Vector(template_views(ts@)),
        t matches Template::Pair(ts, tail) ==> t@ == TemplateView::Pair(
            template_views(ts@),
            Box::new(tail@),
        ),
{
    match t {
        Template::List(ts) => {
            assert(t@->List_0 =~= template_views(ts@));
        },
        Template::Vector(ts) => {
            assert(t@->Vector_0 =~= template_views(ts@));
        },
        Template::Pair(ts, tail) => {
            assert(t@->Pair_0 =~= template_views(ts@));
        },
        _ => {},
    }
}

// ---------------------------------------------------------------------------------
// Transformers
// ---------------------------------------------------------------------------------

/// A rule of a transformer.
#[derive(Debug, PartialEq)]
pub struct SyntaxRule {
    /// What a use has to look like. Its first element stands for the keyword of the
    /// macro and is not looked at.
    pub pattern: Pattern,
    /// What is written for a use that the pattern matches.
    pub template: Template,
}

/// The mathematical model of a [`SyntaxRule`].
pub struct SyntaxRuleView {
    pub pattern: PatternView,
    pub template: TemplateView,
}

impl View for SyntaxRule {
    type V = SyntaxRuleView;

    open spec fn view(&self) -> SyntaxRuleView {
        SyntaxRuleView { pattern: self.pattern@, template: self.template@ }
    }
}

/// A `syntax-rules` transformer.
#[derive(Debug, PartialEq)]
pub struct SyntaxRules {
    /// The literals: identifiers that match only themselves and bind nothing.
    pub identifiers: Vec<String>,
    /// The rules, in the order in which they are tried.
    pub rules: Vec<SyntaxRule>,
}

/// The mathematical model of a [`SyntaxRules`].
pub struct SyntaxRulesView {
    pub identifiers: Seq<Seq<char>>,
    pub rules: Seq<SyntaxRuleView>,
}

/// The texts of a sequence of strings, one for one.
pub open spec fn texts(names: Seq<String>) -> Seq<Seq<char>> {
    Seq::new(names.len(), |k: int| names[k]@)
}

impl View for SyntaxRules {
    type V = SyntaxRulesView;

    open spec fn view(&self) -> SyntaxRulesView {
        SyntaxRulesView {
            identifiers: texts(self.identifiers@),
            rules: Seq::new(self.rules@.len(), |k: int| self.rules@[k]@),
        }
    }
}

// ---------------------------------------------------------------------------------
// Bindings
// ---------------------------------------------------------------------------------

/// What a variable of a pattern is bound to.
#[derive(Debug, PartialEq)]
pub enum Binding {
    /// The one part of the use that the variable matched.
    One(Datum),
    /// The bindings of a variable under an ellipsis, one for each element that the
    /// pattern under the ellipsis matched, in order.
    Many(Vec<Binding>),
}

/// The mathematical model of a [`Binding`].
pub enum BindingView {
    One(DatumView),
    Many(Seq<BindingView>),
}

impl Binding {
    /// The model of the binding.
    pub open spec fn model(&self) -> BindingView
        decreases self,
    {
        match self {
            Binding::One(d) => BindingView::One(d@),
            Binding::Many(bs) => BindingView::Many(
                Seq::new(
                    bs@.len(),
                    |k: int|
                        if 0 <= k < bs@.len() {
                            bs@[k].model()
                        } else {
                            BindingView::Many(Seq::empty())
                        },
                ),
            ),
        }
    }
}

impl View for Binding {
    type V = BindingView;

    open spec fn view(&self) -> BindingView {
        self.model()
    }
}

/// The models of a sequence of bindings, one for one.
pub open spec fn binding_views(bs: Seq<Binding>) -> Seq<BindingView> {
    Seq::new(bs.len(), |k: int| bs[k]@)
}

/// The model of the bindings of a variable under an ellipsis, over their models.
pub proof fn lemma_binding_view(b: Binding)
    ensures
        b matches Binding::Many(bs) ==> b@ == BindingView::Many(binding_views(bs@)),
{
    match b {
        Binding::Many(bs) => {
            assert(b@->Many_0 =~= binding_views(bs@));
        },
        _ => {},
    }
}

/// A variable of a pattern with what it is bound to.
#[derive(Debug, PartialEq)]
pub struct Bound {
    /// The variable.
    pub name: String,
    /// What it is bound to.
    pub binding: Binding,
}

/// The mathematical model of a [`Bound`].
pub struct BoundView {
    pub name: Seq<char>,
    pub binding: BindingView,
}

impl View for Bound {
    type V = BoundView;

    open spec fn view(&self) -> BoundView {
        BoundView { name: self.name@, binding: self.binding@ }
    }
}

/// The models of a sequence of bound variables, one for one.
pub open spec fn bound_views(bs: Seq<Bound>) -> Seq<BoundView> {
    Seq::new(bs.len(), |k: int| bs[k]@)
}

// ---------------------------------------------------------------------------------
// What it is for a pattern to match
// ---------------------------------------------------------------------------------

/// Whether `d` is a boolean, a number, a character or a string.
pub open spec fn is_atom(d: DatumView) -> bool {
    d is Boolean || d is Number || d is Character || d is String
}

/// The variables of the pattern `p`, in the order in which they stand in it: its
/// identifiers that are no literals.
pub open spec fn spec_pattern_variables(p: PatternView, literals: Seq<Seq<char>>) -> Seq<
    Seq<char>,
>
    decreases p, 0int,
{
    match p {
        PatternView::Identifier(name) => if literals.contains(name) {
            Seq::empty()
        } else {
            seq![name]
        },
        PatternView::Datum(_) => Seq::empty(),
        PatternView::List(ps) => spec_variables_from(ps, literals, 0),
        PatternView::Vector(ps) => spec_variables_from(ps, literals, 0),
        PatternView::Pair(ps, tail) => spec_variables_from(ps, literals, 0)
            + spec_pattern_variables(*tail, literals),
        PatternView::EllipsisList(first, repeated, last) => spec_variables_from(first, literals, 0)
            + spec_pattern_variables(*repeated, literals) + spec_variables_from(last, literals, 0),
        PatternView::EllipsisVector(first, repeated, last) => spec_variables_from(
            first,
            literals,
            0,
        ) + spec_pattern_variables(*repeated, literals) + spec_variables_from(last, literals, 0),
    }
}

/// The variables of the patterns `ps[k..]`, in order.
pub open spec fn spec_variables_from(ps: Seq<PatternView>, literals: Seq<Seq<char>>, k: int) -> Seq<
    Seq<char>,
>
    decreases ps, ps.len() - k,
{
    if 0 <= k < ps.len() {
        spec_pattern_variables(ps[k], literals) + spec_variables_from(ps, literals, k + 1)
    } else {
        Seq::empty()
    }
}

/// The bindings of two matches that both succeeded, those of the first before those of
/// the second.
pub open spec fn both(a: Option<Seq<BoundView>>, b: Option<Seq<BoundView>>) -> Option<
    Seq<BoundView>,
> {
    match (a, b) {
        (Some(x), Some(y)) => Some(x + y),
        _ => None,
    }
}

/// What is left of a list behind its first `n` elements: the list of the others, or,
/// of a dotted list, the others with its tail, or the tail alone where there are none.
pub open spec fn rest_of_list(ds: Seq<DatumView>, tail: Option<DatumView>, n: int) -> DatumView {
    match tail {
        None => DatumView::List(ds.subrange(n, ds.len() as int)),
        Some(t) => if n == ds.len() {
            t
        } else {
            DatumView::DottedPair(ds.subrange(n, ds.len() as int), Box::new(t))
        },
    }
}

/// The bindings under which the pattern `p` matches the datum `d`, one for each
/// variable of `p` and in their order, or `None` where it does not match.
pub open spec fn spec_match(p: PatternView, d: DatumView, literals: Seq<Seq<char>>) -> Option<
    Seq<BoundView>,
>
    decreases p, 0int,
{
    match p {
        PatternView::Identifier(name) => if literals.contains(name) {
            if d == DatumView::Identifier(name) {
                Some(Seq::empty())
            } else {
                None
            }
        } else {
            Some(seq![BoundView { name, binding: BindingView::One(d) }])
        },
        PatternView::Datum(literal) => if is_atom(literal) && d == literal {
            Some(Seq::empty())
        } else {
            None
        },
        PatternView::List(ps) => match d {
            DatumView::List(ds) => if ds.len() == ps.len() {
                spec_match_from(ps, ds, literals, 0, 0)
            } else {
                None
            },
            _ => None,
        },
        PatternView::Vector(ps) => match d {
            DatumView::Vector(ds) => if ds.len() == ps.len() {
                spec_match_from(ps, ds, literals, 0, 0)
            } else {
                None
            },
            _ => None,
        },
        PatternView::Pair(ps, tail) => match d {
            DatumView::List(ds) => if ds.len() >= ps.len() {
                both(
                    spec_match_from(ps, ds, literals, 0, 0),
                    spec_match(*tail, rest_of_list(ds, None, ps.len() as int), literals),
                )
            } else {
                None
            },
            DatumView::DottedPair(ds, t) => if ds.len() >= ps.len() {
                both(
                    spec_match_from(ps, ds, literals, 0, 0),
                    spec_match(*tail, rest_of_list(ds, Some(*t), ps.len() as int), literals),
                )
            } else {
                None
            },
            _ => None,
        },
        PatternView::EllipsisList(first, repeated, last) => match d {
            DatumView::List(ds) => if ds.len() >= first.len() + last.len() {
                both(
                    both(
                        spec_match_from(first, ds, literals, 0, 0),
                        spec_match_repeated(
                            *repeated,
                            ds,
                            literals,
                            first.len() as int,
                            ds.len() - last.len(),
                        ),
                    ),
                    spec_match_from(last, ds, literals, 0, ds.len() - last.len()),
                )
            } else {
                None
            },
            _ => None,
        },
        PatternView::EllipsisVector(first, repeated, last) => match d {
            DatumView::Vector(ds) => if ds.len() >= first.len() + last.len() {
                both(
                    both(
                        spec_match_from(first, ds, literals, 0, 0),
                        spec_match_repeated(
                            *repeated,
                            ds,
                            literals,
                            first.len() as int,
                            ds.len() - last.len(),
                        ),
                    ),
                    spec_match_from(last, ds, literals, 0, ds.len() - last.len()),
                )
            } else {
                None
            },
            _ => None,
        },
    }
}

/// The bindings under which the patterns `ps[k..]` match the data
/// `ds[offset + k..]`, each pattern the datum in its place.
pub open spec fn spec_match_from(
    ps: Seq<PatternView>,
    ds: Seq<DatumView>,
    literals: Seq<Seq<char>>,
    k: int,
    offset: int,
) -> Option<Seq<BoundView>>
    decreases ps, ps.len() - k,
{
    if 0 <= k < ps.len() {
        both(
            spec_match(ps[k], ds[offset + k], literals),
            spec_match_from(ps, ds, literals, k + 1, offset),
        )
    } else {
        Some(Seq::empty())
    }
}

/// The bindings under which the pattern `p` matches each of the data `ds[k..end]`:
/// one sequence of bindings for each of them, in order.
pub open spec fn spec_match_each(
    p: PatternView,
    ds: Seq<DatumView>,
    literals: Seq<Seq<char>>,
    k: int,
    end: int,
) -> Option<Seq<Seq<BoundView>>>
    decreases p, 1 + end - k,
{
    if 0 <= k < end {
        match (spec_match(p, ds[k], literals), spec_match_each(p, ds, literals, k + 1, end)) {
            (Some(one), Some(others)) => Some(seq![one] + others),
            _ => None,
        }
    } else {
        Some(Seq::empty())
    }
}

/// The bindings of the variables `names` under an ellipsis, gathered from the
/// sequences of bindings `sets` that the single matches gave: each variable is bound
/// to as many bindings as there were matches, in their order.
pub open spec fn gathered(names: Seq<Seq<char>>, sets: Seq<Seq<BoundView>>) -> Seq<BoundView> {
    Seq::new(
        names.len(),
        |i: int|
            BoundView {
                name: names[i],
                binding: BindingView::Many(Seq::new(sets.len(), |j: int| sets[j][i].binding)),
            },
    )
}

/// The bindings under which the pattern `p`, which stands before an ellipsis, matches
/// all of the data `ds[from..end]`.
pub open spec fn spec_match_repeated(
    p: PatternView,
    ds: Seq<DatumView>,
    literals: Seq<Seq<char>>,
    from: int,
    end: int,
) -> Option<Seq<BoundView>>
    decreases p, 2 + end - from,
{
    if from <= end {
        match spec_match_each(p, ds, literals, from, end) {
            Some(sets) => Some(gathered(spec_pattern_variables(p, literals), sets)),
            None => None,
        }
    } else {
        None
    }
}

/// The names of bound variables, one for one.
pub open spec fn names_of(bs: Seq<BoundView>) -> Seq<Seq<char>> {
    Seq::new(bs.len(), |k: int| bs[k].name)
}

/// A match binds exactly the variables of the pattern, in their order.
pub proof fn lemma_match_names(p: PatternView, d: DatumView, literals: Seq<Seq<char>>)
    requires
        spec_match(p, d, literals) is Some,
    ensures
        names_of(spec_match(p, d, literals)->Some_0) == spec_pattern_variables(p, literals),
    decreases p, 0int,
{
    let names = names_of(spec_match(p, d, literals)->Some_0);
    let vars = spec_pattern_variables(p, literals);
    match p {
        PatternView::Identifier(name) => {
            assert(names =~= vars);
        },
        PatternView::Datum(_) => {
            assert(names =~= vars);
        },
        PatternView::List(ps) => {
            lemma_match_from_names(ps, d->List_0, literals, 0, 0);
        },
        PatternView::Vector(ps) => {
            lemma_match_from_names(ps, d->Vector_0, literals, 0, 0);
        },
        PatternView::Pair(ps, tail) => {
            let (ds, t) = match d {
                DatumView::List(ds) => (ds, None),
                DatumView::DottedPair(ds, t) => (ds, Some(*t)),
                _ => (Seq::empty(), None),
            };
            lemma_match_from_names(ps, ds, literals, 0, 0);
            lemma_match_names(*tail, rest_of_list(ds, t, ps.len() as int), literals);
            assert(names =~= vars);
        },
        PatternView::EllipsisList(first, repeated, last) => {
            let ds = d->List_0;
            lemma_match_from_names(first, ds, literals, 0, 0);
            lemma_match_from_names(last, ds, literals, 0, ds.len() - last.len());
            let middle = spec_match_repeated(
                *repeated,
                ds,
                literals,
                first.len() as int,
                ds.len() - last.len(),
            )->Some_0;
            assert(names_of(middle) =~= spec_pattern_variables(*repeated, literals));
            assert(names =~= vars);
        },
        PatternView::EllipsisVector(first, repeated, last) => {
            let ds = d->Vector_0;
            lemma_match_from_names(first, ds, literals, 0, 0);
            lemma_match_from_names(last, ds, literals, 0, ds.len() - last.len());
            let middle = spec_match_repeated(
                *repeated,
                ds,
                literals,
                first.len() as int,
                ds.len() - last.len(),
            )->Some_0;
            assert(names_of(middle) =~= spec_pattern_variables(*repeated, literals));
            assert(names =~= vars);
        },
    }
}

/// A match of patterns in a row binds exactly their variables, in their order.
pub proof fn lemma_match_from_names(
    ps: Seq<PatternView>,
    ds: Seq<DatumView>,
    literals: Seq<Seq<char>>,
    k: int,
    offset: int,
)
    requires
        spec_match_from(ps, ds, literals, k, offset) is Some,
    ensures
        names_of(spec_match_from(ps, ds, literals, k, offset)->Some_0) == spec_variables_from(
            ps,
            literals,
            k,
        ),
    decreases ps, ps.len() - k,
{
    let names = names_of(spec_match_from(ps, ds, literals, k, offset)->Some_0);
    let vars = spec_variables_from(ps, literals, k);
    if 0 <= k < ps.len() {
        lemma_match_names(ps[k], ds[offset + k], literals);
        lemma_match_from_names(ps, ds, literals, k + 1, offset);
        assert(names =~= vars);
    } else {
        assert(names =~= vars);
    }
}

/// Each of the matches of a pattern under an ellipsis binds the variables of the
/// pattern, and there are as many matches as data.
pub proof fn lemma_match_each(
    p: PatternView,
    ds: Seq<DatumView>,
    literals: Seq<Seq<char>>,
    k: int,
    end: int,
)
    requires
        0 <= k <= end,
        spec_match_each(p, ds, literals, k, end) is Some,
    ensures
        spec_match_each(p, ds, literals, k, end)->Some_0.len() == end - k,
        forall|j: int|
            0 <= j < end - k ==> names_of(
                #[trigger] spec_match_each(p, ds, literals, k, end)->Some_0[j],
            ) == spec_pattern_variables(p, literals),
    decreases end - k,
{
    if k < end {
        lemma_match_names(p, ds[k], literals);
        lemma_match_each(p, ds, literals, k + 1, end);
        let sets = spec_match_each(p, ds, literals, k, end)->Some_0;
        let others = spec_match_each(p, ds, literals, k + 1, end)->Some_0;
        assert forall|j: int| 0 <= j < end - k implies names_of(#[trigger] sets[j])
            == spec_pattern_variables(p, literals) by {
            if j > 0 {
                assert(sets[j] == others[j - 1]);
            }
        }
    }
}

// ---------------------------------------------------------------------------------
// Matching
// ---------------------------------------------------------------------------------

/// Whether `name` is one of `names`.
pub(crate) fn has_name(names: &Vec<String>, name: &String) -> (b: bool)
    ensures
        b == texts(names@).contains(name@),
{
    let mut i: usize = 0;
    while i < names.len()
        invariant
            i <= names@.len(),
            forall|k: int| 0 <= k < i ==> texts(names@)[k] != name@,
        decreases names@.len() - i,
    {
        if names[i] == *name {
            assert(texts(names@)[i as int] == name@);
            return true;
        }
        i += 1;
    }
    false
}

/// Whether two numbers are the same: the same integer, or the same decimal literal.
fn same_number(a: &LispNum, b: &LispNum) -> (r: bool)
    ensures
        r == (a@ == b@),
{
    match (a, b) {
        (LispNum::Integer(x), LispNum::Integer(y)) => *x == *y,
        (LispNum::Float(x), LispNum::Float(y)) => *x == *y,
        _ => false,
    }
}

/// Whether `a` is a boolean, number, character or string, and `b` is its equal.
pub fn atom_equal(a: &Datum, b: &Datum) -> (r: bool)
    ensures
        r == (is_atom(a@) && a@ == b@),
{
    match (a, b) {
        (Datum::Boolean(x), Datum::Boolean(y)) => *x == *y,
        (Datum::Number(x), Datum::Number(y)) => same_number(x, y),
        (Datum::Character(x), Datum::Character(y)) => *x == *y,
        (Datum::String(x), Datum::String(y)) => *x == *y,
        _ => false,
    }
}

/// A copy of the data `items[from..to]`.
pub(crate) fn clone_range(items: &Vec<Datum>, from: usize, to: usize) -> (r: Vec<Datum>)
    requires
        from <= to <= items@.len(),
    ensures
        datum_views(r@) == datum_views(items@).subrange(from as int, to as int),
{
    let mut out: Vec<Datum> = Vec::new();
    let mut i: usize = from;
    while i < to
        invariant
            from <= i <= to <= items@.len(),
            out@.len() == i - from,
            forall|k: int| 0 <= k < i - from ==> out@[k]@ == items@[from + k]@,
        decreases to - i,
    {
        out.push(items[i].clone());
        i += 1;
    }
    assert(datum_views(out@) =~= datum_views(items@).subrange(from as int, to as int));
    out
}

/// A copy of the bindings `bs`.
fn clone_bindings(bs: &Vec<Binding>) -> (r: Vec<Binding>)
    ensures
        binding_views(r@) == binding_views(bs@),
    decreases bs,
{
    let mut out: Vec<Binding> = Vec::new();
    let mut i: usize = 0;
    while i < bs.len()
        invariant
            i <= bs@.len(),
            out@.len() == i,
            forall|k: int| 0 <= k < i ==> out@[k]@ == bs@[k]@,
        decreases bs@.len() - i,
    {
        out.push(bs[i].clone());
        i += 1;
    }
    assert(binding_views(out@) =~= binding_views(bs@));
    out
}

impl Clone for Binding {
    fn clone(&self) -> (r: Self)
        ensures
            r@ == self@,
        decreases self,
    {
        proof {
            lemma_binding_view(*self);
        }
        let r = match self {
            Binding::One(d) => Binding::One(d.clone()),
            Binding::Many(bs) => Binding::Many(clone_bindings(bs)),
        };
        proof {
            lemma_binding_view(r);
        }
        r
    }
}

impl Clone for Bound {
    fn clone(&self) -> (r: Self)
        ensures
            r@ == self@,
    {
        Bound { name: self.name.clone(), binding: self.binding.clone() }
    }
}

/// Adds the variables of the patterns `ps` to `out`, in order.
fn variables_from(ps: &Vec<Pattern>, literals: &Vec<String>, out: &mut Vec<String>)
    ensures
        texts(final(out)@) == texts(old(out)@) + spec_variables_from(
            pattern_views(ps@),
            texts(literals@),
            0,
        ),
    decreases ps,
{
    let ghost before = texts(out@);
    let ghost views = pattern_views(ps@);
    let ghost lits = texts(literals@);
    let mut k: usize = 0;
    assert(texts(out@) + Seq::<Seq<char>>::empty() =~= texts(out@));
    while k < ps.len()
        invariant
            k <= ps@.len(),
            views == pattern_views(ps@),
            lits == texts(literals@),
            before + spec_variables_from(views, lits, 0) == texts(out@) + spec_variables_from(
                views,
                lits,
                k as int,
            ),
        decreases ps@.len() - k,
    {
        let ghost here = texts(out@);
        variables_into(&ps[k], literals, out);
        proof {
            let own = spec_pattern_variables(views[k as int], lits);
            let rest = spec_variables_from(views, lits, k + 1);
            assert((here + own) + rest =~= here + (own + rest));
        }
        k += 1;
    }
    assert(texts(out@) + Seq::<Seq<char>>::empty() =~= texts(out@));
}

/// Adds the variables of the pattern `p` to `out`, in order.
fn variables_into(p: &Pattern, literals: &Vec<String>, out: &mut Vec<String>)
    ensures
        texts(final(out)@) == texts(old(out)@) + spec_pattern_variables(p@, texts(literals@)),
    decreases p,
{
    let ghost before = texts(out@);
    let ghost lits = texts(literals@);
    proof {
        lemma_pattern_view(*p);
        assert(before + Seq::<Seq<char>>::empty() =~= before);
    }
    match p {
        Pattern::Identifier(name) => {
            if !has_name(literals, name) {
                out.push(name.clone());
                assert(texts(out@) =~= before + seq![name@]);
            }
        },
        Pattern::Datum(_) => {},
        Pattern::List(ps) => {
            variables_from(ps, literals, out);
        },
        Pattern::Vector(ps) => {
            variables_from(ps, literals, out);
        },
        Pattern::Pair(ps, tail) => {
            variables_from(ps, literals, out);
            variables_into(tail, literals, out);
            proof {
                let a = spec_variables_from(pattern_views(ps@), lits, 0);
                let b = spec_pattern_variables(tail@, lits);
                assert((before + a) + b =~= before + (a + b));
            }
        },
        Pattern::EllipsisList(first, repeated, last) => {
            variables_from(first, literals, out);
            variables_into(repeated, literals, out);
            variables_from(last, literals, out);
            proof {
                let a = spec_variables_from(pattern_views(first@), lits, 0);
                let b = spec_pattern_variables(repeated@, lits);
                let c = spec_variables_from(pattern_views(last@), lits, 0);
                assert(((before + a) + b) + c =~= before + ((a + b) + c));
            }
        },
        Pattern::EllipsisVector(first, repeated, last) => {
            variables_from(first, literals, out);
            variables_into(repeated, literals, out);
            variables_from(last, literals, out);
            proof {
                let a = spec_variables_from(pattern_views(first@), lits, 0);
                let b = spec_pattern_variables(repeated@, lits);
                let c = spec_variables_from(pattern_views(last@), lits, 0);
                assert(((before + a) + b) + c =~= before + ((a + b) + c));
            }
        },
    }
}

/// The variables of the pattern `p`, in the order in which they stand in it.
pub fn pattern_variables(p: &Pattern, literals: &Vec<String>) -> (names: Vec<String>)
    ensures
        texts(names@) == spec_pattern_variables(p@, texts(literals@)),
{
    let mut names: Vec<String> = Vec::new();
    variables_into(p, literals, &mut names);
    assert(Seq::<Seq<char>>::empty() + spec_pattern_variables(p@, texts(literals@))
        =~= spec_pattern_variables(p@, texts(literals@)));
    assert(texts(Seq::<String>::empty()) =~= Seq::<Seq<char>>::empty());
    names
}

/// The model of the outcome of a match.
pub open spec fn match_view(r: Option<Vec<Bound>>) -> Option<Seq<BoundView>> {
    match r {
        Some(bs) => Some(bound_views(bs@)),
        None => None,
    }
}

/// Matches the pattern `pattern` against the datum `datum`: the bindings of its
/// variables, or `None` where it does not match.
pub fn match_pattern(pattern: &Pattern, datum: &Datum, literals: &Vec<String>) -> (r: Option<
    Vec<Bound>,
>)
    ensures
        match_view(r) == spec_match(pattern@, datum@, texts(literals@)),
    decreases pattern, 1int,
{
    proof {
        lemma_pattern_view(*pattern);
        lemma_datum_view(*datum);
        assert(bound_views(Seq::<Bound>::empty()) =~= Seq::<BoundView>::empty());
    }
    match pattern {
        Pattern::Identifier(name) => {
            if has_name(literals, name) {
                match datum {
                    Datum::Identifier(text) => if *text == *name {
                        Some(Vec::new())
                    } else {
                        None
                    },
                    _ => None,
                }
            } else {
                let mut bs: Vec<Bound> = Vec::new();
                bs.push(Bound { name: name.clone(), binding: Binding::One(datum.clone()) });
                assert(bound_views(bs@) =~= seq![
                    BoundView { name: name@, binding: BindingView::One(datum@) },
                ]);
                Some(bs)
            }
        },
        Pattern::Datum(literal) => {
            if atom_equal(literal, datum) {
                Some(Vec::new())
            } else {
                None
            }
        },
        Pattern::List(ps) => match datum {
            Datum::List(ds) => if ds.len() == ps.len() {
                match_from(ps, ds, literals, 0, 0)
            } else {
                None
            },
            _ => None,
        },
        Pattern::Vector(ps) => match datum {
            Datum::Vector(ds) => if ds.len() == ps.len() {
                match_from(ps, ds, literals, 0, 0)
            } else {
                None
            },
            _ => None,
        },
        Pattern::Pair(ps, tail) => match datum {
            Datum::List(ds) => if ds.len() >= ps.len() {
                let rest = Datum::List(clone_range(ds, ps.len(), ds.len()));
                proof {
                    lemma_datum_view(rest);
                }
                join(match_from(ps, ds, literals, 0, 0), match_pattern(tail, &rest, literals))
            } else {
                None
            },
            Datum::DottedPair(ds, t) => if ds.len() > ps.len() {
                let rest = Datum::DottedPair(
                    clone_range(ds, ps.len(), ds.len()),
                    Box::new((**t).clone()),
                );
                proof {
                    lemma_datum_view(rest);
                }
                join(match_from(ps, ds, literals, 0, 0), match_pattern(tail, &rest, literals))
            } else if ds.len() == ps.len() {
                join(match_from(ps, ds, literals, 0, 0), match_pattern(tail, t, literals))
            } else {
                None
            },
            _ => None,
        },
        Pattern::EllipsisList(_, _, _) => match datum {
            Datum::List(ds) => match_ellipsis(pattern, ds, literals, 0),
            _ => None,
        },
        Pattern::EllipsisVector(_, _, _) => match datum {
            Datum::Vector(ds) => match_ellipsis(pattern, ds, literals, 0),
            _ => None,
        },
    }
}

/// The bindings of two matches, if both succeeded.
fn join(a: Option<Vec<Bound>>, b: Option<Vec<Bound>>) -> (r: Option<Vec<Bound>>)
    ensures
        match_view(r) == both(match_view(a), match_view(b)),
{
    match (a, b) {
        (Some(mut x), Some(mut y)) => {
            let ghost first = bound_views(x@);
            let ghost second = bound_views(y@);
            x.append(&mut y);
            assert(bound_views(x@) =~= first + second);
            Some(x)
        },
        _ => None,
    }
}

/// Matches the patterns `ps[start..]` against the data `ds[at..]`, each in its place.
fn match_from(
    ps: &Vec<Pattern>,
    ds: &Vec<Datum>,
    literals: &Vec<String>,
    start: usize,
    at: usize,
) -> (r: Option<Vec<Bound>>)
    requires
        start <= ps@.len(),
        at + (ps@.len() - start) <= ds@.len(),
    ensures
        match_view(r) == spec_match_from(
            pattern_views(ps@),
            datum_views(ds@),
            texts(literals@),
            start as int,
            at - start,
        ),
    decreases ps, 1int,
{
    let ghost patterns = pattern_views(ps@);
    let ghost data = datum_views(ds@);
    let ghost lits = texts(literals@);
    let ghost offset = at - start;
    let mut found: Option<Vec<Bound>> = Some(Vec::new());
    let mut k: usize = start;
    proof {
        assert(ds@.len() == ds.len());
        assert(bound_views(Seq::<Bound>::empty()) =~= Seq::<BoundView>::empty());
        let all = spec_match_from(patterns, data, lits, start as int, offset);
        assert(both(Some(Seq::empty()), all) =~= all) by {
            if all is Some {
                assert(Seq::<BoundView>::empty() + all->Some_0 =~= all->Some_0);
            }
        }
    }
    while k < ps.len()
        invariant
            start <= k <= ps@.len(),
            ds@.len() <= usize::MAX,
            at + (ps@.len() - start) <= ds@.len(),
            offset == at - start,
            patterns == pattern_views(ps@),
            data == datum_views(ds@),
            lits == texts(literals@),
            found is Some,
            spec_match_from(patterns, data, lits, start as int, offset) == both(
                match_view(found),
                spec_match_from(patterns, data, lits, k as int, offset),
            ),
        decreases ps@.len() - k,
    {
        let ghost so_far = match_view(found);
        let one = match_pattern(&ps[k], &ds[at + (k - start)], literals);
        if one.is_none() {
            return None;
        }
        found = join(found, one);
        proof {
            let rest = spec_match_from(patterns, data, lits, k + 1, offset);
            if rest is Some {
                assert((so_far->Some_0 + match_view(one)->Some_0) + rest->Some_0
                    =~= so_far->Some_0 + (match_view(one)->Some_0 + rest->Some_0));
            }
        }
        k += 1;
    }
    proof {
        assert(match_view(found)->Some_0 + Seq::<BoundView>::empty() =~= match_view(
            found,
        )->Some_0);
    }
    found
}

/// The models of sequences of bound variables, one for one.
pub open spec fn set_views(sets: Seq<Vec<Bound>>) -> Seq<Seq<BoundView>> {
    Seq::new(sets.len(), |j: int| bound_views(sets[j]@))
}

/// Matches the pattern `p` against each of the data `ds[from..end]`.
fn match_each(p: &Pattern, ds: &Vec<Datum>, literals: &Vec<String>, from: usize, end: usize) -> (r:
    Option<Vec<Vec<Bound>>>)
    requires
        from <= end <= ds@.len(),
    ensures
        r is Some <==> spec_match_each(
            p@,
            datum_views(ds@),
            texts(literals@),
            from as int,
            end as int,
        ) is Some,
        r matches Some(sets) ==> set_views(sets@) == spec_match_each(
            p@,
            datum_views(ds@),
            texts(literals@),
            from as int,
            end as int,
        )->Some_0,
    decreases p, 2int,
{
    let ghost data = datum_views(ds@);
    let ghost lits = texts(literals@);
    let mut sets: Vec<Vec<Bound>> = Vec::new();
    let mut k: usize = from;
    proof {
        let all = spec_match_each(p@, data, lits, from as int, end as int);
        if all is Some {
            assert(set_views(sets@) + all->Some_0 =~= all->Some_0);
        }
    }
    while k < end
        invariant
            from <= k <= end <= ds@.len(),
            data == datum_views(ds@),
            lits == texts(literals@),
            spec_match_each(p@, data, lits, from as int, end as int) is Some <==> spec_match_each(
                p@,
                data,
                lits,
                k as int,
                end as int,
            ) is Some,
            spec_match_each(p@, data, lits, k as int, end as int) is Some ==> spec_match_each(
                p@,
                data,
                lits,
                from as int,
                end as int,
            )->Some_0 == set_views(sets@) + spec_match_each(
                p@,
                data,
                lits,
                k as int,
                end as int,
            )->Some_0,
        decreases end - k,
    {
        let ghost so_far = set_views(sets@);
        let one = match_pattern(p, &ds[k], literals);
        match one {
            None => {
                return None;
            },
            Some(bs) => {
                proof {
                    let rest = spec_match_each(p@, data, lits, k + 1, end as int);
                    assert(set_views(sets@.push(bs)) =~= so_far.push(bound_views(bs@)));
                    if rest is Some {
                        assert(so_far.push(bound_views(bs@)) + rest->Some_0 =~= so_far + (seq![
                            bound_views(bs@),
                        ] + rest->Some_0));
                    }
                }
                sets.push(bs);
            },
        }
        k += 1;
    }
    proof {
        assert(set_views(sets@) + Seq::<Seq<BoundView>>::empty() =~= set_views(sets@));
    }
    Some(sets)
}

/// The bindings of the variables `names` under an ellipsis, gathered from `sets`.
fn gather(names: &Vec<String>, sets: &Vec<Vec<Bound>>) -> (r: Vec<Bound>)
    requires
        forall|j: int| 0 <= j < sets@.len() ==> (#[trigger] sets@[j])@.len() == names@.len(),
    ensures
        bound_views(r@) == gathered(texts(names@), set_views(sets@)),
{
    let mut out: Vec<Bound> = Vec::new();
    let mut i: usize = 0;
    while i < names.len()
        invariant
            i <= names@.len(),
            forall|j: int| 0 <= j < sets@.len() ==> (#[trigger] sets@[j])@.len() == names@.len(),
            out@.len() == i,
            forall|k: int|
                0 <= k < i ==> (#[trigger] out@[k])@ == gathered(
                    texts(names@),
                    set_views(sets@),
                )[k],
        decreases names@.len() - i,
    {
        let mut many: Vec<Binding> = Vec::new();
        let mut j: usize = 0;
        while j < sets.len()
            invariant
                i < names@.len(),
                j <= sets@.len(),
                forall|j: int|
                    0 <= j < sets@.len() ==> (#[trigger] sets@[j])@.len() == names@.len(),
                many@.len() == j,
                forall|m: int|
                    0 <= m < j ==> (#[trigger] many@[m])@ == set_views(sets@)[m][i as int].binding,
            decreases sets@.len() - j,
        {
            assert(sets@[j as int]@.len() == names@.len());
            many.push(sets[j][i].binding.clone());
            j += 1;
        }
        let bound = Bound { name: names[i].clone(), binding: Binding::Many(many) };
        proof {
            lemma_binding_view(bound.binding);
            assert(binding_views(many@) =~= Seq::new(
                sets@.len(),
                |j: int| set_views(sets@)[j][i as int].binding,
            ));
        }
        out.push(bound);
        i += 1;
    }
    assert(bound_views(out@) =~= gathered(texts(names@), set_views(sets@)));
    out
}

/// The parts of a pattern with an ellipsis: the first patterns, the repeated one and
/// the last ones.
pub open spec fn ellipsis_parts(p: PatternView) -> (Seq<PatternView>, PatternView, Seq<PatternView>) {
    match p {
        PatternView::EllipsisList(first, repeated, last) => (first, *repeated, last),
        PatternView::EllipsisVector(first, repeated, last) => (first, *repeated, last),
        _ => (Seq::empty(), p, Seq::empty()),
    }
}

/// What a pattern with an ellipsis and the parts `first`, `repeated` and `last` binds
/// when it is matched against the data `ds`, its first `skip` patterns left out: the
/// first patterns match the first data, the last patterns the last data, and the
/// repeated pattern each datum in between.
pub open spec fn spec_match_parts(
    first: Seq<PatternView>,
    repeated: PatternView,
    last: Seq<PatternView>,
    ds: Seq<DatumView>,
    literals: Seq<Seq<char>>,
    skip: int,
) -> Option<Seq<BoundView>> {
    if skip <= first.len() && ds.len() >= first.len() - skip + last.len() {
        both(
            both(
                spec_match_from(first, ds, literals, skip, -skip),
                spec_match_repeated(
                    repeated,
                    ds,
                    literals,
                    first.len() - skip,
                    ds.len() - last.len(),
                ),
            ),
            spec_match_from(last, ds, literals, 0, ds.len() - last.len()),
        )
    } else {
        None
    }
}

/// Matches the pattern `pattern`, which has an ellipsis, against the elements `ds` of
/// a list or vector, its first `skip` patterns left out.
fn match_ellipsis(pattern: &Pattern, ds: &Vec<Datum>, literals: &Vec<String>, skip: usize) -> (r:
    Option<Vec<Bound>>)
    requires
        pattern is EllipsisList || pattern is EllipsisVector,
    ensures
        match_view(r) == ({
            let (first, repeated, last) = ellipsis_parts(pattern@);
            spec_match_parts(
                first,
                repeated,
                last,
                datum_views(ds@),
                texts(literals@),
                skip as int,
            )
        }),
    decreases pattern, 0int,
{
    proof {
        lemma_pattern_view(*pattern);
    }
    let (first, repeated, last) = match pattern {
        Pattern::EllipsisList(first, repeated, last) => (first, repeated, last),
        Pattern::EllipsisVector(first, repeated, last) => (first, repeated, last),
        _ => {
            return None;
        },
    };
    if skip > first.len() {
        return None;
    }
    let fixed: usize = first.len() - skip;
    if ds.len() < fixed || ds.len() - fixed < last.len() {
        return None;
    }
    let end: usize = ds.len() - last.len();
    let head = match_from(first, ds, literals, skip, 0);
    let middle = match match_each(repeated, ds, literals, fixed, end) {
        Some(sets) => {
            let names = pattern_variables(repeated, literals);
            proof {
                lemma_match_each(
                    repeated@,
                    datum_views(ds@),
                    texts(literals@),
                    fixed as int,
                    end as int,
                );
                assert forall|j: int| 0 <= j < sets@.len() implies (#[trigger] sets@[j])@.len()
                    == names@.len() by {
                    assert(names_of(set_views(sets@)[j]).len() == texts(names@).len());
                }
            }
            Some(gather(&names, &sets))
        },
        None => None,
    };
    let tail = match_from(last, ds, literals, 0, end);
    join(join(head, middle), tail)
}

// ---------------------------------------------------------------------------------
// Fresh names
// ---------------------------------------------------------------------------------

/// The character that parts a fresh name's base from its number. No identifier of
/// source text holds it.
pub const FRESH_MARK: char = '#';

/// The character for the decimal digit `d`.
pub open spec fn digit_char(d: nat) -> char {
    (('0' as u32) + d) as char
}

/// The decimal digits of `n`, without leading zeros.
pub open spec fn spec_digits(n: nat) -> Seq<char>
    decreases n,
{
    if n < 10 {
        seq![digit_char(n)]
    } else {
        spec_digits(n / 10).push(digit_char(n % 10))
    }
}

/// The name under which the expansion with the number `counter` writes the identifier
/// `base` that its template binds: the base, the mark, and the number in decimal.
pub open spec fn fresh_name(base: Seq<char>, counter: nat) -> Seq<char> {
    base.push(FRESH_MARK) + spec_digits(counter)
}

/// The decimal digits of a number are at least one, two from ten on, and digits.
pub proof fn lemma_digits(n: nat)
    ensures
        spec_digits(n).len() >= 1,
        n >= 10 ==> spec_digits(n).len() >= 2,
        forall|k: int|
            0 <= k < spec_digits(n).len() ==> '0' <= #[trigger] spec_digits(n)[k] <= '9',
    decreases n,
{
    if n >= 10 {
        lemma_digits(n / 10);
    }
}

/// Different numbers have different decimal digits.
pub proof fn lemma_digits_differ(a: nat, b: nat)
    requires
        spec_digits(a) == spec_digits(b),
    ensures
        a == b,
    decreases a,
{
    lemma_digits(a);
    lemma_digits(b);
    if a >= 10 && b >= 10 {
        let x = spec_digits(a / 10);
        let y = spec_digits(b / 10);
        assert(x.push(digit_char(a % 10)).drop_last() =~= x);
        assert(y.push(digit_char(b % 10)).drop_last() =~= y);
        assert(x.push(digit_char(a % 10)).last() == digit_char(a % 10));
        assert(y.push(digit_char(b % 10)).last() == digit_char(b % 10));
        lemma_digits_differ(a / 10, b / 10);
        assert(a / 10 == b / 10);
        assert(digit_char(a % 10) as u32 == 48 + a % 10);
        assert(digit_char(b % 10) as u32 == 48 + b % 10);
        assert(digit_char(a % 10) == digit_char(b % 10));
        assert(a % 10 == b % 10);
    } else if a < 10 && b < 10 {
        assert(seq![digit_char(a)][0] == digit_char(a));
        assert(seq![digit_char(b)][0] == digit_char(b));
        assert(digit_char(a) as u32 == 48 + a);
        assert(digit_char(b) as u32 == 48 + b);
    }
}

/// Adds the decimal digits of `n` to `out`.
fn push_digits(n: usize, out: &mut Vec<char>)
    ensures
        final(out)@ == old(out)@ + spec_digits(n as nat),
    decreases n,
{
    if n >= 10 {
        push_digits(n / 10, out);
    }
    let d: u8 = (n % 10) as u8;
    out.push((48u8 + d) as char);
    proof {
        if n >= 10 {
            assert(final(out)@ =~= old(out)@ + spec_digits(n as nat));
        } else {
            assert(final(out)@ =~= old(out)@ + spec_digits(n as nat));
        }
    }
}

/// The fresh name for `base` in the expansion with the number `counter`.
pub fn make_fresh_name(base: &String, counter: usize) -> (name: String)
    ensures
        name@ == fresh_name(base@, counter as nat),
{
    let mut chars = chars_of(base.as_str());
    chars.push(FRESH_MARK);
    push_digits(counter, &mut chars);
    let name = string_of(chars.as_slice(), 0, chars.len());
    assert(name@ =~= fresh_name(base@, counter as nat));
    name
}

// ---------------------------------------------------------------------------------
// What a template writes
// ---------------------------------------------------------------------------------

/// The binding of `name` in `env` from its entry `k` on: that of the first entry with
/// the name.
pub open spec fn spec_lookup(env: Seq<BoundView>, name: Seq<char>, k: int) -> Option<BindingView>
    decreases env.len() - k,
{
    if 0 <= k < env.len() {
        if env[k].name == name {
            Some(env[k].binding)
        } else {
            spec_lookup(env, name, k + 1)
        }
    } else {
        None
    }
}

/// Whether the identifier `name` stands in the template `t`.
pub open spec fn spec_mentions(t: TemplateView, name: Seq<char>) -> bool
    decreases t, 0int,
{
    match t {
        TemplateView::Identifier(x) => x == name,
        TemplateView::Datum(_) => false,
        TemplateView::List(ts) => spec_mentions_from(ts, name, 0),
        TemplateView::Vector(ts) => spec_mentions_from(ts, name, 0),
        TemplateView::Pair(ts, tail) => spec_mentions_from(ts, name, 0) || spec_mentions(
            *tail,
            name,
        ),
        TemplateView::Ellipsis(inner) => spec_mentions(*inner, name),
    }
}

/// Whether the identifier `name` stands in one of the templates `ts[k..]`.
pub open spec fn spec_mentions_from(ts: Seq<TemplateView>, name: Seq<char>, k: int) -> bool
    decreases ts, ts.len() - k,
{
    if 0 <= k < ts.len() {
        spec_mentions(ts[k], name) || spec_mentions_from(ts, name, k + 1)
    } else {
        false
    }
}

/// How often a template under an ellipsis is written.
pub enum Repeat {
    /// No variable in it is bound under an ellipsis.
    Unknown,
    /// As often as each of its variables that are bound under an ellipsis was bound.
    Times(nat),
    /// Two of its variables were bound different numbers of times.
    Mismatch,
}

/// Whether the entry `e` of the bindings is that of a variable which stands in `t`
/// and is bound under an ellipsis.
pub open spec fn drives(t: TemplateView, e: BoundView) -> bool {
    e.binding is Many && spec_mentions(t, e.name)
}

/// How often `t` is written, as far as the entries `env[k..]` say, where the entries
/// before them say `so_far`.
pub open spec fn spec_repeat(t: TemplateView, env: Seq<BoundView>, k: int, so_far: Repeat) -> Repeat
    decreases env.len() - k,
{
    if 0 <= k < env.len() {
        if drives(t, env[k]) {
            let n = env[k].binding->Many_0.len();
            match so_far {
                Repeat::Unknown => spec_repeat(t, env, k + 1, Repeat::Times(n)),
                Repeat::Times(m) => if m == n {
                    spec_repeat(t, env, k + 1, so_far)
                } else {
                    Repeat::Mismatch
                },
                Repeat::Mismatch => Repeat::Mismatch,
            }
        } else {
            spec_repeat(t, env, k + 1, so_far)
        }
    } else {
        so_far
    }
}

/// The bindings under which `t` is written for the `j`-th time: each variable that
/// stands in `t` and is bound under an ellipsis has its `j`-th binding.
pub open spec fn spec_select(t: TemplateView, env: Seq<BoundView>, j: int) -> Seq<BoundView> {
    Seq::new(
        env.len(),
        |i: int|
            if drives(t, env[i]) {
                BoundView { name: env[i].name, binding: env[i].binding->Many_0[j] }
            } else {
                env[i]
            },
    )
}

/// The list that begins with the data `ds` and goes on with `tail`: a list where the
/// tail is one, and a dotted list else.
pub open spec fn extended_list(ds: Seq<DatumView>, tail: DatumView) -> DatumView {
    match tail {
        DatumView::List(more) => DatumView::List(ds + more),
        DatumView::DottedPair(more, last) => DatumView::DottedPair(ds + more, last),
        _ => if ds.len() == 0 {
            tail
        } else {
            DatumView::DottedPair(ds, Box::new(tail))
        },
    }
}

/// Whether the form with the elements `ts` is a quotation: its head is `quote`.
pub open spec fn is_quotation(ts: Seq<TemplateView>) -> bool {
    ts.len() >= 1 && ts[0] == TemplateView::Identifier("quote"@)
}

/// The identifiers that are written under fresh names inside the form with the
/// elements `ts`: `binders`, but none inside a quotation, which is data.
pub open spec fn binders_within(ts: Seq<TemplateView>, binders: Seq<Seq<char>>) -> Seq<Seq<char>> {
    if is_quotation(ts) {
        Seq::empty()
    } else {
        binders
    }
}

/// What the template `t` writes under the bindings `env`, or `None` where an
/// ellipsis in it cannot be written out.
///
/// A variable writes its binding. Any other identifier writes itself, under its fresh
/// name where it is one of `binders` and stands in no quotation. An element before an ellipsis is written once
/// for each binding of its variables that are bound under an ellipsis; it cannot be
/// written where it has no such variable, or where two of them were bound different
/// numbers of times. A variable that is bound under an ellipsis cannot be written
/// without one.
pub open spec fn spec_instantiate(
    t: TemplateView,
    env: Seq<BoundView>,
    binders: Seq<Seq<char>>,
    counter: nat,
) -> Option<DatumView>
    decreases t, 1int,
{
    match t {
        TemplateView::Identifier(name) => match spec_lookup(env, name, 0) {
            Some(BindingView::One(d)) => Some(d),
            Some(BindingView::Many(_)) => None,
            None => Some(
                DatumView::Identifier(
                    if binders.contains(name) {
                        fresh_name(name, counter)
                    } else {
                        name
                    },
                ),
            ),
        },
        TemplateView::Datum(d) => Some(d),
        TemplateView::List(ts) => match spec_instantiate_from(
            ts,
            env,
            binders_within(ts, binders),
            counter,
            0,
        ) {
            Some(ds) => Some(DatumView::List(ds)),
            None => None,
        },
        TemplateView::Vector(ts) => match spec_instantiate_from(ts, env, binders, counter, 0) {
            Some(ds) => Some(DatumView::Vector(ds)),
            None => None,
        },
        TemplateView::Pair(ts, tail) => match (
            spec_instantiate_from(ts, env, binders, counter, 0),
            spec_instantiate(*tail, env, binders, counter),
        ) {
            (Some(ds), Some(d)) => Some(extended_list(ds, d)),
            _ => None,
        },
        TemplateView::Ellipsis(_) => None,
    }
}

/// What the templates `ts[k..]` write as elements of a list or vector, in order.
pub open spec fn spec_instantiate_from(
    ts: Seq<TemplateView>,
    env: Seq<BoundView>,
    binders: Seq<Seq<char>>,
    counter: nat,
    k: int,
) -> Option<Seq<DatumView>>
    decreases ts, ts.len() - k,
{
    if 0 <= k < ts.len() {
        let here = match ts[k] {
            TemplateView::Ellipsis(inner) => spec_instantiate_repeated(
                *inner,
                env,
                binders,
                counter,
            ),
            _ => match spec_instantiate(ts[k], env, binders, counter) {
                Some(d) => Some(seq![d]),
                None => None,
            },
        };
        match (here, spec_instantiate_from(ts, env, binders, counter, k + 1)) {
            (Some(a), Some(b)) => Some(a + b),
            _ => None,
        }
    } else {
        Some(Seq::empty())
    }
}

/// What the template `t`, which stands before an ellipsis, writes.
pub open spec fn spec_instantiate_repeated(
    t: TemplateView,
    env: Seq<BoundView>,
    binders: Seq<Seq<char>>,
    counter: nat,
) -> Option<Seq<DatumView>>
    decreases t, 3int,
{
    match spec_repeat(t, env, 0, Repeat::Unknown) {
        Repeat::Times(n) => spec_instantiate_times(t, env, binders, counter, 0, n),
        _ => None,
    }
}

/// What the template `t` writes the `j`-th to the `n`-th time.
pub open spec fn spec_instantiate_times(
    t: TemplateView,
    env: Seq<BoundView>,
    binders: Seq<Seq<char>>,
    counter: nat,
    j: nat,
    n: nat,
) -> Option<Seq<DatumView>>
    decreases t, 2int, n - j,
{
    if j < n {
        match (
            spec_instantiate(t, spec_select(t, env, j as int), binders, counter),
            spec_instantiate_times(t, env, binders, counter, j + 1, n),
        ) {
            (Some(d), Some(ds)) => Some(seq![d] + ds),
            _ => None,
        }
    } else {
        Some(Seq::empty())
    }
}

// ---------------------------------------------------------------------------------
// Instantiation
// ---------------------------------------------------------------------------------

/// The binding of `name` in `env`: that of the first entry with the name.
pub fn find_binding<'a>(env: &'a Vec<Bound>, name: &String) -> (r: Option<&'a Binding>)
    ensures
        match r {
            Some(b) => spec_lookup(bound_views(env@), name@, 0) == Some(b@),
            None => spec_lookup(bound_views(env@), name@, 0) is None,
        },
{
    let mut k: usize = 0;
    while k < env.len()
        invariant
            k <= env@.len(),
            spec_lookup(bound_views(env@), name@, 0) == spec_lookup(
                bound_views(env@),
                name@,
                k as int,
            ),
        decreases env@.len() - k,
    {
        if env[k].name == *name {
            return Some(&env[k].binding);
        }
        k += 1;
    }
    None
}

/// Whether the identifier `name` stands in one of the templates `ts`.
fn mentions_from(ts: &Vec<Template>, name: &String) -> (b: bool)
    ensures
        b == spec_mentions_from(template_views(ts@), name@, 0),
    decreases ts,
{
    let mut k: usize = 0;
    while k < ts.len()
        invariant
            k <= ts@.len(),
            spec_mentions_from(template_views(ts@), name@, 0) == spec_mentions_from(
                template_views(ts@),
                name@,
                k as int,
            ),
        decreases ts@.len() - k,
    {
        if template_mentions(&ts[k], name) {
            return true;
        }
        k += 1;
    }
    false
}

/// Whether the identifier `name` stands in the template `t`.
pub fn template_mentions(t: &Template, name: &String) -> (b: bool)
    ensures
        b == spec_mentions(t@, name@),
    decreases t,
{
    proof {
        lemma_template_view(*t);
    }
    match t {
        Template::Identifier(x) => *x == *name,
        Template::Datum(_) => false,
        Template::List(ts) => mentions_from(ts, name),
        Template::Vector(ts) => mentions_from(ts, name),
        Template::Pair(ts, tail) => mentions_from(ts, name) || template_mentions(tail, name),
        Template::Ellipsis(inner) => template_mentions(inner, name),
    }
}

/// For each entry of `env`, whether it is that of a variable which stands in `t` and
/// is bound under an ellipsis.
fn driving(t: &Template, env: &Vec<Bound>) -> (flags: Vec<bool>)
    ensures
        flags@.len() == env@.len(),
        forall|i: int| 0 <= i < env@.len() ==> flags@[i] == drives(t@, #[trigger] env@[i]@),
{
    let mut flags: Vec<bool> = Vec::new();
    let mut i: usize = 0;
    while i < env.len()
        invariant
            i <= env@.len(),
            flags@.len() == i,
            forall|k: int| 0 <= k < i ==> flags@[k] == drives(t@, #[trigger] env@[k]@),
        decreases env@.len() - i,
    {
        let is_many = match &env[i].binding {
            Binding::Many(_) => true,
            Binding::One(_) => false,
        };
        flags.push(is_many && template_mentions(t, &env[i].name));
        i += 1;
    }
    flags
}

/// Where a template is written a known number of times, each of its variables that
/// are bound under an ellipsis was bound that number of times.
pub proof fn lemma_repeat(t: TemplateView, env: Seq<BoundView>, k: int, so_far: Repeat, i: int)
    requires
        0 <= k <= i < env.len(),
        spec_repeat(t, env, k, so_far) is Times,
        drives(t, env[i]),
    ensures
        env[i].binding->Many_0.len() == spec_repeat(t, env, k, so_far)->Times_0,
    decreases env.len() - k,
{
    lemma_repeat_keeps(t, env, k, so_far);
    if k < i {
        if drives(t, env[k]) {
            let n = env[k].binding->Many_0.len();
            lemma_repeat(t, env, k + 1, Repeat::Times(n), i);
        } else {
            lemma_repeat(t, env, k + 1, so_far, i);
        }
    } else {
        let n = env[k].binding->Many_0.len();
        lemma_repeat_keeps(t, env, k + 1, Repeat::Times(n));
    }
}

/// A number of times that is known stays what it is, or ends in a mismatch.
pub proof fn lemma_repeat_keeps(t: TemplateView, env: Seq<BoundView>, k: int, so_far: Repeat)
    requires
        0 <= k <= env.len(),
    ensures
        so_far is Mismatch ==> spec_repeat(t, env, k, so_far) is Mismatch,
        so_far is Times && spec_repeat(t, env, k, so_far) is Times ==> spec_repeat(
            t,
            env,
            k,
            so_far,
        ) == so_far,
    decreases env.len() - k,
{
    if k < env.len() {
        if drives(t, env[k]) {
            let n = env[k].binding->Many_0.len();
            match so_far {
                Repeat::Unknown => {
                    lemma_repeat_keeps(t, env, k + 1, Repeat::Times(n));
                },
                Repeat::Times(m) => {
                    if m == n {
                        lemma_repeat_keeps(t, env, k + 1, so_far);
                    }
                },
                Repeat::Mismatch => {},
            }
        } else {
            lemma_repeat_keeps(t, env, k + 1, so_far);
        }
    }
}

/// The model of a number of times that is known or not.
pub open spec fn times_view(r: Option<usize>) -> Repeat {
    match r {
        Some(n) => Repeat::Times(n as nat),
        None => Repeat::Unknown,
    }
}

/// How often the template `t` is written, or `None` where that cannot be said.
fn repeat_count(t: &Template, env: &Vec<Bound>, flags: &Vec<bool>) -> (r: Option<usize>)
    requires
        flags@.len() == env@.len(),
        forall|i: int| 0 <= i < env@.len() ==> flags@[i] == drives(t@, #[trigger] env@[i]@),
    ensures
        match r {
            Some(n) => spec_repeat(t@, bound_views(env@), 0, Repeat::Unknown) == Repeat::Times(
                n as nat,
            ),
            None => !(spec_repeat(t@, bound_views(env@), 0, Repeat::Unknown) is Times),
        },
{
    let mut so_far: Option<usize> = None;
    let mut k: usize = 0;
    while k < env.len()
        invariant
            k <= env@.len(),
            flags@.len() == env@.len(),
            forall|i: int| 0 <= i < env@.len() ==> flags@[i] == drives(t@, #[trigger] env@[i]@),
            spec_repeat(t@, bound_views(env@), 0, Repeat::Unknown) == spec_repeat(
                t@,
                bound_views(env@),
                k as int,
                times_view(so_far),
            ),
        decreases env@.len() - k,
    {
        if flags[k] {
            assert(drives(t@, env@[k as int]@));
            let n: usize = match &env[k].binding {
                Binding::Many(bs) => {
                    proof {
                        lemma_binding_view(env@[k as int].binding);
                    }
                    bs.len()
                },
                Binding::One(_) => 0,
            };
            match so_far {
                None => {
                    so_far = Some(n);
                },
                Some(m) => {
                    if m != n {
                        return None;
                    }
                },
            }
        }
        k += 1;
    }
    so_far
}

/// The bindings under which the template is written for the `j`-th time.
fn select(t: &Template, env: &Vec<Bound>, flags: &Vec<bool>, j: usize) -> (r: Vec<Bound>)
    requires
        flags@.len() == env@.len(),
        forall|i: int| 0 <= i < env@.len() ==> flags@[i] == drives(t@, #[trigger] env@[i]@),
        forall|i: int|
            0 <= i < env@.len() && drives(t@, #[trigger] env@[i]@) ==> j
                < env@[i]@.binding->Many_0.len(),
    ensures
        bound_views(r@) == spec_select(t@, bound_views(env@), j as int),
{
    let mut out: Vec<Bound> = Vec::new();
    let mut i: usize = 0;
    while i < env.len()
        invariant
            i <= env@.len(),
            flags@.len() == env@.len(),
            forall|i: int| 0 <= i < env@.len() ==> flags@[i] == drives(t@, #[trigger] env@[i]@),
            forall|i: int|
                0 <= i < env@.len() && drives(t@, #[trigger] env@[i]@) ==> j
                    < env@[i]@.binding->Many_0.len(),
            out@.len() == i,
            forall|k: int|
                0 <= k < i ==> (#[trigger] out@[k])@ == spec_select(
                    t@,
                    bound_views(env@),
                    j as int,
                )[k],
        decreases env@.len() - i,
    {
        let entry = &env[i];
        assert(flags@[i as int] == drives(t@, env@[i as int]@));
        let chosen = if flags[i] {
            match &entry.binding {
                Binding::Many(bs) => {
                    proof {
                        lemma_binding_view(entry.binding);
                    }
                    Bound { name: entry.name.clone(), binding: bs[j].clone() }
                },
                Binding::One(_) => entry.clone(),
            }
        } else {
            entry.clone()
        };
        out.push(chosen);
        i += 1;
    }
    assert(bound_views(out@) =~= spec_select(t@, bound_views(env@), j as int));
    out
}

/// The list that begins with the data `ds` and goes on with `tail`.
fn extend_list(ds: Vec<Datum>, tail: Datum) -> (r: Datum)
    ensures
        r@ == extended_list(datum_views(ds@), tail@),
{
    proof {
        lemma_datum_view(tail);
    }
    let mut ds = ds;
    let ghost first = datum_views(ds@);
    let r = match tail {
        Datum::List(more) => {
            let mut more = more;
            let ghost second = datum_views(more@);
            ds.append(&mut more);
            assert(datum_views(ds@) =~= first + second);
            Datum::List(ds)
        },
        Datum::DottedPair(more, last) => {
            let mut more = more;
            let ghost second = datum_views(more@);
            ds.append(&mut more);
            assert(datum_views(ds@) =~= first + second);
            Datum::DottedPair(ds, last)
        },
        other => {
            if ds.len() == 0 {
                other
            } else {
                Datum::DottedPair(ds, Box::new(other))
            }
        },
    };
    proof {
        lemma_datum_view(r);
    }
    r
}

/// Whether the form with the elements `ts` is a quotation.
fn is_quotation_form(ts: &Vec<Template>) -> (b: bool)
    ensures
        b == is_quotation(template_views(ts@)),
{
    if ts.len() >= 1 {
        match &ts[0] {
            Template::Identifier(name) => same_str(name.as_str(), "quote"),
            _ => false,
        }
    } else {
        false
    }
}

/// The model of what a template writes.
pub open spec fn written(r: Option<Datum>) -> Option<DatumView> {
    match r {
        Some(d) => Some(d@),
        None => None,
    }
}

/// The model of what templates write as elements.
pub open spec fn written_all(r: Option<Vec<Datum>>) -> Option<Seq<DatumView>> {
    match r {
        Some(ds) => Some(datum_views(ds@)),
        None => None,
    }
}

/// Writes the template `t` out under the bindings `env`. The identifiers among
/// `binders` are written under their fresh names for `counter`.
pub fn instantiate(t: &Template, env: &Vec<Bound>, binders: &Vec<String>, counter: usize) -> (r:
    Option<Datum>)
    ensures
        written(r) == spec_instantiate(
            t@,
            bound_views(env@),
            texts(binders@),
            counter as nat,
        ),
    decreases t, 1int,
{
    proof {
        lemma_template_view(*t);
    }
    match t {
        Template::Identifier(name) => match find_binding(env, name) {
            Some(Binding::One(d)) => Some(d.clone()),
            Some(Binding::Many(_)) => None,
            None => {
                if has_name(binders, name) {
                    Some(Datum::Identifier(make_fresh_name(name, counter)))
                } else {
                    Some(Datum::Identifier(name.clone()))
                }
            },
        },
        Template::Datum(d) => Some(d.clone()),
        Template::List(ts) => {
            let none: Vec<String> = Vec::new();
            assert(texts(none@) =~= Seq::<Seq<char>>::empty());
            let within = if is_quotation_form(ts) {
                &none
            } else {
                binders
            };
            match instantiate_from(ts, env, within, counter) {
                Some(ds) => {
                    let list = Datum::List(ds);
                    proof {
                        lemma_datum_view(list);
                    }
                    Some(list)
                },
                None => None,
            }
        },
        Template::Vector(ts) => match instantiate_from(ts, env, binders, counter) {
            Some(ds) => {
                let vector = Datum::Vector(ds);
                proof {
                    lemma_datum_view(vector);
                }
                Some(vector)
            },
            None => None,
        },
        Template::Pair(ts, tail) => {
            let first = instantiate_from(ts, env, binders, counter);
            let second = instantiate(tail, env, binders, counter);
            match (first, second) {
                (Some(ds), Some(d)) => Some(extend_list(ds, d)),
                _ => None,
            }
        },
        Template::Ellipsis(_) => None,
    }
}

/// Writes the templates `ts` out as the elements of a list or vector.
fn instantiate_from(
    ts: &Vec<Template>,
    env: &Vec<Bound>,
    binders: &Vec<String>,
    counter: usize,
) -> (r: Option<Vec<Datum>>)
    ensures
        written_all(r) == spec_instantiate_from(
            template_views(ts@),
            bound_views(env@),
            texts(binders@),
            counter as nat,
            0,
        ),
    decreases ts, 0int,
{
    let ghost views = template_views(ts@);
    let ghost bound = bound_views(env@);
    let ghost names = texts(binders@);
    let ghost c = counter as nat;
    let mut out: Vec<Datum> = Vec::new();
    let mut k: usize = 0;
    proof {
        let all = spec_instantiate_from(views, bound, names, c, 0);
        if all is Some {
            assert(datum_views(out@) + all->Some_0 =~= all->Some_0);
        }
    }
    while k < ts.len()
        invariant
            k <= ts@.len(),
            views == template_views(ts@),
            bound == bound_views(env@),
            names == texts(binders@),
            c == counter as nat,
            spec_instantiate_from(views, bound, names, c, 0) is Some <==> spec_instantiate_from(
                views,
                bound,
                names,
                c,
                k as int,
            ) is Some,
            spec_instantiate_from(views, bound, names, c, k as int) is Some
                ==> spec_instantiate_from(views, bound, names, c, 0)->Some_0 == datum_views(out@)
                + spec_instantiate_from(views, bound, names, c, k as int)->Some_0,
        decreases ts@.len() - k,
    {
        let ghost so_far = datum_views(out@);
        let ghost rest = spec_instantiate_from(views, bound, names, c, k + 1);
        match &ts[k] {
            Template::Ellipsis(inner) => {
                match instantiate_repeated(inner, env, binders, counter) {
                    Some(ds) => {
                        let mut ds = ds;
                        let ghost here = datum_views(ds@);
                        out.append(&mut ds);
                        proof {
                            assert(datum_views(out@) =~= so_far + here);
                            if rest is Some {
                                assert((so_far + here) + rest->Some_0 =~= so_far + (here
                                    + rest->Some_0));
                            }
                        }
                    },
                    None => {
                        return None;
                    },
                }
            },
            other => {
                match instantiate(other, env, binders, counter) {
                    Some(d) => {
                        proof {
                            assert(datum_views(out@.push(d)) =~= so_far.push(d@));
                            if rest is Some {
                                assert(so_far.push(d@) + rest->Some_0 =~= so_far + (seq![d@]
                                    + rest->Some_0));
                            }
                        }
                        out.push(d);
                    },
                    None => {
                        return None;
                    },
                }
            },
        }
        k += 1;
    }
    proof {
        assert(datum_views(out@) + Seq::<DatumView>::empty() =~= datum_views(out@));
    }
    Some(out)
}

/// Writes the template `t`, which stands before an ellipsis, out as often as its
/// variables were bound.
fn instantiate_repeated(
    t: &Template,
    env: &Vec<Bound>,
    binders: &Vec<String>,
    counter: usize,
) -> (r: Option<Vec<Datum>>)
    ensures
        written_all(r) == spec_instantiate_repeated(
            t@,
            bound_views(env@),
            texts(binders@),
            counter as nat,
        ),
    decreases t, 2int,
{
    let ghost bound = bound_views(env@);
    let ghost names = texts(binders@);
    let ghost c = counter as nat;
    let flags = driving(t, env);
    let n: usize = match repeat_count(t, env, &flags) {
        Some(n) => n,
        None => {
            return None;
        },
    };
    let mut out: Vec<Datum> = Vec::new();
    let mut j: usize = 0;
    proof {
        let all = spec_instantiate_times(t@, bound, names, c, 0, n as nat);
        if all is Some {
            assert(datum_views(out@) + all->Some_0 =~= all->Some_0);
        }
    }
    while j < n
        invariant
            j <= n,
            bound == bound_views(env@),
            names == texts(binders@),
            c == counter as nat,
            flags@.len() == env@.len(),
            forall|i: int| 0 <= i < env@.len() ==> flags@[i] == drives(t@, #[trigger] env@[i]@),
            spec_repeat(t@, bound, 0, Repeat::Unknown) == Repeat::Times(n as nat),
            spec_instantiate_times(t@, bound, names, c, 0, n as nat) is Some
                <==> spec_instantiate_times(t@, bound, names, c, j as nat, n as nat) is Some,
            spec_instantiate_times(t@, bound, names, c, j as nat, n as nat) is Some
                ==> spec_instantiate_times(t@, bound, names, c, 0, n as nat)->Some_0
                == datum_views(out@) + spec_instantiate_times(
                t@,
                bound,
                names,
                c,
                j as nat,
                n as nat,
            )->Some_0,
        decreases n - j,
    {
        let ghost so_far = datum_views(out@);
        let ghost rest = spec_instantiate_times(t@, bound, names, c, (j + 1) as nat, n as nat);
        proof {
            assert forall|i: int| 0 <= i < env@.len() && drives(t@, #[trigger] env@[i]@) implies j
                < env@[i]@.binding->Many_0.len() by {
                lemma_repeat(t@, bound, 0, Repeat::Unknown, i);
            }
        }
        let chosen = select(t, env, &flags, j);
        match instantiate(t, &chosen, binders, counter) {
            Some(d) => {
                proof {
                    assert(datum_views(out@.push(d)) =~= so_far.push(d@));
                    if rest is Some {
                        assert(so_far.push(d@) + rest->Some_0 =~= so_far + (seq![d@]
                            + rest->Some_0));
                    }
                }
                out.push(d);
            },
            None => {
                return None;
            },
        }
        j += 1;
    }
    proof {
        assert(datum_views(out@) + Seq::<DatumView>::empty() =~= datum_views(out@));
    }
    Some(out)
}

// ---------------------------------------------------------------------------------
// The identifiers that a template binds
// ---------------------------------------------------------------------------------

/// Whether `name` is the keyword of a form that binds variables: `lambda` or `define`.
pub open spec fn is_binding_keyword(name: Seq<char>) -> bool {
    name == "lambda"@ || name == "define"@
}

/// The identifiers that stand in the template `t`, in order, but for those in
/// quotations, which are data.
pub open spec fn spec_identifiers(t: TemplateView) -> Seq<Seq<char>>
    decreases t, 0int,
{
    match t {
        TemplateView::Identifier(name) => seq![name],
        TemplateView::Datum(_) => Seq::empty(),
        TemplateView::List(ts) => if is_quotation(ts) {
            Seq::empty()
        } else {
            spec_identifiers_from(ts, 0)
        },
        TemplateView::Vector(ts) => spec_identifiers_from(ts, 0),
        TemplateView::Pair(ts, tail) => spec_identifiers_from(ts, 0) + spec_identifiers(*tail),
        TemplateView::Ellipsis(inner) => spec_identifiers(*inner),
    }
}

/// The identifiers that stand in the templates `ts[k..]` outside of quotations, in
/// order.
pub open spec fn spec_identifiers_from(ts: Seq<TemplateView>, k: int) -> Seq<Seq<char>>
    decreases ts, ts.len() - k,
{
    if 0 <= k < ts.len() {
        spec_identifiers(ts[k]) + spec_identifiers_from(ts, k + 1)
    } else {
        Seq::empty()
    }
}

/// The identifiers that the form with the elements `ts` binds by itself: those of its
/// second element, where its first is `lambda` or `define`.
pub open spec fn spec_bound_by_form(ts: Seq<TemplateView>) -> Seq<Seq<char>> {
    if ts.len() >= 2 && ts[0] is Identifier && is_binding_keyword(ts[0]->Identifier_0) {
        spec_identifiers(ts[1])
    } else {
        Seq::empty()
    }
}

/// The identifiers that the template `t` binds: those that stand where a `lambda` or
/// a `define` in it has its variables. A quotation binds nothing.
pub open spec fn spec_binders(t: TemplateView) -> Seq<Seq<char>>
    decreases t, 0int,
{
    match t {
        TemplateView::List(ts) => if is_quotation(ts) {
            Seq::empty()
        } else {
            spec_bound_by_form(ts) + spec_binders_from(ts, 0)
        },
        TemplateView::Vector(ts) => spec_binders_from(ts, 0),
        TemplateView::Pair(ts, tail) => spec_bound_by_form(ts) + spec_binders_from(ts, 0)
            + spec_binders(*tail),
        TemplateView::Ellipsis(inner) => spec_binders(*inner),
        _ => Seq::empty(),
    }
}

/// The identifiers that the templates `ts[k..]` bind.
pub open spec fn spec_binders_from(ts: Seq<TemplateView>, k: int) -> Seq<Seq<char>>
    decreases ts, ts.len() - k,
{
    if 0 <= k < ts.len() {
        spec_binders(ts[k]) + spec_binders_from(ts, k + 1)
    } else {
        Seq::empty()
    }
}

/// Adds the identifiers that stand in the templates `ts` to `out`.
fn identifiers_from(ts: &Vec<Template>, out: &mut Vec<String>)
    ensures
        texts(final(out)@) == texts(old(out)@) + spec_identifiers_from(template_views(ts@), 0),
    decreases ts,
{
    let ghost before = texts(out@);
    let ghost views = template_views(ts@);
    let mut k: usize = 0;
    while k < ts.len()
        invariant
            k <= ts@.len(),
            views == template_views(ts@),
            before + spec_identifiers_from(views, 0) == texts(out@) + spec_identifiers_from(
                views,
                k as int,
            ),
        decreases ts@.len() - k,
    {
        let ghost here = texts(out@);
        identifiers_into(&ts[k], out);
        proof {
            let own = spec_identifiers(views[k as int]);
            let rest = spec_identifiers_from(views, k + 1);
            assert((here + own) + rest =~= here + (own + rest));
        }
        k += 1;
    }
    assert(texts(out@) + Seq::<Seq<char>>::empty() =~= texts(out@));
}

/// Adds the identifiers that stand in the template `t` to `out`.
fn identifiers_into(t: &Template, out: &mut Vec<String>)
    ensures
        texts(final(out)@) == texts(old(out)@) + spec_identifiers(t@),
    decreases t,
{
    let ghost before = texts(out@);
    proof {
        lemma_template_view(*t);
        assert(before + Seq::<Seq<char>>::empty() =~= before);
    }
    match t {
        Template::Identifier(name) => {
            out.push(name.clone());
            assert(texts(out@) =~= before + seq![name@]);
        },
        Template::Datum(_) => {},
        Template::List(ts) => {
            if !is_quotation_form(ts) {
                identifiers_from(ts, out);
            }
        },
        Template::Vector(ts) => {
            identifiers_from(ts, out);
        },
        Template::Pair(ts, tail) => {
            identifiers_from(ts, out);
            identifiers_into(tail, out);
            proof {
                let a = spec_identifiers_from(template_views(ts@), 0);
                let b = spec_identifiers(tail@);
                assert((before + a) + b =~= before + (a + b));
            }
        },
        Template::Ellipsis(inner) => {
            identifiers_into(inner, out);
        },
    }
}

/// Adds the identifiers that the form with the elements `ts` binds by itself to `out`.
fn bound_by_form(ts: &Vec<Template>, out: &mut Vec<String>)
    ensures
        texts(final(out)@) == texts(old(out)@) + spec_bound_by_form(template_views(ts@)),
    decreases ts,
{
    let ghost before = texts(out@);
    proof {
        assert(before + Seq::<Seq<char>>::empty() =~= before);
    }
    if ts.len() >= 2 {
        let binds = match &ts[0] {
            Template::Identifier(name) => same_str(name.as_str(), "lambda") || same_str(
                name.as_str(),
                "define",
            ),
            _ => false,
        };
        if binds {
            identifiers_into(&ts[1], out);
        }
    }
}

/// Adds the identifiers that the templates `ts` bind to `out`.
fn binders_from(ts: &Vec<Template>, out: &mut Vec<String>)
    ensures
        texts(final(out)@) == texts(old(out)@) + spec_binders_from(template_views(ts@), 0),
    decreases ts,
{
    let ghost before = texts(out@);
    let ghost views = template_views(ts@);
    let mut k: usize = 0;
    while k < ts.len()
        invariant
            k <= ts@.len(),
            views == template_views(ts@),
            before + spec_binders_from(views, 0) == texts(out@) + spec_binders_from(
                views,
                k as int,
            ),
        decreases ts@.len() - k,
    {
        let ghost here = texts(out@);
        binders_into(&ts[k], out);
        proof {
            let own = spec_binders(views[k as int]);
            let rest = spec_binders_from(views, k + 1);
            assert((here + own) + rest =~= here + (own + rest));
        }
        k += 1;
    }
    assert(texts(out@) + Seq::<Seq<char>>::empty() =~= texts(out@));
}

/// Adds the identifiers that the template `t` binds to `out`.
fn binders_into(t: &Template, out: &mut Vec<String>)
    ensures
        texts(final(out)@) == texts(old(out)@) + spec_binders(t@),
    decreases t,
{
    let ghost before = texts(out@);
    proof {
        lemma_template_view(*t);
        assert(before + Seq::<Seq<char>>::empty() =~= before);
    }
    match t {
        Template::List(ts) => {
            if !is_quotation_form(ts) {
                bound_by_form(ts, out);
                binders_from(ts, out);
                proof {
                    let a = spec_bound_by_form(template_views(ts@));
                    let b = spec_binders_from(template_views(ts@), 0);
                    assert((before + a) + b =~= before + (a + b));
                }
            }
        },
        Template::Vector(ts) => {
            binders_from(ts, out);
        },
        Template::Pair(ts, tail) => {
            bound_by_form(ts, out);
            binders_from(ts, out);
            binders_into(tail, out);
            proof {
                let a = spec_bound_by_form(template_views(ts@));
                let b = spec_binders_from(template_views(ts@), 0);
                let c = spec_binders(tail@);
                assert(((before + a) + b) + c =~= before + ((a + b) + c));
            }
        },
        Template::Ellipsis(inner) => {
            binders_into(inner, out);
        },
        _ => {},
    }
}

/// The identifiers that the template `t` binds.
pub fn template_binders(t: &Template) -> (names: Vec<String>)
    ensures
        texts(names@) == spec_binders(t@),
{
    let mut names: Vec<String> = Vec::new();
    binders_into(t, &mut names);
    assert(Seq::<Seq<char>>::empty() + spec_binders(t@) =~= spec_binders(t@));
    assert(texts(Seq::<String>::empty()) =~= Seq::<Seq<char>>::empty());
    names
}

// ---------------------------------------------------------------------------------
// Expansion
// ---------------------------------------------------------------------------------

/// The bindings under which the pattern `p` of a rule matches a use with the operands
/// `args`, or `None` where it does not. The first element of the pattern stands for
/// the keyword and is not looked at; the others match the operands as the elements of
/// a list.
pub open spec fn spec_match_use(p: PatternView, args: Seq<DatumView>, literals: Seq<Seq<char>>) -> Option<
    Seq<BoundView>,
> {
    match p {
        PatternView::List(ps) => if ps.len() >= 1 && args.len() == ps.len() - 1 {
            spec_match_from(ps, args, literals, 1, -1)
        } else {
            None
        },
        PatternView::Pair(ps, tail) => if ps.len() >= 1 && args.len() >= ps.len() - 1 {
            both(
                spec_match_from(ps, args, literals, 1, -1),
                spec_match(*tail, rest_of_list(args, None, ps.len() - 1), literals),
            )
        } else {
            None
        },
        PatternView::EllipsisList(first, repeated, last) => if first.len() >= 1 {
            spec_match_parts(first, *repeated, last, args, literals, 1)
        } else {
            None
        },
        _ => None,
    }
}

/// Matches the pattern `p` of a rule against a use with the operands `args`.
pub fn match_use(p: &Pattern, args: &Vec<Datum>, literals: &Vec<String>) -> (r: Option<
    Vec<Bound>,
>)
    ensures
        match_view(r) == spec_match_use(p@, datum_views(args@), texts(literals@)),
{
    proof {
        lemma_pattern_view(*p);
    }
    match p {
        Pattern::List(ps) => {
            if ps.len() >= 1 && args.len() == ps.len() - 1 {
                match_from(ps, args, literals, 1, 0)
            } else {
                None
            }
        },
        Pattern::Pair(ps, tail) => {
            if ps.len() >= 1 && args.len() >= ps.len() - 1 {
                let rest = Datum::List(clone_range(args, ps.len() - 1, args.len()));
                proof {
                    lemma_datum_view(rest);
                }
                join(match_from(ps, args, literals, 1, 0), match_pattern(tail, &rest, literals))
            } else {
                None
            }
        },
        Pattern::EllipsisList(first, _, _) => {
            if first.len() >= 1 {
                match_ellipsis(p, args, literals, 1)
            } else {
                None
            }
        },
        _ => None,
    }
}

/// The rule that is taken for a use, with what its pattern binds.
pub struct Selected {
    /// The index of the rule among the rules of the transformer.
    pub index: int,
    /// The bindings of the variables of its pattern.
    pub env: Seq<BoundView>,
}

/// The first of the rules `rules[k..]` of the transformer whose pattern matches a use
/// with the operands `args`, or `None` where none does.
pub open spec fn spec_select_rule(transformer: SyntaxRulesView, args: Seq<DatumView>, k: int) -> Option<
    Selected,
>
    decreases transformer.rules.len() - k,
{
    if 0 <= k < transformer.rules.len() {
        match spec_match_use(transformer.rules[k].pattern, args, transformer.identifiers) {
            Some(env) => Some(Selected { index: k, env }),
            None => spec_select_rule(transformer, args, k + 1),
        }
    } else {
        None
    }
}

/// The first rule of `transformer` whose pattern matches a use with the operands
/// `args`: its index, and what its pattern binds.
pub fn select_rule(transformer: &SyntaxRules, args: &Vec<Datum>) -> (r: Option<(usize, Vec<Bound>)>)
    ensures
        match r {
            Some((index, env)) => index < transformer.rules@.len() && spec_select_rule(
                transformer@,
                datum_views(args@),
                0,
            ) == Some(Selected { index: index as int, env: bound_views(env@) }),
            None => spec_select_rule(transformer@, datum_views(args@), 0) is None,
        },
{
    let mut k: usize = 0;
    while k < transformer.rules.len()
        invariant
            k <= transformer.rules@.len(),
            spec_select_rule(transformer@, datum_views(args@), 0) == spec_select_rule(
                transformer@,
                datum_views(args@),
                k as int,
            ),
        decreases transformer.rules@.len() - k,
    {
        match match_use(&transformer.rules[k].pattern, args, &transformer.identifiers) {
            Some(env) => {
                return Some((k, env));
            },
            None => {},
        }
        k += 1;
    }
    None
}

/// The identifiers that stand in the template `t`, in order, but for those in
/// quotations.
pub fn template_identifiers(t: &Template) -> (names: Vec<String>)
    ensures
        texts(names@) == spec_identifiers(t@),
{
    let mut names: Vec<String> = Vec::new();
    identifiers_into(t, &mut names);
    assert(Seq::<Seq<char>>::empty() + spec_identifiers(t@) =~= spec_identifiers(t@));
    assert(texts(Seq::<String>::empty()) =~= Seq::<Seq<char>>::empty());
    names
}

/// The identifiers that stand in the datum `d`, in order.
pub open spec fn spec_datum_identifiers(d: DatumView) -> Seq<Seq<char>>
    decreases d, 0int,
{
    match d {
        DatumView::Identifier(name) => seq![name],
        DatumView::List(ds) => spec_datum_identifiers_from(ds, 0),
        DatumView::Vector(ds) => spec_datum_identifiers_from(ds, 0),
        DatumView::DottedPair(ds, tail) => spec_datum_identifiers_from(ds, 0)
            + spec_datum_identifiers(*tail),
        DatumView::Quote(inner) => spec_datum_identifiers(*inner),
        DatumView::Backquote(inner) => spec_datum_identifiers(*inner),
        DatumView::Unquote(inner) => spec_datum_identifiers(*inner),
        DatumView::UnquoteSplice(inner) => spec_datum_identifiers(*inner),
        _ => Seq::empty(),
    }
}

/// The identifiers that stand in the data `ds[k..]`, in order.
pub open spec fn spec_datum_identifiers_from(ds: Seq<DatumView>, k: int) -> Seq<Seq<char>>
    decreases ds, ds.len() - k,
{
    if 0 <= k < ds.len() {
        spec_datum_identifiers(ds[k]) + spec_datum_identifiers_from(ds, k + 1)
    } else {
        Seq::empty()
    }
}

/// The identifiers that stand in what the binding `b` binds to, in order.
pub open spec fn spec_binding_identifiers(b: BindingView) -> Seq<Seq<char>>
    decreases b, 0int,
{
    match b {
        BindingView::One(d) => spec_datum_identifiers(d),
        BindingView::Many(bs) => spec_binding_identifiers_from(bs, 0),
    }
}

/// The identifiers that stand in what the bindings `bs[k..]` bind to, in order.
pub open spec fn spec_binding_identifiers_from(bs: Seq<BindingView>, k: int) -> Seq<Seq<char>>
    decreases bs, bs.len() - k,
{
    if 0 <= k < bs.len() {
        spec_binding_identifiers(bs[k]) + spec_binding_identifiers_from(bs, k + 1)
    } else {
        Seq::empty()
    }
}

/// The identifiers of the use that the template binds: those in the bindings of the
/// variables of the pattern among `positions[k..]`, where `positions` are the
/// identifiers that stand in the template where a `lambda` or a `define` has its
/// variables.
pub open spec fn spec_use_binders(positions: Seq<Seq<char>>, k: int, env: Seq<BoundView>) -> Seq<
    Seq<char>,
>
    decreases positions.len() - k,
{
    if 0 <= k < positions.len() {
        match spec_lookup(env, positions[k], 0) {
            Some(b) => spec_binding_identifiers(b) + spec_use_binders(positions, k + 1, env),
            None => spec_use_binders(positions, k + 1, env),
        }
    } else {
        Seq::empty()
    }
}

/// The first of the identifiers `names[k..]` that the template writes as it stands
/// and that is among `caught_by`, if there is one.
pub open spec fn spec_caught(
    names: Seq<Seq<char>>,
    k: int,
    env: Seq<BoundView>,
    binders: Seq<Seq<char>>,
    caught_by: Seq<Seq<char>>,
) -> Option<Seq<char>>
    decreases names.len() - k,
{
    if 0 <= k < names.len() {
        if spec_lookup(env, names[k], 0) is None && !binders.contains(names[k])
            && caught_by.contains(names[k]) {
            Some(names[k])
        } else {
            spec_caught(names, k + 1, env, binders, caught_by)
        }
    } else {
        None
    }
}

/// What becomes of a use of a macro.
pub enum Expansion {
    /// The datum that the template of the first matching rule writes.
    Written(DatumView),
    /// No rule matches the use.
    NoRule,
    /// The template of the first matching rule writes this identifier as it stands,
    /// and binds it with a variable that the use gave.
    Caught(Seq<char>),
    /// The template of the first matching rule cannot be written out.
    CannotWrite,
}

/// What the template `template` writes for a use that bound the variables of its
/// pattern as `env` says, in the expansion with the number `counter`.
///
/// The identifiers that the template binds are written under their fresh names. No
/// identifier that the template writes as it stands may be bound by the template with
/// a name that the use gave: it would mean the variable of the use.
pub open spec fn spec_write(template: TemplateView, env: Seq<BoundView>, counter: nat) -> Expansion {
    let binders = spec_binders(template);
    match spec_caught(
        spec_identifiers(template),
        0,
        env,
        binders,
        spec_use_binders(binders, 0, env),
    ) {
        Some(name) => Expansion::Caught(name),
        None => match spec_instantiate(template, env, binders, counter) {
            Some(d) => Expansion::Written(d),
            None => Expansion::CannotWrite,
        },
    }
}

/// What becomes of a use with the operands `args` under the transformer, in the
/// expansion with the number `counter`: the first rule whose pattern matches is
/// taken, and its template is written out.
pub open spec fn spec_expand(transformer: SyntaxRulesView, args: Seq<DatumView>, counter: nat) -> Expansion {
    match spec_select_rule(transformer, args, 0) {
        Some(selected) => spec_write(
            transformer.rules[selected.index].template,
            selected.env,
            counter,
        ),
        None => Expansion::NoRule,
    }
}

/// The model of the outcome of an expansion of a use of the macro `keyword`.
pub open spec fn expansion_result(e: Expansion, keyword: Seq<char>) -> Result<
    DatumView,
    CompilerErrorView,
> {
    match e {
        Expansion::Written(d) => Ok(d),
        Expansion::NoRule => Err(
            CompilerErrorView::SyntaxError(SyntaxErrorKind::NoMatchingRule, keyword),
        ),
        Expansion::Caught(name) => Err(
            CompilerErrorView::SyntaxError(SyntaxErrorKind::CapturedIdentifier, name),
        ),
        Expansion::CannotWrite => Err(
            CompilerErrorView::SyntaxError(SyntaxErrorKind::EllipsisMismatch, keyword),
        ),
    }
}

/// Adds the identifiers that stand in the data `ds` to `out`.
fn datum_identifiers_from(ds: &Vec<Datum>, out: &mut Vec<String>)
    ensures
        texts(final(out)@) == texts(old(out)@) + spec_datum_identifiers_from(
            datum_views(ds@),
            0,
        ),
    decreases ds,
{
    let ghost before = texts(out@);
    let ghost views = datum_views(ds@);
    let mut k: usize = 0;
    while k < ds.len()
        invariant
            k <= ds@.len(),
            views == datum_views(ds@),
            before + spec_datum_identifiers_from(views, 0) == texts(out@)
                + spec_datum_identifiers_from(views, k as int),
        decreases ds@.len() - k,
    {
        let ghost here = texts(out@);
        datum_identifiers_into(&ds[k], out);
        proof {
            let own = spec_datum_identifiers(views[k as int]);
            let rest = spec_datum_identifiers_from(views, k + 1);
            assert((here + own) + rest =~= here + (own + rest));
        }
        k += 1;
    }
    assert(texts(out@) + Seq::<Seq<char>>::empty() =~= texts(out@));
}

/// Adds the identifiers that stand in the datum `d` to `out`.
fn datum_identifiers_into(d: &Datum, out: &mut Vec<String>)
    ensures
        texts(final(out)@) == texts(old(out)@) + spec_datum_identifiers(d@),
    decreases d,
{
    let ghost before = texts(out@);
    proof {
        lemma_datum_view(*d);
        assert(before + Seq::<Seq<char>>::empty() =~= before);
    }
    match d {
        Datum::Identifier(name) => {
            out.push(name.clone());
            assert(texts(out@) =~= before + seq![name@]);
        },
        Datum::List(ds) => {
            datum_identifiers_from(ds, out);
        },
        Datum::Vector(ds) => {
            datum_identifiers_from(ds, out);
        },
        Datum::DottedPair(ds, tail) => {
            datum_identifiers_from(ds, out);
            datum_identifiers_into(tail, out);
            proof {
                let a = spec_datum_identifiers_from(datum_views(ds@), 0);
                let b = spec_datum_identifiers(tail@);
                assert((before + a) + b =~= before + (a + b));
            }
        },
        Datum::Quote(inner) => {
            datum_identifiers_into(inner, out);
        },
        Datum::Backquote(inner) => {
            datum_identifiers_into(inner, out);
        },
        Datum::Unquote(inner) => {
            datum_identifiers_into(inner, out);
        },
        Datum::UnquoteSplice(inner) => {
            datum_identifiers_into(inner, out);
        },
        _ => {},
    }
}

/// Adds the identifiers that stand in what the bindings `bs` bind to to `out`.
fn binding_identifiers_from(bs: &Vec<Binding>, out: &mut Vec<String>)
    ensures
        texts(final(out)@) == texts(old(out)@) + spec_binding_identifiers_from(
            binding_views(bs@),
            0,
        ),
    decreases bs,
{
    let ghost before = texts(out@);
    let ghost views = binding_views(bs@);
    let mut k: usize = 0;
    while k < bs.len()
        invariant
            k <= bs@.len(),
            views == binding_views(bs@),
            before + spec_binding_identifiers_from(views, 0) == texts(out@)
                + spec_binding_identifiers_from(views, k as int),
        decreases bs@.len() - k,
    {
        let ghost here = texts(out@);
        binding_identifiers_into(&bs[k], out);
        proof {
            let own = spec_binding_identifiers(views[k as int]);
            let rest = spec_binding_identifiers_from(views, k + 1);
            assert((here + own) + rest =~= here + (own + rest));
        }
        k += 1;
    }
    assert(texts(out@) + Seq::<Seq<char>>::empty() =~= texts(out@));
}

/// Adds the identifiers that stand in what the binding `b` binds to to `out`.
fn binding_identifiers_into(b: &Binding, out: &mut Vec<String>)
    ensures
        texts(final(out)@) == texts(old(out)@) + spec_binding_identifiers(b@),
    decreases b,
{
    proof {
        lemma_binding_view(*b);
    }
    match b {
        Binding::One(d) => {
            datum_identifiers_into(d, out);
        },
        Binding::Many(bs) => {
            binding_identifiers_from(bs, out);
        },
    }
}

/// The identifiers of the use that the template binds, where `positions` are the
/// identifiers that stand in the template where variables are bound.
fn use_binders(positions: &Vec<String>, env: &Vec<Bound>) -> (names: Vec<String>)
    ensures
        texts(names@) == spec_use_binders(texts(positions@), 0, bound_views(env@)),
{
    let ghost places = texts(positions@);
    let ghost bound = bound_views(env@);
    let mut names: Vec<String> = Vec::new();
    let mut k: usize = 0;
    proof {
        assert(texts(names@) + spec_use_binders(places, 0, bound) =~= spec_use_binders(
            places,
            0,
            bound,
        ));
    }
    while k < positions.len()
        invariant
            k <= positions@.len(),
            places == texts(positions@),
            bound == bound_views(env@),
            spec_use_binders(places, 0, bound) == texts(names@) + spec_use_binders(
                places,
                k as int,
                bound,
            ),
        decreases positions@.len() - k,
    {
        let ghost here = texts(names@);
        match find_binding(env, &positions[k]) {
            Some(b) => {
                binding_identifiers_into(b, &mut names);
                proof {
                    let own = spec_binding_identifiers(b@);
                    let rest = spec_use_binders(places, k + 1, bound);
                    assert((here + own) + rest =~= here + (own + rest));
                }
            },
            None => {},
        }
        k += 1;
    }
    proof {
        assert(texts(names@) + Seq::<Seq<char>>::empty() =~= texts(names@));
    }
    names
}

/// The first of the identifiers `names` that the template writes as it stands and
/// that is among `caught_by`.
fn find_caught<'a>(
    names: &'a Vec<String>,
    env: &Vec<Bound>,
    binders: &Vec<String>,
    caught_by: &Vec<String>,
) -> (r: Option<&'a String>)
    ensures
        match r {
            Some(name) => spec_caught(
                texts(names@),
                0,
                bound_views(env@),
                texts(binders@),
                texts(caught_by@),
            ) == Some(name@),
            None => spec_caught(
                texts(names@),
                0,
                bound_views(env@),
                texts(binders@),
                texts(caught_by@),
            ) is None,
        },
{
    let mut k: usize = 0;
    while k < names.len()
        invariant
            k <= names@.len(),
            spec_caught(
                texts(names@),
                0,
                bound_views(env@),
                texts(binders@),
                texts(caught_by@),
            ) == spec_caught(
                texts(names@),
                k as int,
                bound_views(env@),
                texts(binders@),
                texts(caught_by@),
            ),
        decreases names@.len() - k,
    {
        let name = &names[k];
        if find_binding(env, name).is_none() && !has_name(binders, name) && has_name(
            caught_by,
            name,
        ) {
            return Some(name);
        }
        k += 1;
    }
    None
}

/// Writes the template `template` out for a use that bound the variables of its
/// pattern as `env` says, in the expansion with the number `counter` of a use of the
/// macro `keyword`.
pub fn write_template(template: &Template, env: &Vec<Bound>, keyword: &String, counter: usize) -> (r:
    Result<Datum, CompilerError>)
    ensures
        datum_result(r) == expansion_result(
            spec_write(template@, bound_views(env@), counter as nat),
            keyword@,
        ),
{
    let binders = template_binders(template);
    let names = template_identifiers(template);
    let caught_by = use_binders(&binders, env);
    match find_caught(&names, env, &binders, &caught_by) {
        Some(name) => {
            return Err(
                CompilerError::SyntaxError(SyntaxErrorKind::CapturedIdentifier, name.clone()),
            );
        },
        None => {},
    }
    match instantiate(template, env, &binders, counter) {
        Some(d) => Ok(d),
        None => Err(
            CompilerError::SyntaxError(SyntaxErrorKind::EllipsisMismatch, keyword.clone()),
        ),
    }
}

/// Expands a use of the macro `keyword` with the operands `args`: the datum that the
/// first matching rule of `transformer` writes for it. `counter` is the number of the
/// expansion, which no other expansion may have.
pub fn expand(
    transformer: &SyntaxRules,
    keyword: &String,
    args: &Vec<Datum>,
    counter: usize,
) -> (r: Result<Datum, CompilerError>)
    ensures
        datum_result(r) == expansion_result(
            spec_expand(transformer@, datum_views(args@), counter as nat),
            keyword@,
        ),
{
    match select_rule(transformer, args) {
        Some((index, env)) => write_template(
            &transformer.rules[index].template,
            &env,
            keyword,
            counter,
        ),
        None => Err(
            CompilerError::SyntaxError(SyntaxErrorKind::NoMatchingRule, keyword.clone()),
        ),
    }
}

// ---------------------------------------------------------------------------------
// Transformers as they are written
// ---------------------------------------------------------------------------------

/// Whether `d` is the identifier `...`.
pub open spec fn is_ellipsis(d: DatumView) -> bool {
    d == DatumView::Identifier("..."@)
}

/// The index of the first `...` among `ds[k..]`, or the length of `ds` where there is
/// none.
pub open spec fn spec_ellipsis_index(ds: Seq<DatumView>, k: int) -> int
    decreases ds.len() - k,
{
    if 0 <= k < ds.len() && !is_ellipsis(ds[k]) {
        spec_ellipsis_index(ds, k + 1)
    } else {
        k
    }
}

/// The pattern that the datum `d` writes, or `None` where it writes none.
///
/// An identifier other than `...` is an identifier pattern, and a boolean, number,
/// character or string matches its equal. In a list or vector the first `...` makes
/// the element before it the repeated one; it cannot be the first element. A dotted
/// list is a pair.
pub open spec fn spec_pattern(d: DatumView) -> Option<PatternView>
    decreases d, 0int,
{
    match d {
        DatumView::Identifier(name) => if is_ellipsis(d) {
            None
        } else {
            Some(PatternView::Identifier(name))
        },
        DatumView::Boolean(_) => Some(PatternView::Datum(d)),
        DatumView::Number(_) => Some(PatternView::Datum(d)),
        DatumView::Character(_) => Some(PatternView::Datum(d)),
        DatumView::String(_) => Some(PatternView::Datum(d)),
        DatumView::List(ds) => match spec_pattern_parts(ds) {
            Some((first, None, _)) => Some(PatternView::List(first)),
            Some((first, Some(repeated), last)) => Some(
                PatternView::EllipsisList(first, Box::new(repeated), last),
            ),
            None => None,
        },
        DatumView::Vector(ds) => match spec_pattern_parts(ds) {
            Some((first, None, _)) => Some(PatternView::Vector(first)),
            Some((first, Some(repeated), last)) => Some(
                PatternView::EllipsisVector(first, Box::new(repeated), last),
            ),
            None => None,
        },
        DatumView::DottedPair(ds, tail) => match (
            spec_patterns(ds, 0, ds.len() as int),
            spec_pattern(*tail),
        ) {
            (Some(ps), Some(t)) => Some(PatternView::Pair(ps, Box::new(t))),
            _ => None,
        },
        _ => None,
    }
}

/// The patterns that the elements `ds` of a list or vector write: those before the
/// repeated one, the repeated one if there is an ellipsis, and those behind the
/// ellipsis.
pub open spec fn spec_pattern_parts(ds: Seq<DatumView>) -> Option<
    (Seq<PatternView>, Option<PatternView>, Seq<PatternView>),
>
    decreases ds, ds.len() + 1,
{
    let at = spec_ellipsis_index(ds, 0);
    if at >= ds.len() {
        match spec_patterns(ds, 0, ds.len() as int) {
            Some(ps) => Some((ps, None, Seq::empty())),
            None => None,
        }
    } else if at < 1 {
        None
    } else {
        match (
            spec_patterns(ds, 0, at - 1),
            spec_pattern(ds[at - 1]),
            spec_patterns(ds, at + 1, ds.len() as int),
        ) {
            (Some(first), Some(repeated), Some(last)) => Some((first, Some(repeated), last)),
            _ => None,
        }
    }
}

/// The patterns that the data `ds[k..end]` write, one for one.
pub open spec fn spec_patterns(ds: Seq<DatumView>, k: int, end: int) -> Option<Seq<PatternView>>
    decreases ds, end - k,
{
    if 0 <= k < end <= ds.len() {
        match (spec_pattern(ds[k]), spec_patterns(ds, k + 1, end)) {
            (Some(p), Some(ps)) => Some(seq![p] + ps),
            _ => None,
        }
    } else {
        Some(Seq::empty())
    }
}

/// The template that the datum `d` writes, or `None` where it writes none.
///
/// An identifier other than `...` is an identifier of the template, and a boolean,
/// number, character or string stands for itself. In a list, a vector or before the
/// dot of a dotted list, an element that `...` follows is repeated. `'d` is the list
/// of `quote` and `d`.
pub open spec fn spec_template(d: DatumView) -> Option<TemplateView>
    decreases d, 0int,
{
    match d {
        DatumView::Identifier(name) => if is_ellipsis(d) {
            None
        } else {
            Some(TemplateView::Identifier(name))
        },
        DatumView::Boolean(_) => Some(TemplateView::Datum(d)),
        DatumView::Number(_) => Some(TemplateView::Datum(d)),
        DatumView::Character(_) => Some(TemplateView::Datum(d)),
        DatumView::String(_) => Some(TemplateView::Datum(d)),
        DatumView::List(ds) => match spec_templates(ds, 0) {
            Some(ts) => Some(TemplateView::List(ts)),
            None => None,
        },
        DatumView::Vector(ds) => match spec_templates(ds, 0) {
            Some(ts) => Some(TemplateView::Vector(ts)),
            None => None,
        },
        DatumView::DottedPair(ds, tail) => match (spec_templates(ds, 0), spec_template(*tail)) {
            (Some(ts), Some(t)) => Some(TemplateView::Pair(ts, Box::new(t))),
            _ => None,
        },
        DatumView::Quote(inner) => match spec_template(*inner) {
            Some(t) => Some(TemplateView::List(seq![TemplateView::Identifier("quote"@), t])),
            None => None,
        },
        _ => None,
    }
}

/// The templates that the data `ds[k..]` write as elements: one for each datum that
/// is no `...`, repeated where `...` follows it.
pub open spec fn spec_templates(ds: Seq<DatumView>, k: int) -> Option<Seq<TemplateView>>
    decreases ds, ds.len() - k,
{
    if 0 <= k < ds.len() {
        let repeats = k + 1 < ds.len() && is_ellipsis(ds[k + 1]);
        match (
            spec_template(ds[k]),
            spec_templates(
                ds,
                if repeats {
                    k + 2
                } else {
                    k + 1
                },
            ),
        ) {
            (Some(t), Some(ts)) => Some(
                seq![
                    if repeats {
                        TemplateView::Ellipsis(Box::new(t))
                    } else {
                        t
                    },
                ] + ts,
            ),
            _ => None,
        }
    } else {
        Some(Seq::empty())
    }
}

/// The names of the identifiers `ds[k..]`, or `None` where one of them is none.
pub open spec fn spec_literals(ds: Seq<DatumView>, k: int) -> Option<Seq<Seq<char>>>
    decreases ds.len() - k,
{
    if 0 <= k < ds.len() {
        match (ds[k], spec_literals(ds, k + 1)) {
            (DatumView::Identifier(name), Some(names)) => Some(seq![name] + names),
            _ => None,
        }
    } else {
        Some(Seq::empty())
    }
}

/// The rule that the datum `d` writes: a list of a pattern and a template.
pub open spec fn spec_rule(d: DatumView) -> Option<SyntaxRuleView> {
    match d {
        DatumView::List(ds) => if ds.len() == 2 {
            match (spec_pattern(ds[0]), spec_template(ds[1])) {
                (Some(pattern), Some(template)) => Some(SyntaxRuleView { pattern, template }),
                _ => None,
            }
        } else {
            None
        },
        _ => None,
    }
}

/// The rules that the data `ds[k..]` write, one for one.
pub open spec fn spec_rules(ds: Seq<DatumView>, k: int) -> Option<Seq<SyntaxRuleView>>
    decreases ds.len() - k,
{
    if 0 <= k < ds.len() {
        match (spec_rule(ds[k]), spec_rules(ds, k + 1)) {
            (Some(rule), Some(rules)) => Some(seq![rule] + rules),
            _ => None,
        }
    } else {
        Some(Seq::empty())
    }
}

/// The transformer that the datum `d` writes: `(syntax-rules (literal ...) rule ...)`.
pub open spec fn spec_syntax_rules(d: DatumView) -> Option<SyntaxRulesView> {
    match d {
        DatumView::List(ds) => if ds.len() >= 2 && ds[0] == DatumView::Identifier(
            "syntax-rules"@,
        ) && ds[1] is List {
            match (spec_literals(ds[1]->List_0, 0), spec_rules(ds, 2)) {
                (Some(identifiers), Some(rules)) => Some(SyntaxRulesView { identifiers, rules }),
                _ => None,
            }
        } else {
            None
        },
        _ => None,
    }
}

/// Whether `d` is the identifier `...`.
fn is_ellipsis_datum(d: &Datum) -> (b: bool)
    ensures
        b == is_ellipsis(d@),
{
    match d {
        Datum::Identifier(name) => same_str(name.as_str(), "..."),
        _ => false,
    }
}

/// The index of the first `...` among `ds`, or the length of `ds`.
fn ellipsis_index(ds: &Vec<Datum>) -> (at: usize)
    ensures
        at == spec_ellipsis_index(datum_views(ds@), 0),
        at <= ds@.len(),
{
    let mut at: usize = 0;
    while at < ds.len() && !is_ellipsis_datum(&ds[at])
        invariant
            at <= ds@.len(),
            spec_ellipsis_index(datum_views(ds@), 0) == spec_ellipsis_index(
                datum_views(ds@),
                at as int,
            ),
        decreases ds@.len() - at,
    {
        at += 1;
    }
    at
}

/// The model of patterns that were read or not.
pub open spec fn patterns_read(r: Option<Vec<Pattern>>) -> Option<Seq<PatternView>> {
    match r {
        Some(ps) => Some(pattern_views(ps@)),
        None => None,
    }
}

/// The model of templates that were read or not.
pub open spec fn templates_read(r: Option<Vec<Template>>) -> Option<Seq<TemplateView>> {
    match r {
        Some(ts) => Some(template_views(ts@)),
        None => None,
    }
}

/// The model of a pattern that was read or not.
pub open spec fn pattern_read(r: Option<Pattern>) -> Option<PatternView> {
    match r {
        Some(p) => Some(p@),
        None => None,
    }
}

/// The model of a template that was read or not.
pub open spec fn template_read(r: Option<Template>) -> Option<TemplateView> {
    match r {
        Some(t) => Some(t@),
        None => None,
    }
}

/// Reads the data `ds[from..end]` as patterns.
fn parse_patterns(ds: &Vec<Datum>, from: usize, end: usize) -> (r: Option<Vec<Pattern>>)
    requires
        from <= end <= ds@.len(),
    ensures
        patterns_read(r) == spec_patterns(datum_views(ds@), from as int, end as int),
    decreases ds, end - from,
{
    let ghost data = datum_views(ds@);
    let ghost whole = spec_patterns(data, from as int, end as int);
    let mut ps: Vec<Pattern> = Vec::new();
    let mut k: usize = from;
    proof {
        if whole is Some {
            assert(pattern_views(ps@) + whole->Some_0 =~= whole->Some_0);
        }
    }
    while k < end
        invariant
            from <= k <= end <= ds@.len(),
            data == datum_views(ds@),
            whole == spec_patterns(data, from as int, end as int),
            whole is Some <==> spec_patterns(data, k as int, end as int) is Some,
            whole is Some ==> whole->Some_0 == pattern_views(ps@) + spec_patterns(
                data,
                k as int,
                end as int,
            )->Some_0,
        decreases end - k,
    {
        let ghost so_far = pattern_views(ps@);
        match parse_pattern(&ds[k]) {
            Some(p) => {
                proof {
                    let rest = spec_patterns(data, k + 1, end as int);
                    assert(pattern_views(ps@.push(p)) =~= so_far.push(p@));
                    if rest is Some {
                        assert(so_far.push(p@) + rest->Some_0 =~= so_far + (seq![p@]
                            + rest->Some_0));
                    }
                }
                ps.push(p);
            },
            None => {
                return None;
            },
        }
        k += 1;
    }
    proof {
        assert(pattern_views(ps@) + Seq::<PatternView>::empty() =~= pattern_views(ps@));
    }
    Some(ps)
}

/// The parts of the pattern that the elements of a list or vector write.
fn parse_pattern_parts(ds: &Vec<Datum>) -> (r: Option<(Vec<Pattern>, Option<Pattern>, Vec<Pattern>)>)
    ensures
        match r {
            Some((first, repeated, last)) => spec_pattern_parts(datum_views(ds@)) == Some(
                (pattern_views(first@), pattern_read(repeated), pattern_views(last@)),
            ),
            None => spec_pattern_parts(datum_views(ds@)) is None,
        },
    decreases ds, ds@.len() + 1,
{
    let at = ellipsis_index(ds);
    if at >= ds.len() {
        match parse_patterns(ds, 0, ds.len()) {
            Some(ps) => {
                let last: Vec<Pattern> = Vec::new();
                assert(pattern_views(last@) =~= Seq::<PatternView>::empty());
                Some((ps, None, last))
            },
            None => None,
        }
    } else if at < 1 {
        None
    } else {
        let first = parse_patterns(ds, 0, at - 1);
        let repeated = parse_pattern(&ds[at - 1]);
        let last = parse_patterns(ds, at + 1, ds.len());
        match (first, repeated, last) {
            (Some(first), Some(repeated), Some(last)) => Some((first, Some(repeated), last)),
            _ => None,
        }
    }
}

/// Reads the datum `d` as a pattern.
pub fn parse_pattern(d: &Datum) -> (r: Option<Pattern>)
    ensures
        pattern_read(r) == spec_pattern(d@),
    decreases d, 0int,
{
    proof {
        lemma_datum_view(*d);
    }
    let r = match d {
        Datum::Identifier(name) => {
            if is_ellipsis_datum(d) {
                None
            } else {
                Some(Pattern::Identifier(name.clone()))
            }
        },
        Datum::Boolean(_) => Some(Pattern::Datum(d.clone())),
        Datum::Number(_) => Some(Pattern::Datum(d.clone())),
        Datum::Character(_) => Some(Pattern::Datum(d.clone())),
        Datum::String(_) => Some(Pattern::Datum(d.clone())),
        Datum::List(ds) => match parse_pattern_parts(ds) {
            Some((first, None, _)) => Some(Pattern::List(first)),
            Some((first, Some(repeated), last)) => Some(
                Pattern::EllipsisList(first, Box::new(repeated), last),
            ),
            None => None,
        },
        Datum::Vector(ds) => match parse_pattern_parts(ds) {
            Some((first, None, _)) => Some(Pattern::Vector(first)),
            Some((first, Some(repeated), last)) => Some(
                Pattern::EllipsisVector(first, Box::new(repeated), last),
            ),
            None => None,
        },
        Datum::DottedPair(ds, tail) => {
            let ps = parse_patterns(ds, 0, ds.len());
            let t = parse_pattern(tail);
            match (ps, t) {
                (Some(ps), Some(t)) => Some(Pattern::Pair(ps, Box::new(t))),
                _ => None,
            }
        },
        _ => None,
    };
    proof {
        if r is Some {
            lemma_pattern_view(r->Some_0);
        }
    }
    r
}

/// Reads the data `ds` as the elements of a template.
fn parse_templates(ds: &Vec<Datum>) -> (r: Option<Vec<Template>>)
    ensures
        templates_read(r) == spec_templates(datum_views(ds@), 0),
    decreases ds, 0int,
{
    let ghost data = datum_views(ds@);
    let ghost whole = spec_templates(data, 0);
    let mut ts: Vec<Template> = Vec::new();
    let mut k: usize = 0;
    proof {
        if whole is Some {
            assert(template_views(ts@) + whole->Some_0 =~= whole->Some_0);
        }
    }
    while k < ds.len()
        invariant
            k <= ds@.len(),
            data == datum_views(ds@),
            whole == spec_templates(data, 0),
            whole is Some <==> spec_templates(data, k as int) is Some,
            whole is Some ==> whole->Some_0 == template_views(ts@) + spec_templates(
                data,
                k as int,
            )->Some_0,
        decreases ds@.len() - k,
    {
        let ghost so_far = template_views(ts@);
        let repeats = k + 1 < ds.len() && is_ellipsis_datum(&ds[k + 1]);
        let next: usize = if repeats {
            k + 2
        } else {
            k + 1
        };
        match parse_template(&ds[k]) {
            Some(t) => {
                let element = if repeats {
                    Template::Ellipsis(Box::new(t))
                } else {
                    t
                };
                proof {
                    let rest = spec_templates(data, next as int);
                    assert(template_views(ts@.push(element)) =~= so_far.push(element@));
                    if rest is Some {
                        assert(so_far.push(element@) + rest->Some_0 =~= so_far + (seq![element@]
                            + rest->Some_0));
                    }
                }
                ts.push(element);
            },
            None => {
                return None;
            },
        }
        k = next;
    }
    proof {
        assert(template_views(ts@) + Seq::<TemplateView>::empty() =~= template_views(ts@));
    }
    Some(ts)
}

/// Reads the datum `d` as a template.
pub fn parse_template(d: &Datum) -> (r: Option<Template>)
    ensures
        template_read(r) == spec_template(d@),
    decreases d, 1int,
{
    proof {
        lemma_datum_view(*d);
    }
    let r = match d {
        Datum::Identifier(name) => {
            if is_ellipsis_datum(d) {
                None
            } else {
                Some(Template::Identifier(name.clone()))
            }
        },
        Datum::Boolean(_) => Some(Template::Datum(d.clone())),
        Datum::Number(_) => Some(Template::Datum(d.clone())),
        Datum::Character(_) => Some(Template::Datum(d.clone())),
        Datum::String(_) => Some(Template::Datum(d.clone())),
        Datum::List(ds) => match parse_templates(ds) {
            Some(ts) => Some(Template::List(ts)),
            None => None,
        },
        Datum::Vector(ds) => match parse_templates(ds) {
            Some(ts) => Some(Template::Vector(ts)),
            None => None,
        },
        Datum::DottedPair(ds, tail) => {
            let ts = parse_templates(ds);
            let t = parse_template(tail);
            match (ts, t) {
                (Some(ts), Some(t)) => Some(Template::Pair(ts, Box::new(t))),
                _ => None,
            }
        },
        Datum::Quote(inner) => match parse_template(inner) {
            Some(t) => {
                let mut ts: Vec<Template> = Vec::new();
                ts.push(Template::Identifier(String::from_str("quote")));
                ts.push(t);
                assert(template_views(ts@) =~= seq![TemplateView::Identifier("quote"@), t@]);
                Some(Template::List(ts))
            },
            None => None,
        },
        _ => None,
    };
    proof {
        if r is Some {
            lemma_template_view(r->Some_0);
        }
    }
    r
}

/// Reads the identifiers `ds` as the literals of a transformer.
fn parse_literals(ds: &Vec<Datum>) -> (r: Option<Vec<String>>)
    ensures
        match r {
            Some(names) => spec_literals(datum_views(ds@), 0) == Some(texts(names@)),
            None => spec_literals(datum_views(ds@), 0) is None,
        },
{
    let ghost data = datum_views(ds@);
    let ghost whole = spec_literals(data, 0);
    let mut names: Vec<String> = Vec::new();
    let mut k: usize = 0;
    proof {
        if whole is Some {
            assert(texts(names@) + whole->Some_0 =~= whole->Some_0);
        }
    }
    while k < ds.len()
        invariant
            k <= ds@.len(),
            data == datum_views(ds@),
            whole == spec_literals(data, 0),
            whole is Some <==> spec_literals(data, k as int) is Some,
            whole is Some ==> whole->Some_0 == texts(names@) + spec_literals(
                data,
                k as int,
            )->Some_0,
        decreases ds@.len() - k,
    {
        let ghost so_far = texts(names@);
        match &ds[k] {
            Datum::Identifier(name) => {
                proof {
                    let rest = spec_literals(data, k + 1);
                    assert(texts(names@.push(*name)) =~= so_far.push(name@));
                    if rest is Some {
                        assert(so_far.push(name@) + rest->Some_0 =~= so_far + (seq![name@]
                            + rest->Some_0));
                    }
                }
                names.push(name.clone());
            },
            _ => {
                return None;
            },
        }
        k += 1;
    }
    proof {
        assert(texts(names@) + Seq::<Seq<char>>::empty() =~= texts(names@));
    }
    Some(names)
}

/// Reads the datum `d` as a rule.
fn parse_rule(d: &Datum) -> (r: Option<SyntaxRule>)
    ensures
        match r {
            Some(rule) => spec_rule(d@) == Some(rule@),
            None => spec_rule(d@) is None,
        },
{
    proof {
        lemma_datum_view(*d);
    }
    match d {
        Datum::List(ds) => {
            if ds.len() != 2 {
                return None;
            }
            let pattern = parse_pattern(&ds[0]);
            let template = parse_template(&ds[1]);
            match (pattern, template) {
                (Some(pattern), Some(template)) => Some(SyntaxRule { pattern, template }),
                _ => None,
            }
        },
        _ => None,
    }
}

/// The models of a sequence of rules, one for one.
pub open spec fn rule_views(rules: Seq<SyntaxRule>) -> Seq<SyntaxRuleView> {
    Seq::new(rules.len(), |k: int| rules[k]@)
}

/// Reads the data `ds[2..]` as the rules of a transformer.
fn parse_rules(ds: &Vec<Datum>) -> (r: Option<Vec<SyntaxRule>>)
    requires
        ds@.len() >= 2,
    ensures
        match r {
            Some(rules) => spec_rules(datum_views(ds@), 2) == Some(rule_views(rules@)),
            None => spec_rules(datum_views(ds@), 2) is None,
        },
{
    let ghost data = datum_views(ds@);
    let ghost whole = spec_rules(data, 2);
    let mut rules: Vec<SyntaxRule> = Vec::new();
    let mut k: usize = 2;
    proof {
        if whole is Some {
            assert(rule_views(rules@) + whole->Some_0 =~= whole->Some_0);
        }
    }
    while k < ds.len()
        invariant
            2 <= k <= ds@.len(),
            data == datum_views(ds@),
            whole == spec_rules(data, 2),
            whole is Some <==> spec_rules(data, k as int) is Some,
            whole is Some ==> whole->Some_0 == rule_views(rules@) + spec_rules(
                data,
                k as int,
            )->Some_0,
        decreases ds@.len() - k,
    {
        let ghost so_far = rule_views(rules@);
        match parse_rule(&ds[k]) {
            Some(rule) => {
                proof {
                    let rest = spec_rules(data, k + 1);
                    assert(rule_views(rules@.push(rule)) =~= so_far.push(rule@));
                    if rest is Some {
                        assert(so_far.push(rule@) + rest->Some_0 =~= so_far + (seq![rule@]
                            + rest->Some_0));
                    }
                }
                rules.push(rule);
            },
            None => {
                return None;
            },
        }
        k += 1;
    }
    proof {
        assert(rule_views(rules@) + Seq::<SyntaxRuleView>::empty() =~= rule_views(rules@));
    }
    Some(rules)
}

/// Reads the datum `d` as a transformer: `(syntax-rules (literal ...) rule ...)`,
/// where a rule is a list of a pattern and a template.
pub fn parse_syntax_rules(d: &Datum) -> (r: Result<SyntaxRules, CompilerError>)
    ensures
        match r {
            Ok(transformer) => spec_syntax_rules(d@) == Some(transformer@),
            Err(e) => spec_syntax_rules(d@) is None && e@ == CompilerErrorView::SyntaxError(
                SyntaxErrorKind::MalformedSyntaxRules,
                Seq::empty(),
            ),
        },
{
    proof {
        lemma_datum_view(*d);
    }
    let found = match d {
        Datum::List(ds) => {
            if ds.len() >= 2 {
                let headed = match &ds[0] {
                    Datum::Identifier(head) => same_str(head.as_str(), "syntax-rules"),
                    _ => false,
                };
                proof {
                    lemma_datum_view(ds@[1]);
                }
                match &ds[1] {
                    Datum::List(literals) => {
                        if headed {
                            let identifiers = parse_literals(literals);
                            let rules = parse_rules(ds);
                            match (identifiers, rules) {
                                (Some(identifiers), Some(rules)) => {
                                    let transformer = SyntaxRules { identifiers, rules };
                                    assert(transformer@.rules =~= rule_views(rules@));
                                    Some(transformer)
                                },
                                _ => None,
                            }
                        } else {
                            None
                        }
                    },
                    _ => None,
                }
            } else {
                None
            }
        },
        _ => None,
    };
    match found {
        Some(transformer) => Ok(transformer),
        None => Err(
            CompilerError::SyntaxError(SyntaxErrorKind::MalformedSyntaxRules, String::new()),
        ),
    }
}

// ---------------------------------------------------------------------------------
// What holds of matching
// ---------------------------------------------------------------------------------

/// The pattern `p` matches each of the data `ds[k..end]`, where it is a variable.
proof fn lemma_variable_matches_each(
    name: Seq<char>,
    ds: Seq<DatumView>,
    literals: Seq<Seq<char>>,
    k: int,
    end: int,
)
    requires
        !literals.contains(name),
        0 <= k <= end <= ds.len(),
    ensures
        spec_match_each(PatternView::Identifier(name), ds, literals, k, end) == Some(
            Seq::new(
                (end - k) as nat,
                |j: int| seq![BoundView { name, binding: BindingView::One(ds[k + j]) }],
            ),
        ),
    decreases end - k,
{
    let p = PatternView::Identifier(name);
    let expected = Seq::new(
        (end - k) as nat,
        |j: int| seq![BoundView { name, binding: BindingView::One(ds[k + j]) }],
    );
    if k < end {
        lemma_variable_matches_each(name, ds, literals, k + 1, end);
        let others = spec_match_each(p, ds, literals, k + 1, end)->Some_0;
        let one = spec_match(p, ds[k], literals)->Some_0;
        assert(seq![one] + others =~= expected);
    } else {
        assert(Seq::<Seq<BoundView>>::empty() =~= expected);
    }
}

/// A variable before an ellipsis is bound once for each operand that the ellipsis
/// stands for: the pattern `(keyword name ...)` matches a use with any number of
/// operands, and binds `name` to as many bindings as there are operands, the `j`-th of
/// them to the `j`-th operand.
pub proof fn law_ellipsis_binds_each_operand(
    keyword: PatternView,
    name: Seq<char>,
    args: Seq<DatumView>,
    literals: Seq<Seq<char>>,
)
    requires
        !literals.contains(name),
    ensures
        spec_match_use(
            PatternView::EllipsisList(
                seq![keyword],
                Box::new(PatternView::Identifier(name)),
                Seq::empty(),
            ),
            args,
            literals,
        ) == Some(
            seq![
                BoundView {
                    name,
                    binding: BindingView::Many(
                        Seq::new(args.len(), |j: int| BindingView::One(args[j])),
                    ),
                },
            ],
        ),
{
    let repeated = PatternView::Identifier(name);
    let first = seq![keyword];
    let last = Seq::<PatternView>::empty();
    lemma_variable_matches_each(name, args, literals, 0, args.len() as int);
    let sets = spec_match_each(repeated, args, literals, 0, args.len() as int)->Some_0;
    let middle = gathered(spec_pattern_variables(repeated, literals), sets);
    let expected = seq![
        BoundView {
            name,
            binding: BindingView::Many(Seq::new(args.len(), |j: int| BindingView::One(args[j]))),
        },
    ];
    assert(spec_pattern_variables(repeated, literals) =~= seq![name]);
    assert(middle[0].binding->Many_0 =~= Seq::new(
        args.len(),
        |j: int| BindingView::One(args[j]),
    ));
    assert(middle =~= expected);
    assert(spec_match_from(first, args, literals, 1, -1) == Some(Seq::<BoundView>::empty()));
    assert(spec_match_from(last, args, literals, 0, args.len() as int) == Some(
        Seq::<BoundView>::empty(),
    ));
    assert(Seq::<BoundView>::empty() + middle =~= middle);
    assert(middle + Seq::<BoundView>::empty() =~= middle);
}

} // verus!
