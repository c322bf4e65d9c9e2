//! The scope resolver: from data to expressions of the core language.
//!
//! A datum is read as an expression in a chain of lexical scopes, the innermost first.
//! The special forms `quote`, `set!`, `if`, `lambda`, `let-syntax` and
//! `letrec-syntax` are told by their keywords, a form whose head is bound to a macro
//! in the chain is a use of that macro, and any other form is a procedure call.
//!
//! Uses of macros are expanded as far as the fuel that the caller gives allows, and
//! stay in the expression as they are behind that. What a template writes as it
//! stands means what it meant where the macro was bound. An expression names a
//! variable by its name alone, so where a scope between the macro and its use binds
//! such an identifier, no expression could hold it with that meaning: the use is
//! refused as a capture, and no expansion is made in which the identifier would mean
//! what the scope at the use binds it to.
//!
//! Whether an identifier names a variable that is bound is not asked when an
//! expression is built: a variable that no scope of the chain binds is taken to be
//! bound where the program runs. Who wants it to be an error asks [`unbound_in`] of
//! the expression, which gives the first variable that nothing binds.

use vstd::prelude::*;
use crate::lexer::LispNum;
use crate::lexer::NumView;
use crate::parser::Datum;
use crate::parser::datum_views;
use crate::parser::DatumView;
use crate::parser::lemma_datum_view;
use crate::syntax_rules::Bound;
use crate::syntax_rules::bound_views;
use crate::syntax_rules::BoundView;
use crate::syntax_rules::clone_range;
use crate::syntax_rules::expansion_result;
use crate::syntax_rules::find_binding;
use crate::syntax_rules::has_name;
use crate::syntax_rules::parse_syntax_rules;
use crate::syntax_rules::rest_of_list;
use crate::syntax_rules::select_rule;
use crate::syntax_rules::spec_binders;
use crate::syntax_rules::spec_identifiers;
use crate::syntax_rules::spec_lookup;
use crate::syntax_rules::spec_select_rule;
use crate::syntax_rules::spec_syntax_rules;
use crate::syntax_rules::spec_write;
use crate::syntax_rules::SyntaxRules;
use crate::syntax_rules::SyntaxRulesView;
use crate::syntax_rules::template_binders;
use crate::syntax_rules::template_identifiers;
use crate::syntax_rules::texts;
use crate::syntax_rules::write_template;
use crate::text::same_str;
use crate::CompilerError;
use crate::CompilerErrorView;
use crate::SyntaxErrorKind;

verus! {

// ---------------------------------------------------------------------------------
// Keywords
// ---------------------------------------------------------------------------------

/// Whether `name` is one of the reserved words, which name the forms of the core
/// language and can be bound to nothing.
pub open spec fn spec_is_keyword(name: Seq<char>) -> bool {
    name == "lambda"@ || name == "if"@ || name == "quote"@ || name == "begin"@ || name == "set!"@
        || name == "let-syntax"@ || name == "letrec-syntax"@ || name == "syntax-rules"@ || name
        == "define"@ || name == "define-syntax"@
}

/// Whether `name` is one of the reserved words.
pub fn is_keyword(name: &str) -> (b: bool)
    ensures
        b == spec_is_keyword(name@),
{
    same_str(name, "lambda") || same_str(name, "if") || same_str(name, "quote") || same_str(
        name,
        "begin",
    ) || same_str(name, "set!") || same_str(name, "let-syntax") || same_str(
        name,
        "letrec-syntax",
    ) || same_str(name, "syntax-rules") || same_str(name, "define") || same_str(
        name,
        "define-syntax",
    )
}

// ---------------------------------------------------------------------------------
// Scopes
// ---------------------------------------------------------------------------------

/// A keyword with the transformer that it is bound to.
#[derive(Debug, PartialEq)]
pub struct MacroBinding {
    /// The keyword.
    pub keyword: String,
    /// The transformer.
    pub transformer: SyntaxRules,
}

/// A lexical scope: the variables and the macro keywords that one construct binds.
#[derive(Debug, PartialEq)]
pub struct Scope {
    variables: Vec<String>,
    macros: Vec<MacroBinding>,
}

/// The mathematical model of a [`Scope`].
pub struct ScopeView {
    /// The names of the variables that the scope binds.
    pub variables: Set<Seq<char>>,
    /// The keywords that the scope binds, each with its transformer.
    pub macros: Map<Seq<char>, SyntaxRulesView>,
}

/// The keywords of the bindings `bindings[..n]` with their transformers, where a later
/// binding of a keyword replaces an earlier one.
pub open spec fn macro_map(bindings: Seq<MacroBinding>, n: int) -> Map<Seq<char>, SyntaxRulesView>
    decreases n,
{
    if n <= 0 || n > bindings.len() {
        Map::empty()
    } else {
        macro_map(bindings, n - 1).insert(bindings[n - 1].keyword@, bindings[n - 1].transformer@)
    }
}

impl View for Scope {
    type V = ScopeView;

    closed spec fn view(&self) -> ScopeView {
        ScopeView {
            variables: texts(self.variables@).to_set(),
            macros: macro_map(self.macros@, self.macros@.len() as int),
        }
    }
}

impl Scope {
    /// A scope that binds nothing.
    pub fn new() -> (scope: Self)
        ensures
            scope@.variables == Set::<Seq<char>>::empty(),
            scope@.macros == Map::<Seq<char>, SyntaxRulesView>::empty(),
    {
        let scope = Scope { variables: Vec::new(), macros: Vec::new() };
        assert(texts(scope.variables@).to_set() =~= Set::<Seq<char>>::empty());
        scope
    }

    /// Whether the scope binds the variable `name`.
    pub fn has_variable(&self, name: &str) -> (b: bool)
        ensures
            b == self@.variables.contains(name@),
    {
        let mut i: usize = 0;
        while i < self.variables.len()
            invariant
                i <= self.variables@.len(),
                forall|k: int| 0 <= k < i ==> texts(self.variables@)[k] != name@,
            decreases self.variables@.len() - i,
        {
            if same_str(self.variables[i].as_str(), name) {
                assert(texts(self.variables@)[i as int] == name@);
                return true;
            }
            i += 1;
        }
        false
    }

    /// Binds the variable `name` in the scope. A reserved word cannot be bound: the
    /// scope stays as it is and the error names the word.
    pub fn bind_variable(&mut self, name: String) -> (r: Result<(), CompilerError>)
        ensures
            spec_is_keyword(name@) ==> final(self)@ == old(self)@ && (r matches Err(e) && e@
                == CompilerErrorView::SyntaxError(SyntaxErrorKind::ReservedWord, name@)),
            !spec_is_keyword(name@) ==> r is Ok && final(self)@ == (ScopeView {
                variables: old(self)@.variables.insert(name@),
                ..old(self)@
            }),
    {
        if is_keyword(name.as_str()) {
            return Err(CompilerError::SyntaxError(SyntaxErrorKind::ReservedWord, name));
        }
        let ghost before = texts(self.variables@);
        self.variables.push(name);
        assert(texts(self.variables@) =~= before.push(name@));
        proof {
            before.lemma_push_to_set_commute(name@);
        }
        Ok(())
    }

    /// Binds the keyword `keyword` to `transformer` in the scope, in place of what it
    /// was bound to there.
    pub fn bind_macro(&mut self, keyword: String, transformer: SyntaxRules)
        ensures
            final(self)@ == (ScopeView {
                macros: old(self)@.macros.insert(keyword@, transformer@),
                ..old(self)@
            }),
    {
        let ghost before = self.macros@;
        self.macros.push(MacroBinding { keyword, transformer });
        proof {
            let after = self.macros@;
            lemma_macro_map_prefix(before, after, before.len() as int);
        }
    }

    /// The transformer that the scope binds the keyword `name` to, if it binds it.
    pub fn find_macro(&self, name: &str) -> (r: Option<&SyntaxRules>)
        ensures
            r is Some == self@.macros.contains_key(name@),
            r matches Some(t) ==> t@ == self@.macros[name@],
    {
        let mut n: usize = self.macros.len();
        while n > 0
            invariant
                n <= self.macros@.len(),
                self@.macros.contains_key(name@) == macro_map(self.macros@, n as int).contains_key(
                    name@,
                ),
                self@.macros.contains_key(name@) ==> self@.macros[name@] == macro_map(
                    self.macros@,
                    n as int,
                )[name@],
            decreases n,
        {
            if same_str(self.macros[n - 1].keyword.as_str(), name) {
                return Some(&self.macros[n - 1].transformer);
            }
            n -= 1;
        }
        None
    }
}

/// The map of a sequence of bindings is that of any sequence that begins with them,
/// as far as they go.
pub proof fn lemma_macro_map_prefix(shorter: Seq<MacroBinding>, longer: Seq<MacroBinding>, n: int)
    requires
        0 <= n <= shorter.len() <= longer.len(),
        forall|k: int| 0 <= k < shorter.len() ==> shorter[k] == longer[k],
    ensures
        macro_map(shorter, n) == macro_map(longer, n),
    decreases n,
{
    if n > 0 {
        lemma_macro_map_prefix(shorter, longer, n - 1);
    }
}

/// The models of the scopes of a chain, one for one.
pub open spec fn scope_views(chain: Seq<&Scope>) -> Seq<ScopeView> {
    Seq::new(chain.len(), |k: int| chain[k]@)
}

/// What a chain of scopes says of a name.
pub enum Resolution {
    /// The innermost scope that binds the name binds it as a variable.
    Variable,
    /// The innermost scope that binds the name binds it to this transformer. The
    /// scope is the one at this index of the chain.
    Macro(SyntaxRulesView, int),
    /// No scope of the chain binds the name.
    Free,
}

/// What the scopes `chain[k..]` say of `name`. A chain holds its innermost scope
/// first: the first scope that binds the name decides, and in one scope a variable
/// goes before a macro.
pub open spec fn spec_resolve_name(chain: Seq<ScopeView>, name: Seq<char>, k: int) -> Resolution
    decreases chain.len() - k,
{
    if k < 0 || k >= chain.len() {
        Resolution::Free
    } else if chain[k].variables.contains(name) {
        Resolution::Variable
    } else if chain[k].macros.contains_key(name) {
        Resolution::Macro(chain[k].macros[name], k)
    } else {
        spec_resolve_name(chain, name, k + 1)
    }
}

/// What `name` is bound to in the chain.
#[derive(Debug)]
pub enum Lookup<'a> {
    /// A variable.
    Variable,
    /// A macro with this transformer, bound by the scope at this index of the chain.
    Macro(&'a SyntaxRules, usize),
    /// Nothing.
    Free,
}

impl<'a> View for Lookup<'a> {
    type V = Resolution;

    open spec fn view(&self) -> Resolution {
        match self {
            Lookup::Variable => Resolution::Variable,
            Lookup::Macro(t, depth) => Resolution::Macro(t@, *depth as int),
            Lookup::Free => Resolution::Free,
        }
    }
}

/// Looks `name` up in the chain of scopes, from the innermost scope, which is the
/// first, outward.
pub fn resolve_name<'a>(chain: &[&'a Scope], name: &str) -> (r: Lookup<'a>)
    ensures
        r@ == spec_resolve_name(scope_views(chain@), name@, 0),
        r matches Lookup::Macro(_, depth) ==> depth < chain@.len(),
{
    let mut k: usize = 0;
    while k < chain.len()
        invariant
            k <= chain@.len(),
            spec_resolve_name(scope_views(chain@), name@, 0) == spec_resolve_name(
                scope_views(chain@),
                name@,
                k as int,
            ),
        decreases chain@.len() - k,
    {
        let scope: &'a Scope = chain[k];
        if scope.has_variable(name) {
            return Lookup::Variable;
        }
        match scope.find_macro(name) {
            Some(t) => {
                return Lookup::Macro(t, k);
            },
            None => {},
        }
        k += 1;
    }
    Lookup::Free
}

// ---------------------------------------------------------------------------------
// Expressions
// ---------------------------------------------------------------------------------

/// A variable.
#[derive(Debug, PartialEq)]
pub struct Variable {
    /// Its name.
    pub name: String,
}

/// A datum that is an expression by itself.
#[derive(Debug, PartialEq)]
pub enum SelfEvaluating {
    /// A boolean.
    Boolean(bool),
    /// A number.
    Number(LispNum),
    /// A character.
    Character(char),
    /// A string.
    String(String),
}

/// The mathematical model of a [`SelfEvaluating`].
pub enum SelfEvaluatingView {
    Boolean(bool),
    Number(NumView),
    Character(char),
    String(Seq<char>),
}

impl View for SelfEvaluating {
    type V = SelfEvaluatingView;

    open spec fn view(&self) -> SelfEvaluatingView {
        match self {
            SelfEvaluating::Boolean(b) => SelfEvaluatingView::Boolean(*b),
            SelfEvaluating::Number(n) => SelfEvaluatingView::Number(n@),
            SelfEvaluating::Character(c) => SelfEvaluatingView::Character(*c),
            SelfEvaluating::String(s) => SelfEvaluatingView::String(s@),
        }
    }
}

/// The formal arguments of a `lambda`.
#[derive(Debug, PartialEq)]
pub enum LambdaArgs {
    /// A fixed number of arguments: `(a b c)`.
    Fixed(Vec<Variable>),
    /// Any number of arguments, taken as a list: `args`.
    Rest(Variable),
    /// At least a fixed number of arguments, the others taken as a list: `(a b . c)`.
    FixedAndRest(Vec<Variable>, Variable),
}

/// The mathematical model of a [`LambdaArgs`]: the names of the arguments.
pub enum LambdaArgsView {
    Fixed(Seq<Seq<char>>),
    Rest(Seq<char>),
    FixedAndRest(Seq<Seq<char>>, Seq<char>),
}

/// The names of a sequence of variables, one for one.
pub open spec fn variable_names(vs: Seq<Variable>) -> Seq<Seq<char>> {
    Seq::new(vs.len(), |k: int| vs[k].name@)
}

impl View for LambdaArgs {
    type V = LambdaArgsView;

    open spec fn view(&self) -> LambdaArgsView {
        match self {
            LambdaArgs::Fixed(vs) => LambdaArgsView::Fixed(variable_names(vs@)),
            LambdaArgs::Rest(v) => LambdaArgsView::Rest(v.name@),
            LambdaArgs::FixedAndRest(vs, v) => LambdaArgsView::FixedAndRest(
                variable_names(vs@),
                v.name@,
            ),
        }
    }
}

/// A definition at the head of a body: a variable and the expression for its value.
#[derive(Debug, PartialEq)]
pub struct Definition {
    /// The variable that is defined.
    pub variable: Variable,
    /// The expression for its value.
    pub expression: Expression,
}

/// The body of a `lambda`: definitions, then commands, then the expression whose value
/// is returned.
#[derive(Debug, PartialEq)]
pub struct LambdaBody {
    /// The definitions, in order.
    pub definitions: Vec<Definition>,
    /// The expressions that are evaluated for their effect, in order.
    pub commands: Vec<Expression>,
    /// The expression whose value is returned.
    pub result: Box<Expression>,
}

/// An expression of the core language.
#[derive(Debug, PartialEq)]
pub enum Expression {
    /// A variable.
    Variable(Variable),
    /// A boolean, number, character or string.
    SelfEvaluating(SelfEvaluating),
    /// A quoted datum.
    Quotation(Datum),
    /// A procedure call: the operator and the operands.
    ProcedureCall(Box<Expression>, Vec<Expression>),
    /// A `lambda`: the formal arguments and the body.
    Lambda(LambdaArgs, LambdaBody),
    /// An `if`: the test, the consequent, and the alternate if there is one.
    Conditional(Box<Expression>, Box<Expression>, Option<Box<Expression>>),
    /// A `set!`: the variable and the expression for its new value.
    Assignment(Variable, Box<Expression>),
    /// A use of a macro that has not been expanded: the keyword and the operands.
    MacroUse(String, Vec<Datum>),
}

/// The mathematical model of a [`Definition`].
pub struct DefinitionView {
    pub variable: Seq<char>,
    pub expression: ExpressionView,
}

/// The mathematical model of a [`LambdaBody`].
pub struct LambdaBodyView {
    pub definitions: Seq<DefinitionView>,
    pub commands: Seq<ExpressionView>,
    pub result: Box<ExpressionView>,
}

/// The mathematical model of an [`Expression`].
pub enum ExpressionView {
    Variable(Seq<char>),
    SelfEvaluating(SelfEvaluatingView),
    Quotation(DatumView),
    ProcedureCall(Box<ExpressionView>, Seq<ExpressionView>),
    Lambda(LambdaArgsView, LambdaBodyView),
    Conditional(Box<ExpressionView>, Box<ExpressionView>, Option<Box<ExpressionView>>),
    Assignment(Seq<char>, Box<ExpressionView>),
    MacroUse(Seq<char>, Seq<DatumView>),
}

impl Definition {
    /// The model of the definition.
    pub open spec fn model(&self) -> DefinitionView
        decreases self,
    {
        DefinitionView { variable: self.variable.name@, expression: self.expression.model() }
    }
}

impl LambdaBody {
    /// The model of the body.
    pub open spec fn model(&self) -> LambdaBodyView
        decreases self,
    {
        LambdaBodyView {
            definitions: Seq::new(
                self.definitions@.len(),
                |k: int|
                    if 0 <= k < self.definitions@.len() {
                        self.definitions@[k].model()
                    } else {
                        DefinitionView {
                            variable: Seq::empty(),
                            expression: ExpressionView::Variable(Seq::empty()),
                        }
                    },
            ),
            commands: Seq::new(
                self.commands@.len(),
                |k: int|
                    if 0 <= k < self.commands@.len() {
                        self.commands@[k].model()
                    } else {
                        ExpressionView::Variable(Seq::empty())
                    },
            ),
            result: Box::new(self.result.model()),
        }
    }
}

impl Expression {
    /// The model of the expression.
    pub open spec fn model(&self) -> ExpressionView
        decreases self,
    {
        match self {
            Expression::Variable(v) => ExpressionView::Variable(v.name@),
            Expression::SelfEvaluating(a) => ExpressionView::SelfEvaluating(a@),
            Expression::Quotation(d) => ExpressionView::Quotation(d@),
            Expression::ProcedureCall(operator, operands) => ExpressionView::ProcedureCall(
                Box::new(operator.model()),
                Seq::new(
                    operands@.len(),
                    |k: int|
                        if 0 <= k < operands@.len() {
                            operands@[k].model()
                        } else {
                            ExpressionView::Variable(Seq::empty())
                        },
                ),
            ),
            Expression::Lambda(args, body) => ExpressionView::Lambda(args@, body.model()),
            Expression::Conditional(test, consequent, alternate) => ExpressionView::Conditional(
                Box::new(test.model()),
                Box::new(consequent.model()),
                match alternate {
                    Some(e) => Some(Box::new(e.model())),
                    None => None,
                },
            ),
            Expression::Assignment(v, e) => ExpressionView::Assignment(
                v.name@,
                Box::new(e.model()),
            ),
            Expression::MacroUse(keyword, operands) => ExpressionView::MacroUse(
                keyword@,
                datum_views(operands@),
            ),
        }
    }
}

impl View for Definition {
    type V = DefinitionView;

    open spec fn view(&self) -> DefinitionView {
        self.model()
    }
}

impl View for LambdaBody {
    type V = LambdaBodyView;

    open spec fn view(&self) -> LambdaBodyView {
        self.model()
    }
}

impl View for Expression {
    type V = ExpressionView;

    open spec fn view(&self) -> ExpressionView {
        self.model()
    }
}

/// The models of a sequence of expressions, one for one.
pub open spec fn expression_views(es: Seq<Expression>) -> Seq<ExpressionView> {
    Seq::new(es.len(), |k: int| es[k]@)
}

/// The models of a sequence of definitions, one for one.
pub open spec fn definition_views(ds: Seq<Definition>) -> Seq<DefinitionView> {
    Seq::new(ds.len(), |k: int| ds[k]@)
}

/// The model of an expression with parts, over the models of the parts.
pub proof fn lemma_expression_view(e: Expression)
    ensures
        e matches Expression::ProcedureCall(operator, operands) ==> e@
            == ExpressionView::ProcedureCall(Box::new(operator@), expression_views(operands@)),
        e matches Expression::Lambda(args, body) ==> e@ == ExpressionView::Lambda(
            args@,
            LambdaBodyView {
                definitions: definition_views(body.definitions@),
                commands: expression_views(body.commands@),
                result: Box::new(body.result@),
            },
        ),
{
    match e {
        Expression::ProcedureCall(operator, operands) => {
            assert(e@->ProcedureCall_1 =~= expression_views(operands@));
        },
        Expression::Lambda(args, body) => {
            assert(body.model().definitions =~= definition_views(body.definitions@));
            assert(body.model().commands =~= expression_views(body.commands@));
        },
        _ => {},
    }
}

// ---------------------------------------------------------------------------------
// What a datum is as an expression
// ---------------------------------------------------------------------------------

/// An expression or an error, and the number that the next expansion of a macro takes.
pub struct Resolved {
    pub result: Result<ExpressionView, CompilerErrorView>,
    pub counter: usize,
}

/// Expressions or an error, and the number that the next expansion of a macro takes.
pub struct ResolvedAll {
    pub result: Result<Seq<ExpressionView>, CompilerErrorView>,
    pub counter: usize,
}

/// The error for a form that breaks the rule `kind`, where no name is concerned.
pub open spec fn malformed(kind: SyntaxErrorKind) -> CompilerErrorView {
    CompilerErrorView::SyntaxError(kind, Seq::empty())
}

/// The error for the reserved word `name` where a variable is wanted.
pub open spec fn reserved(name: Seq<char>) -> CompilerErrorView {
    CompilerErrorView::SyntaxError(SyntaxErrorKind::ReservedWord, name)
}

/// The part of a form of a body that is read as an expression.
#[derive(Debug, PartialEq, Eq, Clone, Copy, Structural)]
pub enum Part {
    /// The form itself.
    Whole,
    /// The value of the form as a definition.
    Value,
}

/// Whether `d` is a form with the head `define`.
pub open spec fn is_definition(d: DatumView) -> bool {
    d matches DatumView::List(xs) && xs.len() >= 1 && xs[0] == DatumView::Identifier("define"@)
}

/// The index of the first of the forms `items[k..]` that is no definition.
pub open spec fn definitions_end(items: Seq<DatumView>, k: int) -> int
    decreases items.len() - k,
{
    if 0 <= k < items.len() && is_definition(items[k]) {
        definitions_end(items, k + 1)
    } else {
        k
    }
}

/// The definitions at the head of `items[k..]` end at an index from `k` on.
pub proof fn lemma_definitions_end(items: Seq<DatumView>, k: int)
    requires
        0 <= k <= items.len(),
    ensures
        k <= definitions_end(items, k) <= items.len(),
        forall|j: int| k <= j < definitions_end(items, k) ==> is_definition(#[trigger] items[j]),
        definitions_end(items, k) < items.len() ==> !is_definition(
            items[definitions_end(items, k)],
        ),
    decreases items.len() - k,
{
    if k < items.len() && is_definition(items[k]) {
        lemma_definitions_end(items, k + 1);
    }
}

/// Whether one of the forms `items[k..]` is a definition.
pub open spec fn has_definition(items: Seq<DatumView>, k: int) -> bool
    decreases items.len() - k,
{
    if 0 <= k < items.len() {
        is_definition(items[k]) || has_definition(items, k + 1)
    } else {
        false
    }
}

/// The names of the identifiers `ds[k..]`, which become variables: an error of the
/// kind `kind` where one of them is no identifier, and the error for a reserved word
/// where one of them is one.
pub open spec fn spec_names(ds: Seq<DatumView>, k: int, kind: SyntaxErrorKind) -> Result<
    Seq<Seq<char>>,
    CompilerErrorView,
>
    decreases ds.len() - k,
{
    if 0 <= k < ds.len() {
        match ds[k] {
            DatumView::Identifier(name) => if spec_is_keyword(name) {
                Err(reserved(name))
            } else {
                match spec_names(ds, k + 1, kind) {
                    Ok(names) => Ok(seq![name] + names),
                    Err(e) => Err(e),
                }
            },
            _ => Err(malformed(kind)),
        }
    } else {
        Ok(Seq::empty())
    }
}

/// The formal arguments that the datum `d` writes: one identifier, a list of
/// identifiers, or a dotted list of identifiers.
pub open spec fn spec_formals(d: DatumView) -> Result<LambdaArgsView, CompilerErrorView> {
    match d {
        DatumView::Identifier(name) => if spec_is_keyword(name) {
            Err(reserved(name))
        } else {
            Ok(LambdaArgsView::Rest(name))
        },
        DatumView::List(ds) => match spec_names(ds, 0, SyntaxErrorKind::MalformedLambda) {
            Ok(names) => Ok(LambdaArgsView::Fixed(names)),
            Err(e) => Err(e),
        },
        DatumView::DottedPair(ds, tail) => match spec_names(
            ds,
            0,
            SyntaxErrorKind::MalformedLambda,
        ) {
            Ok(names) => match *tail {
                DatumView::Identifier(name) => if spec_is_keyword(name) {
                    Err(reserved(name))
                } else {
                    Ok(LambdaArgsView::FixedAndRest(names, name))
                },
                _ => Err(malformed(SyntaxErrorKind::MalformedLambda)),
            },
            Err(e) => Err(e),
        },
        _ => Err(malformed(SyntaxErrorKind::MalformedLambda)),
    }
}

/// The names of the formal arguments `args`.
pub open spec fn formal_names(args: LambdaArgsView) -> Seq<Seq<char>> {
    match args {
        LambdaArgsView::Fixed(names) => names,
        LambdaArgsView::Rest(name) => seq![name],
        LambdaArgsView::FixedAndRest(names, name) => names.push(name),
    }
}

/// What the datum `d` says at the head of a definition: the name that is defined,
/// and, where the definition is that of a procedure, its formal arguments.
/// `(define name expression)` has the name alone at its head, and
/// `(define (name formal ...) body ...)`, dotted or not, the name before the formals.
pub open spec fn spec_definition_head(d: DatumView) -> Option<(Seq<char>, Option<DatumView>)> {
    match d {
        DatumView::Identifier(name) => Some((name, None)),
        DatumView::List(hs) => if hs.len() >= 1 && hs[0] is Identifier {
            Some((hs[0]->Identifier_0, Some(rest_of_list(hs, None, 1))))
        } else {
            None
        },
        DatumView::DottedPair(hs, tail) => if hs.len() >= 1 && hs[0] is Identifier {
            Some((hs[0]->Identifier_0, Some(rest_of_list(hs, Some(*tail), 1))))
        } else {
            None
        },
        _ => None,
    }
}

/// What the form `d` says as a definition: the name and the formals of its head.
/// A definition is a list of `define`, a head and a body of at least one form, and of
/// exactly one where it is no definition of a procedure.
pub open spec fn spec_definition(d: DatumView) -> Option<(Seq<char>, Option<DatumView>)> {
    match d {
        DatumView::List(xs) => if xs.len() >= 3 {
            match spec_definition_head(xs[1]) {
                Some((name, None)) => if xs.len() == 3 {
                    Some((name, None))
                } else {
                    None
                },
                Some((name, Some(formals))) => Some((name, Some(formals))),
                None => None,
            }
        } else {
            None
        },
        _ => None,
    }
}

/// The names that the definitions `items[k..end]` define: an error where one of them
/// is no well-formed definition or defines a reserved word.
pub open spec fn spec_defined_names(items: Seq<DatumView>, k: int, end: int) -> Result<
    Seq<Seq<char>>,
    CompilerErrorView,
>
    decreases end - k,
{
    if 0 <= k < end <= items.len() {
        match spec_definition(items[k]) {
            Some((name, _)) => if spec_is_keyword(name) {
                Err(reserved(name))
            } else {
                match spec_defined_names(items, k + 1, end) {
                    Ok(names) => Ok(seq![name] + names),
                    Err(e) => Err(e),
                }
            },
            None => Err(malformed(SyntaxErrorKind::MalformedBody)),
        }
    } else {
        Ok(Seq::empty())
    }
}

/// The definitions of the names `names` with the values `values`, one for one.
pub open spec fn definitions_of(names: Seq<Seq<char>>, values: Seq<ExpressionView>) -> Seq<
    DefinitionView,
> {
    Seq::new(
        names.len(),
        |k: int| DefinitionView { variable: names[k], expression: values[k] },
    )
}

/// The scope of a body: what the form around the body binds, which is `base`, and
/// the variables `names` that the definitions of the body define.
pub open spec fn body_scope(base: ScopeView, names: Seq<Seq<char>>) -> ScopeView {
    ScopeView { variables: base.variables + names.to_set(), macros: base.macros }
}

/// The scope of the formal arguments `args`.
pub open spec fn formals_scope(args: LambdaArgsView) -> ScopeView {
    ScopeView { variables: formal_names(args).to_set(), macros: Map::empty() }
}

/// A body or an error, and the number that the next expansion of a macro takes.
pub struct ResolvedBody {
    pub result: Result<LambdaBodyView, CompilerErrorView>,
    pub counter: usize,
}

/// The error for a list of bindings of `let-syntax` that is none.
pub open spec fn bad_syntax_binding() -> CompilerErrorView {
    malformed(SyntaxErrorKind::MalformedSyntaxBinding)
}

/// The keywords that the bindings `bs[k..]` bind, each a list of a keyword and a
/// transformer, added to `macros`: a later binding of a keyword replaces an earlier.
pub open spec fn spec_syntax_bindings(
    bs: Seq<DatumView>,
    k: int,
    macros: Map<Seq<char>, SyntaxRulesView>,
) -> Result<Map<Seq<char>, SyntaxRulesView>, CompilerErrorView>
    decreases bs.len() - k,
{
    if 0 <= k < bs.len() {
        match bs[k] {
            DatumView::List(xs) => if xs.len() == 2 && xs[0] is Identifier {
                match spec_syntax_rules(xs[1]) {
                    Some(transformer) => spec_syntax_bindings(
                        bs,
                        k + 1,
                        macros.insert(xs[0]->Identifier_0, transformer),
                    ),
                    None => Err(malformed(SyntaxErrorKind::MalformedSyntaxRules)),
                }
            } else {
                Err(bad_syntax_binding())
            },
            _ => Err(bad_syntax_binding()),
        }
    } else {
        Ok(macros)
    }
}

/// The datum `d` as an expression in the chain of scopes `chain`.
///
/// An identifier is a variable, unless it is a reserved word. A boolean, number,
/// character or string is itself. `'d` is the quotation of `d`. A list is a form. No
/// other datum is an expression.
///
/// Uses of macros are expanded while there is `fuel`; each expansion takes one unit of
/// it for what it writes, and takes `counter` as its number and leaves the next.
pub open spec fn spec_resolve(d: DatumView, chain: Seq<ScopeView>, fuel: nat, counter: usize) -> Resolved
    decreases fuel, d, 0int,
{
    match d {
        DatumView::Identifier(name) => Resolved {
            result: if spec_is_keyword(name) {
                Err(reserved(name))
            } else {
                Ok(ExpressionView::Variable(name))
            },
            counter,
        },
        DatumView::Boolean(b) => Resolved {
            result: Ok(ExpressionView::SelfEvaluating(SelfEvaluatingView::Boolean(b))),
            counter,
        },
        DatumView::Number(n) => Resolved {
            result: Ok(ExpressionView::SelfEvaluating(SelfEvaluatingView::Number(n))),
            counter,
        },
        DatumView::Character(c) => Resolved {
            result: Ok(ExpressionView::SelfEvaluating(SelfEvaluatingView::Character(c))),
            counter,
        },
        DatumView::String(s) => Resolved {
            result: Ok(ExpressionView::SelfEvaluating(SelfEvaluatingView::String(s))),
            counter,
        },
        DatumView::Quote(inner) => Resolved {
            result: Ok(ExpressionView::Quotation(*inner)),
            counter,
        },
        DatumView::List(items) => spec_resolve_form(items, chain, fuel, counter),
        _ => Resolved { result: Err(malformed(SyntaxErrorKind::NotAnExpression)), counter },
    }
}

/// The form with the elements `items` as an expression.
///
/// `quote`, `set!`, `if`, `lambda`, `let-syntax` and `letrec-syntax` at the head make
/// the special forms, and any other reserved word makes no expression. A head that the chain binds to a macro
/// makes a use of the macro. Any other form is a procedure call, whose operator and
/// operands are read from left to right.
pub open spec fn spec_resolve_form(
    items: Seq<DatumView>,
    chain: Seq<ScopeView>,
    fuel: nat,
    counter: usize,
) -> Resolved
    decreases fuel, items, items.len() + 4,
{
    if items.len() == 0 {
        Resolved { result: Err(malformed(SyntaxErrorKind::NotAnExpression)), counter }
    } else {
        match items[0] {
            DatumView::Identifier(head) => if head == "quote"@ {
                Resolved {
                    result: if items.len() == 2 {
                        Ok(ExpressionView::Quotation(items[1]))
                    } else {
                        Err(malformed(SyntaxErrorKind::MalformedQuote))
                    },
                    counter,
                }
            } else if head == "set!"@ {
                spec_resolve_assignment(items, chain, fuel, counter)
            } else if head == "if"@ {
                spec_resolve_conditional(items, chain, fuel, counter)
            } else if head == "lambda"@ {
                spec_resolve_lambda(items, chain, fuel, counter)
            } else if head == "let-syntax"@ || head == "letrec-syntax"@ {
                spec_resolve_let_syntax(items, chain, fuel, counter)
            } else if spec_is_keyword(head) {
                Resolved {
                    result: Err(
                        CompilerErrorView::SyntaxError(SyntaxErrorKind::NotAnExpression, head),
                    ),
                    counter,
                }
            } else {
                match spec_resolve_name(chain, head, 0) {
                    Resolution::Macro(transformer, depth) => spec_resolve_use(
                        head,
                        transformer,
                        depth,
                        items,
                        chain,
                        fuel,
                        counter,
                    ),
                    _ => spec_resolve_call(items, chain, fuel, counter),
                }
            },
            _ => spec_resolve_call(items, chain, fuel, counter),
        }
    }
}

/// The form `(set! variable expression)` as an assignment.
pub open spec fn spec_resolve_assignment(
    items: Seq<DatumView>,
    chain: Seq<ScopeView>,
    fuel: nat,
    counter: usize,
) -> Resolved
    decreases fuel, items, items.len() + 2,
{
    if items.len() == 3 && items[1] is Identifier {
        let value = spec_resolve(items[2], chain, fuel, counter);
        match value.result {
            Ok(e) => Resolved {
                result: Ok(ExpressionView::Assignment(items[1]->Identifier_0, Box::new(e))),
                counter: value.counter,
            },
            Err(_) => value,
        }
    } else {
        Resolved { result: Err(malformed(SyntaxErrorKind::MalformedAssignment)), counter }
    }
}

/// The form `(if test consequent)` or `(if test consequent alternate)` as a
/// conditional.
pub open spec fn spec_resolve_conditional(
    items: Seq<DatumView>,
    chain: Seq<ScopeView>,
    fuel: nat,
    counter: usize,
) -> Resolved
    decreases fuel, items, items.len() + 2,
{
    if items.len() == 3 || items.len() == 4 {
        let parts = spec_resolve_from(
            items,
            1,
            items.len() as int,
            Part::Whole,
            chain,
            fuel,
            counter,
        );
        match parts.result {
            Ok(es) => Resolved {
                result: Ok(
                    ExpressionView::Conditional(
                        Box::new(es[0]),
                        Box::new(es[1]),
                        if items.len() == 4 {
                            Some(Box::new(es[2]))
                        } else {
                            None
                        },
                    ),
                ),
                counter: parts.counter,
            },
            Err(e) => Resolved { result: Err(e), counter: parts.counter },
        }
    } else {
        Resolved { result: Err(malformed(SyntaxErrorKind::MalformedConditional)), counter }
    }
}

/// The form with the elements `items` as a procedure call.
pub open spec fn spec_resolve_call(
    items: Seq<DatumView>,
    chain: Seq<ScopeView>,
    fuel: nat,
    counter: usize,
) -> Resolved
    decreases fuel, items, items.len() + 2,
{
    let parts = spec_resolve_from(items, 0, items.len() as int, Part::Whole, chain, fuel, counter);
    match parts.result {
        Ok(es) => Resolved {
            result: Ok(
                ExpressionView::ProcedureCall(
                    Box::new(es[0]),
                    es.subrange(1, es.len() as int),
                ),
            ),
            counter: parts.counter,
        },
        Err(e) => Resolved { result: Err(e), counter: parts.counter },
    }
}

/// Whether one of the scopes `chain[k..to]` binds `name`, as a variable or as a
/// macro.
pub open spec fn spec_bound_within(chain: Seq<ScopeView>, name: Seq<char>, k: int, to: int) -> bool
    decreases to - k,
{
    if 0 <= k < to <= chain.len() {
        chain[k].variables.contains(name) || chain[k].macros.contains_key(name)
            || spec_bound_within(chain, name, k + 1, to)
    } else {
        false
    }
}

/// Whether the template writes the identifier `name` as it stands, for the scopes to
/// give it its meaning: it is no variable of the pattern, the template does not bind
/// it, and it is no reserved word.
pub open spec fn is_free_in_template(
    name: Seq<char>,
    env: Seq<BoundView>,
    binders: Seq<Seq<char>>,
) -> bool {
    spec_lookup(env, name, 0) is None && !binders.contains(name) && !spec_is_keyword(name)
}

/// The first of the identifiers `names[k..]` that the template writes as it stands
/// and that one of the scopes `chain[..to]` binds, if there is one.
pub open spec fn spec_captured(
    names: Seq<Seq<char>>,
    k: int,
    env: Seq<BoundView>,
    binders: Seq<Seq<char>>,
    chain: Seq<ScopeView>,
    to: int,
) -> Option<Seq<char>>
    decreases names.len() - k,
{
    if 0 <= k < names.len() {
        if is_free_in_template(names[k], env, binders) && spec_bound_within(
            chain,
            names[k],
            0,
            to,
        ) {
            Some(names[k])
        } else {
            spec_captured(names, k + 1, env, binders, chain, to)
        }
    } else {
        None
    }
}

/// The use of the macro `keyword`, which the scope at the index `depth` of the chain
/// binds to `transformer`.
///
/// Without fuel, or where the numbers for expansions have run out, the use stays as
/// it is. Else the first rule that matches the use is taken. Its template has to write
/// no identifier as it stands that a scope inside the scope of the macro binds: the
/// identifier would mean there what it does not mean where the macro was bound. The
/// template is written out under the number `counter`, and what it writes is read as
/// an expression with one unit of fuel less.
pub open spec fn spec_resolve_use(
    keyword: Seq<char>,
    transformer: SyntaxRulesView,
    depth: int,
    items: Seq<DatumView>,
    chain: Seq<ScopeView>,
    fuel: nat,
    counter: usize,
) -> Resolved
    decreases fuel, items, items.len() + 2,
{
    let args = items.subrange(1, items.len() as int);
    if fuel == 0 || counter == usize::MAX {
        Resolved { result: Ok(ExpressionView::MacroUse(keyword, args)), counter }
    } else {
        match spec_select_rule(transformer, args, 0) {
            None => Resolved {
                result: Err(
                    CompilerErrorView::SyntaxError(SyntaxErrorKind::NoMatchingRule, keyword),
                ),
                counter,
            },
            Some(selected) => {
                let template = transformer.rules[selected.index].template;
                let binders = spec_binders(template);
                match spec_captured(
                    spec_identifiers(template),
                    0,
                    selected.env,
                    binders,
                    chain,
                    depth,
                ) {
                    Some(name) => Resolved {
                        result: Err(
                            CompilerErrorView::SyntaxError(
                                SyntaxErrorKind::CapturedIdentifier,
                                name,
                            ),
                        ),
                        counter,
                    },
                    None => match expansion_result(
                        spec_write(template, selected.env, counter as nat),
                        keyword,
                    ) {
                        Err(e) => Resolved { result: Err(e), counter },
                        Ok(d) => spec_resolve(d, chain, (fuel - 1) as nat, (counter + 1) as usize),
                    },
                }
            },
        }
    }
}

/// Hygiene of free names: an identifier that none of the scopes `chain[k..to]` binds
/// means from the scope `k` on what it means from the scope `to` on. So what a
/// template writes as it stands means, where the macro is used, what it means where
/// the macro was bound.
pub proof fn law_unbound_names_keep_their_meaning(
    chain: Seq<ScopeView>,
    name: Seq<char>,
    k: int,
    to: int,
)
    requires
        0 <= k <= to <= chain.len(),
        !spec_bound_within(chain, name, k, to),
    ensures
        spec_resolve_name(chain, name, k) == spec_resolve_name(chain, name, to),
    decreases to - k,
{
    if k < to {
        law_unbound_names_keep_their_meaning(chain, name, k + 1, to);
    }
}

/// Where none of the identifiers `names[k..]` is found by `spec_captured`, each of
/// them that the template writes as it stands is bound by none of the scopes
/// `chain[..to]`.
proof fn lemma_not_captured(
    names: Seq<Seq<char>>,
    k: int,
    env: Seq<BoundView>,
    binders: Seq<Seq<char>>,
    chain: Seq<ScopeView>,
    to: int,
    j: int,
)
    requires
        0 <= k <= j < names.len(),
        spec_captured(names, k, env, binders, chain, to) is None,
        is_free_in_template(names[j], env, binders),
    ensures
        !spec_bound_within(chain, names[j], 0, to),
    decreases names.len() - k,
{
    if k < j {
        lemma_not_captured(names, k + 1, env, binders, chain, to, j);
    }
}

/// Hygiene of free names, for the use of a macro: an expansion is made only where
/// each identifier that the template writes as it stands means, where the macro is
/// used, what it means where the macro was bound. Where one of them means something
/// else there, because a scope between the two binds it, the use has no expression in
/// which the identifier could keep its meaning, for an expression names a variable by
/// its name alone; the use is then refused as a capture.
pub proof fn law_expansions_keep_the_meaning_of_free_names(
    keyword: Seq<char>,
    transformer: SyntaxRulesView,
    depth: int,
    items: Seq<DatumView>,
    chain: Seq<ScopeView>,
    fuel: nat,
    counter: usize,
    j: int,
)
    requires
        0 <= depth <= chain.len(),
        fuel > 0,
        counter < usize::MAX,
        spec_select_rule(transformer, items.subrange(1, items.len() as int), 0) is Some,
        ({
            let selected = spec_select_rule(
                transformer,
                items.subrange(1, items.len() as int),
                0,
            )->Some_0;
            let template = transformer.rules[selected.index].template;
            &&& 0 <= j < spec_identifiers(template).len()
            &&& is_free_in_template(
                spec_identifiers(template)[j],
                selected.env,
                spec_binders(template),
            )
        }),
    ensures
        ({
            let selected = spec_select_rule(
                transformer,
                items.subrange(1, items.len() as int),
                0,
            )->Some_0;
            let name = spec_identifiers(transformer.rules[selected.index].template)[j];
            let made = spec_resolve_use(keyword, transformer, depth, items, chain, fuel, counter);
            ||| spec_resolve_name(chain, name, 0) == spec_resolve_name(chain, name, depth)
            ||| made.result matches Err(
                CompilerErrorView::SyntaxError(SyntaxErrorKind::CapturedIdentifier, _),
            ) && made.counter == counter
        }),
{
    let selected = spec_select_rule(transformer, items.subrange(1, items.len() as int), 0)->Some_0;
    let template = transformer.rules[selected.index].template;
    let names = spec_identifiers(template);
    let binders = spec_binders(template);
    if spec_captured(names, 0, selected.env, binders, chain, depth) is None {
        lemma_not_captured(names, 0, selected.env, binders, chain, depth, j);
        law_unbound_names_keep_their_meaning(chain, names[j], 0, depth);
    }
}

/// The form `(lambda formals body ...)` as a `lambda`.
pub open spec fn spec_resolve_lambda(
    items: Seq<DatumView>,
    chain: Seq<ScopeView>,
    fuel: nat,
    counter: usize,
) -> Resolved
    decreases fuel, items, items.len() + 3,
{
    if items.len() < 3 {
        Resolved { result: Err(malformed(SyntaxErrorKind::MalformedLambda)), counter }
    } else {
        spec_resolve_procedure(items, items[1], chain, fuel, counter)
    }
}

/// The `lambda` with the formal arguments that `formals` writes and the body
/// `items[2..]`, which is read in a new scope, the innermost, which binds the formal
/// arguments.
pub open spec fn spec_resolve_procedure(
    items: Seq<DatumView>,
    formals: DatumView,
    chain: Seq<ScopeView>,
    fuel: nat,
    counter: usize,
) -> Resolved
    decreases fuel, items, items.len() + 2,
{
    match spec_formals(formals) {
        Err(e) => Resolved { result: Err(e), counter },
        Ok(args) => {
            let body = spec_resolve_body(items, formals_scope(args), chain, fuel, counter);
            match body.result {
                Ok(b) => Resolved {
                    result: Ok(ExpressionView::Lambda(args, b)),
                    counter: body.counter,
                },
                Err(e) => Resolved { result: Err(e), counter: body.counter },
            }
        },
    }
}

/// The form `(let-syntax (binding ...) body ...)`, or the same with `letrec-syntax`,
/// as the call of a `lambda` without arguments, whose body is read in a new scope,
/// the innermost, which binds the keywords of the bindings to their transformers.
pub open spec fn spec_resolve_let_syntax(
    items: Seq<DatumView>,
    chain: Seq<ScopeView>,
    fuel: nat,
    counter: usize,
) -> Resolved
    decreases fuel, items, items.len() + 2,
{
    if items.len() < 3 || !(items[1] is List) {
        Resolved { result: Err(bad_syntax_binding()), counter }
    } else {
        match spec_syntax_bindings(items[1]->List_0, 0, Map::empty()) {
            Err(e) => Resolved { result: Err(e), counter },
            Ok(macros) => {
                let body = spec_resolve_body(
                    items,
                    ScopeView { variables: Set::empty(), macros },
                    chain,
                    fuel,
                    counter,
                );
                match body.result {
                    Ok(b) => Resolved {
                        result: Ok(
                            ExpressionView::ProcedureCall(
                                Box::new(
                                    ExpressionView::Lambda(
                                        LambdaArgsView::Fixed(Seq::empty()),
                                        b,
                                    ),
                                ),
                                Seq::empty(),
                            ),
                        ),
                        counter: body.counter,
                    },
                    Err(e) => Resolved { result: Err(e), counter: body.counter },
                }
            },
        }
    }
}

/// The forms `items[2..]` as a body, in a new scope, the innermost, which binds what
/// `base` binds and the names that the definitions at the head of the body define.
/// Behind the definitions at least one expression has to follow, and no further
/// definition.
pub open spec fn spec_resolve_body(
    items: Seq<DatumView>,
    base: ScopeView,
    chain: Seq<ScopeView>,
    fuel: nat,
    counter: usize,
) -> ResolvedBody
    decreases fuel, items, items.len() + 1,
{
    if items.len() < 3 {
        ResolvedBody { result: Err(malformed(SyntaxErrorKind::MalformedBody)), counter }
    } else {
        let end = definitions_end(items, 2);
        proof {
            lemma_definitions_end(items, 2);
        }
        if end >= items.len() || has_definition(items, end) {
            ResolvedBody { result: Err(malformed(SyntaxErrorKind::MalformedBody)), counter }
        } else {
            match spec_defined_names(items, 2, end) {
                Err(e) => ResolvedBody { result: Err(e), counter },
                Ok(names) => {
                    let inner = seq![body_scope(base, names)] + chain;
                    let values = spec_resolve_from(
                        items,
                        2,
                        end,
                        Part::Value,
                        inner,
                        fuel,
                        counter,
                    );
                    match values.result {
                        Err(e) => ResolvedBody { result: Err(e), counter: values.counter },
                        Ok(vs) => {
                            let rest = spec_resolve_from(
                                items,
                                end,
                                items.len() as int,
                                Part::Whole,
                                inner,
                                fuel,
                                values.counter,
                            );
                            match rest.result {
                                Err(e) => ResolvedBody { result: Err(e), counter: rest.counter },
                                Ok(es) => ResolvedBody {
                                    result: Ok(
                                        LambdaBodyView {
                                            definitions: definitions_of(names, vs),
                                            commands: es.drop_last(),
                                            result: Box::new(es.last()),
                                        },
                                    ),
                                    counter: rest.counter,
                                },
                            }
                        },
                    }
                },
            }
        }
    }
}

/// The value of the definition `d` as an expression: the expression of the
/// definition, or, for the definition of a procedure, the `lambda` with its formals
/// and its body.
pub open spec fn spec_resolve_value(d: DatumView, chain: Seq<ScopeView>, fuel: nat, counter: usize) -> Resolved
    decreases fuel, d, 0int,
{
    match d {
        DatumView::List(xs) => match spec_definition(d) {
            Some((_, None)) => spec_resolve(xs[2], chain, fuel, counter),
            Some((_, Some(formals))) => spec_resolve_procedure(xs, formals, chain, fuel, counter),
            None => Resolved { result: Err(malformed(SyntaxErrorKind::MalformedBody)), counter },
        },
        _ => Resolved { result: Err(malformed(SyntaxErrorKind::MalformedBody)), counter },
    }
}

/// The parts `part` of the forms `items[k..end]` as expressions, read from left to
/// right up to the first error.
pub open spec fn spec_resolve_from(
    items: Seq<DatumView>,
    k: int,
    end: int,
    part: Part,
    chain: Seq<ScopeView>,
    fuel: nat,
    counter: usize,
) -> ResolvedAll
    decreases fuel, items, end - k,
{
    if 0 <= k < end <= items.len() {
        let first = match part {
            Part::Whole => spec_resolve(items[k], chain, fuel, counter),
            Part::Value => spec_resolve_value(items[k], chain, fuel, counter),
        };
        match first.result {
            Err(e) => ResolvedAll { result: Err(e), counter: first.counter },
            Ok(e) => {
                let others = spec_resolve_from(items, k + 1, end, part, chain, fuel, first.counter);
                match others.result {
                    Err(x) => others,
                    Ok(es) => ResolvedAll { result: Ok(seq![e] + es), counter: others.counter },
                }
            },
        }
    } else {
        ResolvedAll { result: Ok(Seq::empty()), counter }
    }
}

// ---------------------------------------------------------------------------------
// The numbers of expansions
// ---------------------------------------------------------------------------------

/// The counter never falls: the number that is left for the next expansion is not
/// below the one that was given. With it every expansion takes a number that none
/// before it took.
pub proof fn law_counter_never_falls(d: DatumView, chain: Seq<ScopeView>, fuel: nat, counter: usize)
    ensures
        spec_resolve(d, chain, fuel, counter).counter >= counter,
    decreases fuel, d, 0int,
{
    match d {
        DatumView::List(items) => {
            lemma_form_counter(items, chain, fuel, counter);
        },
        _ => {},
    }
}

/// Each expansion takes a number of its own: a use of a macro that is expanded under
/// the number `counter` leaves a greater number, and what it writes, and whatever is
/// read behind it, is expanded under numbers above `counter`. So two expansions write
/// the identifiers that their templates bind under different fresh names.
pub proof fn law_expansions_take_numbers_of_their_own(
    keyword: Seq<char>,
    transformer: SyntaxRulesView,
    depth: int,
    items: Seq<DatumView>,
    chain: Seq<ScopeView>,
    fuel: nat,
    counter: usize,
)
    requires
        fuel > 0,
        counter < usize::MAX,
        spec_select_rule(transformer, items.subrange(1, items.len() as int), 0) is Some,
        ({
            let selected = spec_select_rule(
                transformer,
                items.subrange(1, items.len() as int),
                0,
            )->Some_0;
            let template = transformer.rules[selected.index].template;
            &&& spec_captured(
                spec_identifiers(template),
                0,
                selected.env,
                spec_binders(template),
                chain,
                depth,
            ) is None
            &&& expansion_result(spec_write(template, selected.env, counter as nat), keyword) is Ok
        }),
    ensures
        ({
            let selected = spec_select_rule(
                transformer,
                items.subrange(1, items.len() as int),
                0,
            )->Some_0;
            let written = expansion_result(
                spec_write(transformer.rules[selected.index].template, selected.env, counter as nat),
                keyword,
            )->Ok_0;
            &&& spec_resolve_use(keyword, transformer, depth, items, chain, fuel, counter)
                == spec_resolve(written, chain, (fuel - 1) as nat, (counter + 1) as usize)
            &&& spec_resolve_use(keyword, transformer, depth, items, chain, fuel, counter).counter
                > counter
        }),
{
    let selected = spec_select_rule(transformer, items.subrange(1, items.len() as int), 0)->Some_0;
    let written = expansion_result(
        spec_write(transformer.rules[selected.index].template, selected.env, counter as nat),
        keyword,
    )->Ok_0;
    law_counter_never_falls(written, chain, (fuel - 1) as nat, (counter + 1) as usize);
}

/// The counter does not fall over a form.
pub proof fn lemma_form_counter(items: Seq<DatumView>, chain: Seq<ScopeView>, fuel: nat, counter: usize)
    ensures
        spec_resolve_form(items, chain, fuel, counter).counter >= counter,
    decreases fuel, items, items.len() + 4,
{
    if items.len() > 0 {
        let len = items.len() as int;
        match items[0] {
            DatumView::Identifier(head) => {
                if head == "quote"@ {
                } else if head == "set!"@ {
                    if items.len() == 3 && items[1] is Identifier {
                        law_counter_never_falls(items[2], chain, fuel, counter);
                    }
                    assert(spec_resolve_assignment(items, chain, fuel, counter).counter
                        >= counter);
                } else if head == "if"@ {
                    lemma_from_counter(items, 1, len, Part::Whole, chain, fuel, counter);
                    assert(spec_resolve_conditional(items, chain, fuel, counter).counter
                        >= counter);
                } else if head == "lambda"@ {
                    if items.len() >= 3 {
                        lemma_procedure_counter(items, items[1], chain, fuel, counter);
                    }
                    assert(spec_resolve_lambda(items, chain, fuel, counter).counter >= counter);
                } else if head == "let-syntax"@ || head == "letrec-syntax"@ {
                    if items.len() >= 3 && items[1] is List {
                        let macros = spec_syntax_bindings(items[1]->List_0, 0, Map::empty());
                        if macros is Ok {
                            lemma_body_counter(
                                items,
                                ScopeView { variables: Set::empty(), macros: macros->Ok_0 },
                                chain,
                                fuel,
                                counter,
                            );
                        }
                    }
                    assert(spec_resolve_let_syntax(items, chain, fuel, counter).counter
                        >= counter);
                } else if spec_is_keyword(head) {
                } else {
                    match spec_resolve_name(chain, head, 0) {
                        Resolution::Macro(transformer, depth) => {
                            lemma_use_counter(
                                head,
                                transformer,
                                depth,
                                items,
                                chain,
                                fuel,
                                counter,
                            );
                        },
                        _ => {
                            lemma_from_counter(items, 0, len, Part::Whole, chain, fuel, counter);
                            assert(spec_resolve_call(items, chain, fuel, counter).counter
                                >= counter);
                        },
                    }
                }
            },
            _ => {
                lemma_from_counter(items, 0, len, Part::Whole, chain, fuel, counter);
                assert(spec_resolve_call(items, chain, fuel, counter).counter >= counter);
            },
        }
    }
}

/// The counter does not fall over a use of a macro.
pub proof fn lemma_use_counter(
    keyword: Seq<char>,
    transformer: SyntaxRulesView,
    depth: int,
    items: Seq<DatumView>,
    chain: Seq<ScopeView>,
    fuel: nat,
    counter: usize,
)
    ensures
        spec_resolve_use(keyword, transformer, depth, items, chain, fuel, counter).counter
            >= counter,
    decreases fuel, items, items.len() + 2,
{
    let args = items.subrange(1, items.len() as int);
    if fuel != 0 && counter != usize::MAX {
        match spec_select_rule(transformer, args, 0) {
            Some(selected) => {
                let template = transformer.rules[selected.index].template;
                let written = expansion_result(
                    spec_write(template, selected.env, counter as nat),
                    keyword,
                );
                if written is Ok {
                    law_counter_never_falls(
                        written->Ok_0,
                        chain,
                        (fuel - 1) as nat,
                        (counter + 1) as usize,
                    );
                }
            },
            None => {},
        }
    }
}

/// The counter does not fall over the value of a definition.
pub proof fn lemma_value_counter(d: DatumView, chain: Seq<ScopeView>, fuel: nat, counter: usize)
    ensures
        spec_resolve_value(d, chain, fuel, counter).counter >= counter,
    decreases fuel, d, 0int,
{
    match d {
        DatumView::List(xs) => match spec_definition(d) {
            Some((_, None)) => {
                law_counter_never_falls(xs[2], chain, fuel, counter);
            },
            Some((_, Some(formals))) => {
                lemma_procedure_counter(xs, formals, chain, fuel, counter);
            },
            None => {},
        },
        _ => {},
    }
}

/// The counter does not fall over a `lambda`.
pub proof fn lemma_procedure_counter(
    items: Seq<DatumView>,
    formals: DatumView,
    chain: Seq<ScopeView>,
    fuel: nat,
    counter: usize,
)
    ensures
        spec_resolve_procedure(items, formals, chain, fuel, counter).counter >= counter,
    decreases fuel, items, items.len() + 2,
{
    if spec_formals(formals) is Ok {
        lemma_body_counter(
            items,
            formals_scope(spec_formals(formals)->Ok_0),
            chain,
            fuel,
            counter,
        );
    }
}

/// The counter does not fall over a body.
pub proof fn lemma_body_counter(
    items: Seq<DatumView>,
    base: ScopeView,
    chain: Seq<ScopeView>,
    fuel: nat,
    counter: usize,
)
    ensures
        spec_resolve_body(items, base, chain, fuel, counter).counter >= counter,
    decreases fuel, items, items.len() + 1,
{
    if items.len() >= 3 {
        let end = definitions_end(items, 2);
        lemma_definitions_end(items, 2);
        if end < items.len() && !has_definition(items, end) {
            match spec_defined_names(items, 2, end) {
                Ok(names) => {
                    let inner = seq![body_scope(base, names)] + chain;
                    lemma_from_counter(items, 2, end, Part::Value, inner, fuel, counter);
                    let values = spec_resolve_from(
                        items,
                        2,
                        end,
                        Part::Value,
                        inner,
                        fuel,
                        counter,
                    );
                    lemma_from_counter(
                        items,
                        end,
                        items.len() as int,
                        Part::Whole,
                        inner,
                        fuel,
                        values.counter,
                    );
                },
                Err(_) => {},
            }
        }
    }
}

/// The counter does not fall over forms in a row.
pub proof fn lemma_from_counter(
    items: Seq<DatumView>,
    k: int,
    end: int,
    part: Part,
    chain: Seq<ScopeView>,
    fuel: nat,
    counter: usize,
)
    ensures
        spec_resolve_from(items, k, end, part, chain, fuel, counter).counter >= counter,
    decreases fuel, items, end - k,
{
    if 0 <= k < end <= items.len() {
        let first = match part {
            Part::Whole => {
                law_counter_never_falls(items[k], chain, fuel, counter);
                spec_resolve(items[k], chain, fuel, counter)
            },
            Part::Value => {
                lemma_value_counter(items[k], chain, fuel, counter);
                spec_resolve_value(items[k], chain, fuel, counter)
            },
        };
        if first.result is Ok {
            lemma_from_counter(items, k + 1, end, part, chain, fuel, first.counter);
        }
    }
}

// ---------------------------------------------------------------------------------
// The errors of the resolver
// ---------------------------------------------------------------------------------

/// Whether `r`, where it is an error, is a syntax error.
pub open spec fn fails_in_syntax<T>(r: Result<T, CompilerErrorView>) -> bool {
    r matches Err(e) ==> e is SyntaxError
}

/// The resolver fails with syntax errors alone: whatever the datum, the scopes, the
/// fuel and the counter, an error that it gives is a syntax error.
pub proof fn law_resolver_fails_in_syntax(
    d: DatumView,
    chain: Seq<ScopeView>,
    fuel: nat,
    counter: usize,
)
    ensures
        fails_in_syntax(spec_resolve(d, chain, fuel, counter).result),
    decreases fuel, d, 0int,
{
    match d {
        DatumView::List(items) => {
            lemma_form_fails_in_syntax(items, chain, fuel, counter);
        },
        _ => {},
    }
}

/// Names that are no variables fail with a syntax error.
proof fn lemma_names_fail_in_syntax(ds: Seq<DatumView>, k: int, kind: SyntaxErrorKind)
    ensures
        fails_in_syntax(spec_names(ds, k, kind)),
    decreases ds.len() - k,
{
    if 0 <= k < ds.len() {
        lemma_names_fail_in_syntax(ds, k + 1, kind);
    }
}

/// Definitions that are none fail with a syntax error.
proof fn lemma_defined_names_fail_in_syntax(items: Seq<DatumView>, k: int, end: int)
    ensures
        fails_in_syntax(spec_defined_names(items, k, end)),
    decreases end - k,
{
    if 0 <= k < end <= items.len() {
        lemma_defined_names_fail_in_syntax(items, k + 1, end);
    }
}

/// Bindings of keywords that are none fail with a syntax error.
proof fn lemma_syntax_bindings_fail_in_syntax(
    bs: Seq<DatumView>,
    k: int,
    macros: Map<Seq<char>, SyntaxRulesView>,
)
    ensures
        fails_in_syntax(spec_syntax_bindings(bs, k, macros)),
    decreases bs.len() - k,
{
    if 0 <= k < bs.len() {
        match bs[k] {
            DatumView::List(xs) => {
                if xs.len() == 2 && xs[0] is Identifier {
                    match spec_syntax_rules(xs[1]) {
                        Some(transformer) => {
                            lemma_syntax_bindings_fail_in_syntax(
                                bs,
                                k + 1,
                                macros.insert(xs[0]->Identifier_0, transformer),
                            );
                        },
                        None => {},
                    }
                }
            },
            _ => {},
        }
    }
}

/// A form fails with a syntax error.
proof fn lemma_form_fails_in_syntax(
    items: Seq<DatumView>,
    chain: Seq<ScopeView>,
    fuel: nat,
    counter: usize,
)
    ensures
        fails_in_syntax(spec_resolve_form(items, chain, fuel, counter).result),
    decreases fuel, items, items.len() + 4,
{
    if items.len() > 0 {
        let len = items.len() as int;
        match items[0] {
            DatumView::Identifier(head) => {
                if head == "quote"@ {
                } else if head == "set!"@ {
                    if items.len() == 3 && items[1] is Identifier {
                        law_resolver_fails_in_syntax(items[2], chain, fuel, counter);
                    }
                    assert(fails_in_syntax(
                        spec_resolve_assignment(items, chain, fuel, counter).result,
                    ));
                } else if head == "if"@ {
                    lemma_from_fails_in_syntax(items, 1, len, Part::Whole, chain, fuel, counter);
                    assert(fails_in_syntax(
                        spec_resolve_conditional(items, chain, fuel, counter).result,
                    ));
                } else if head == "lambda"@ {
                    if items.len() >= 3 {
                        lemma_procedure_fails_in_syntax(items, items[1], chain, fuel, counter);
                    }
                    assert(fails_in_syntax(spec_resolve_lambda(items, chain, fuel, counter).result));
                } else if head == "let-syntax"@ || head == "letrec-syntax"@ {
                    if items.len() >= 3 && items[1] is List {
                        let macros = spec_syntax_bindings(items[1]->List_0, 0, Map::empty());
                        lemma_syntax_bindings_fail_in_syntax(items[1]->List_0, 0, Map::empty());
                        if macros is Ok {
                            lemma_body_fails_in_syntax(
                                items,
                                ScopeView { variables: Set::empty(), macros: macros->Ok_0 },
                                chain,
                                fuel,
                                counter,
                            );
                        }
                    }
                    assert(fails_in_syntax(
                        spec_resolve_let_syntax(items, chain, fuel, counter).result,
                    ));
                } else if spec_is_keyword(head) {
                } else {
                    match spec_resolve_name(chain, head, 0) {
                        Resolution::Macro(transformer, depth) => {
                            lemma_use_fails_in_syntax(
                                head,
                                transformer,
                                depth,
                                items,
                                chain,
                                fuel,
                                counter,
                            );
                        },
                        _ => {
                            lemma_from_fails_in_syntax(
                                items,
                                0,
                                len,
                                Part::Whole,
                                chain,
                                fuel,
                                counter,
                            );
                            assert(fails_in_syntax(
                                spec_resolve_call(items, chain, fuel, counter).result,
                            ));
                        },
                    }
                }
            },
            _ => {
                lemma_from_fails_in_syntax(items, 0, len, Part::Whole, chain, fuel, counter);
                assert(fails_in_syntax(spec_resolve_call(items, chain, fuel, counter).result));
            },
        }
    }
}

/// A use of a macro fails with a syntax error.
proof fn lemma_use_fails_in_syntax(
    keyword: Seq<char>,
    transformer: SyntaxRulesView,
    depth: int,
    items: Seq<DatumView>,
    chain: Seq<ScopeView>,
    fuel: nat,
    counter: usize,
)
    ensures
        fails_in_syntax(
            spec_resolve_use(keyword, transformer, depth, items, chain, fuel, counter).result,
        ),
    decreases fuel, items, items.len() + 2,
{
    let args = items.subrange(1, items.len() as int);
    if fuel != 0 && counter != usize::MAX {
        match spec_select_rule(transformer, args, 0) {
            Some(selected) => {
                let template = transformer.rules[selected.index].template;
                let written = expansion_result(
                    spec_write(template, selected.env, counter as nat),
                    keyword,
                );
                if written is Ok {
                    law_resolver_fails_in_syntax(
                        written->Ok_0,
                        chain,
                        (fuel - 1) as nat,
                        (counter + 1) as usize,
                    );
                }
            },
            None => {},
        }
    }
}

/// The value of a definition fails with a syntax error.
proof fn lemma_value_fails_in_syntax(
    d: DatumView,
    chain: Seq<ScopeView>,
    fuel: nat,
    counter: usize,
)
    ensures
        fails_in_syntax(spec_resolve_value(d, chain, fuel, counter).result),
    decreases fuel, d, 0int,
{
    match d {
        DatumView::List(xs) => match spec_definition(d) {
            Some((_, None)) => {
                law_resolver_fails_in_syntax(xs[2], chain, fuel, counter);
            },
            Some((_, Some(formals))) => {
                lemma_procedure_fails_in_syntax(xs, formals, chain, fuel, counter);
            },
            None => {},
        },
        _ => {},
    }
}

/// A `lambda` fails with a syntax error.
proof fn lemma_procedure_fails_in_syntax(
    items: Seq<DatumView>,
    formals: DatumView,
    chain: Seq<ScopeView>,
    fuel: nat,
    counter: usize,
)
    ensures
        fails_in_syntax(spec_resolve_procedure(items, formals, chain, fuel, counter).result),
    decreases fuel, items, items.len() + 2,
{
    match formals {
        DatumView::List(ds) => {
            lemma_names_fail_in_syntax(ds, 0, SyntaxErrorKind::MalformedLambda);
        },
        DatumView::DottedPair(ds, _) => {
            lemma_names_fail_in_syntax(ds, 0, SyntaxErrorKind::MalformedLambda);
        },
        _ => {},
    }
    if spec_formals(formals) is Ok {
        lemma_body_fails_in_syntax(
            items,
            formals_scope(spec_formals(formals)->Ok_0),
            chain,
            fuel,
            counter,
        );
    }
}

/// A body fails with a syntax error.
proof fn lemma_body_fails_in_syntax(
    items: Seq<DatumView>,
    base: ScopeView,
    chain: Seq<ScopeView>,
    fuel: nat,
    counter: usize,
)
    ensures
        fails_in_syntax(spec_resolve_body(items, base, chain, fuel, counter).result),
    decreases fuel, items, items.len() + 1,
{
    if items.len() >= 3 {
        let end = definitions_end(items, 2);
        lemma_definitions_end(items, 2);
        if end < items.len() && !has_definition(items, end) {
            lemma_defined_names_fail_in_syntax(items, 2, end);
            match spec_defined_names(items, 2, end) {
                Ok(names) => {
                    let inner = seq![body_scope(base, names)] + chain;
                    lemma_from_fails_in_syntax(items, 2, end, Part::Value, inner, fuel, counter);
                    let values = spec_resolve_from(
                        items,
                        2,
                        end,
                        Part::Value,
                        inner,
                        fuel,
                        counter,
                    );
                    lemma_from_fails_in_syntax(
                        items,
                        end,
                        items.len() as int,
                        Part::Whole,
                        inner,
                        fuel,
                        values.counter,
                    );
                },
                Err(_) => {},
            }
        }
    }
}

/// Forms in a row fail with a syntax error.
proof fn lemma_from_fails_in_syntax(
    items: Seq<DatumView>,
    k: int,
    end: int,
    part: Part,
    chain: Seq<ScopeView>,
    fuel: nat,
    counter: usize,
)
    ensures
        fails_in_syntax(spec_resolve_from(items, k, end, part, chain, fuel, counter).result),
    decreases fuel, items, end - k,
{
    if 0 <= k < end <= items.len() {
        let first = match part {
            Part::Whole => {
                law_resolver_fails_in_syntax(items[k], chain, fuel, counter);
                spec_resolve(items[k], chain, fuel, counter)
            },
            Part::Value => {
                lemma_value_fails_in_syntax(items[k], chain, fuel, counter);
                spec_resolve_value(items[k], chain, fuel, counter)
            },
        };
        if first.result is Ok {
            lemma_from_fails_in_syntax(items, k + 1, end, part, chain, fuel, first.counter);
        }
    }
}

// ---------------------------------------------------------------------------------
// The resolver
// ---------------------------------------------------------------------------------

/// The model of a result of the resolver that left the counter at `counter`.
pub open spec fn resolved(r: Result<Expression, CompilerError>, counter: usize) -> Resolved {
    Resolved {
        result: match r {
            Ok(e) => Ok(e@),
            Err(e) => Err(e@),
        },
        counter,
    }
}

/// The model of a result of the resolver for several forms.
pub open spec fn resolved_all(r: Result<Vec<Expression>, CompilerError>, counter: usize) -> ResolvedAll {
    ResolvedAll {
        result: match r {
            Ok(es) => Ok(expression_views(es@)),
            Err(e) => Err(e@),
        },
        counter,
    }
}

/// The error for a form that breaks the rule `kind`, where no name is concerned.
fn malformed_form(kind: SyntaxErrorKind) -> (e: CompilerError)
    ensures
        e@ == malformed(kind),
{
    CompilerError::SyntaxError(kind, String::new())
}

/// The chain `chain` with the scope `inner` as its innermost.
fn extend_chain<'b>(chain: &[&'b Scope], inner: &'b Scope) -> (r: Vec<&'b Scope>)
    ensures
        scope_views(r@) == seq![inner@] + scope_views(chain@),
{
    let mut out: Vec<&'b Scope> = Vec::new();
    out.push(inner);
    let mut i: usize = 0;
    while i < chain.len()
        invariant
            i <= chain@.len(),
            out@.len() == i + 1,
            out@[0] == inner,
            forall|k: int| 0 <= k < i ==> out@[k + 1] == chain@[k],
        decreases chain@.len() - i,
    {
        out.push(chain[i]);
        i += 1;
    }
    assert(scope_views(out@) =~= seq![inner@] + scope_views(chain@));
    out
}

/// Whether `d` is a form with the head `define`.
fn is_definition_form(d: &Datum) -> (b: bool)
    ensures
        b == is_definition(d@),
{
    proof {
        lemma_datum_view(*d);
    }
    match d {
        Datum::List(xs) => {
            if xs.len() >= 1 {
                match &xs[0] {
                    Datum::Identifier(head) => same_str(head.as_str(), "define"),
                    _ => false,
                }
            } else {
                false
            }
        },
        _ => false,
    }
}

/// The index of the first of the forms `items[k..]` that is no definition.
fn find_definitions_end(items: &Vec<Datum>, k: usize) -> (end: usize)
    requires
        k <= items@.len(),
    ensures
        end == definitions_end(datum_views(items@), k as int),
        k <= end <= items@.len(),
{
    let mut end: usize = k;
    while end < items.len() && is_definition_form(&items[end])
        invariant
            k <= end <= items@.len(),
            definitions_end(datum_views(items@), k as int) == definitions_end(
                datum_views(items@),
                end as int,
            ),
        decreases items@.len() - end,
    {
        end += 1;
    }
    end
}

/// Whether one of the forms `items[k..]` is a definition.
fn any_definition(items: &Vec<Datum>, k: usize) -> (b: bool)
    requires
        k <= items@.len(),
    ensures
        b == has_definition(datum_views(items@), k as int),
{
    let mut i: usize = k;
    while i < items.len()
        invariant
            k <= i <= items@.len(),
            has_definition(datum_views(items@), k as int) == has_definition(
                datum_views(items@),
                i as int,
            ),
        decreases items@.len() - i,
    {
        if is_definition_form(&items[i]) {
            return true;
        }
        i += 1;
    }
    false
}

/// The variables that the identifiers `ds` name, which are bound in `scope`.
fn parse_names(ds: &Vec<Datum>, kind: SyntaxErrorKind, scope: &mut Scope) -> (r: Result<
    Vec<Variable>,
    CompilerError,
>)
    ensures
        match r {
            Ok(vs) => spec_names(datum_views(ds@), 0, kind) == Ok::<
                Seq<Seq<char>>,
                CompilerErrorView,
            >(variable_names(vs@)) && final(scope)@ == (ScopeView {
                variables: old(scope)@.variables + variable_names(vs@).to_set(),
                ..old(scope)@
            }),
            Err(e) => spec_names(datum_views(ds@), 0, kind) == Err::<
                Seq<Seq<char>>,
                CompilerErrorView,
            >(e@),
        },
{
    let ghost data = datum_views(ds@);
    let ghost before = scope@;
    let mut vs: Vec<Variable> = Vec::new();
    let mut k: usize = 0;
    proof {
        assert(variable_names(vs@).to_set() =~= Set::<Seq<char>>::empty());
        assert(before.variables + Set::<Seq<char>>::empty() =~= before.variables);
        let all = spec_names(data, 0, kind);
        if all is Ok {
            assert(variable_names(vs@) + all->Ok_0 =~= all->Ok_0);
        }
    }
    while k < ds.len()
        invariant
            k <= ds@.len(),
            data == datum_views(ds@),
            before == old(scope)@,
            scope@ == (ScopeView {
                variables: before.variables + variable_names(vs@).to_set(),
                ..before
            }),
            spec_names(data, k as int, kind) is Err ==> spec_names(data, 0, kind) == spec_names(
                data,
                k as int,
                kind,
            ),
            spec_names(data, k as int, kind) is Ok ==> spec_names(data, 0, kind) == Ok::<
                Seq<Seq<char>>,
                CompilerErrorView,
            >(variable_names(vs@) + spec_names(data, k as int, kind)->Ok_0),
        decreases ds@.len() - k,
    {
        let ghost so_far = variable_names(vs@);
        match &ds[k] {
            Datum::Identifier(name) => {
                match scope.bind_variable(name.clone()) {
                    Ok(()) => {},
                    Err(e) => {
                        return Err(e);
                    },
                }
                proof {
                    assert(variable_names(vs@.push(Variable { name: *name })) =~= so_far.push(
                        name@,
                    ));
                    so_far.lemma_push_to_set_commute(name@);
                    assert(before.variables + so_far.to_set().insert(name@) =~= (before.variables
                        + so_far.to_set()).insert(name@));
                    let rest = spec_names(data, k + 1, kind);
                    if rest is Ok {
                        assert(so_far.push(name@) + rest->Ok_0 =~= so_far + (seq![name@]
                            + rest->Ok_0));
                    }
                }
                vs.push(Variable { name: name.clone() });
            },
            _ => {
                return Err(malformed_form(kind));
            },
        }
        k += 1;
    }
    proof {
        assert(variable_names(vs@) + Seq::<Seq<char>>::empty() =~= variable_names(vs@));
    }
    Ok(vs)
}

/// The formal arguments that the datum `d` writes, which are bound in `scope`.
fn parse_formals(d: &Datum, scope: &mut Scope) -> (r: Result<LambdaArgs, CompilerError>)
    ensures
        match r {
            Ok(args) => spec_formals(d@) == Ok::<LambdaArgsView, CompilerErrorView>(args@)
                && final(scope)@ == (ScopeView {
                variables: old(scope)@.variables + formal_names(args@).to_set(),
                ..old(scope)@
            }),
            Err(e) => spec_formals(d@) == Err::<LambdaArgsView, CompilerErrorView>(e@),
        },
{
    proof {
        lemma_datum_view(*d);
    }
    let ghost before = scope@;
    match d {
        Datum::Identifier(name) => {
            match scope.bind_variable(name.clone()) {
                Ok(()) => {},
                Err(e) => {
                    return Err(e);
                },
            }
            proof {
                let none = Seq::<Seq<char>>::empty();
                none.lemma_push_to_set_commute(name@);
                assert(none.push(name@) =~= seq![name@]);
                assert(none.to_set() =~= Set::<Seq<char>>::empty());
                assert(seq![name@].to_set() =~= Set::<Seq<char>>::empty().insert(name@));
                assert(before.variables.insert(name@) =~= before.variables + seq![
                    name@,
                ].to_set());
            }
            Ok(LambdaArgs::Rest(Variable { name: name.clone() }))
        },
        Datum::List(ds) => {
            let vs = parse_names(ds, SyntaxErrorKind::MalformedLambda, scope)?;
            Ok(LambdaArgs::Fixed(vs))
        },
        Datum::DottedPair(ds, tail) => {
            let vs = parse_names(ds, SyntaxErrorKind::MalformedLambda, scope)?;
            match &**tail {
                Datum::Identifier(name) => {
                    match scope.bind_variable(name.clone()) {
                        Ok(()) => {},
                        Err(e) => {
                            return Err(e);
                        },
                    }
                    proof {
                        let names = variable_names(vs@);
                        names.lemma_push_to_set_commute(name@);
                        assert((before.variables + names.to_set()).insert(name@)
                            =~= before.variables + names.to_set().insert(name@));
                    }
                    Ok(LambdaArgs::FixedAndRest(vs, Variable { name: name.clone() }))
                },
                _ => Err(malformed_form(SyntaxErrorKind::MalformedLambda)),
            }
        },
        _ => Err(malformed_form(SyntaxErrorKind::MalformedLambda)),
    }
}

/// Where the definitions `items[k..end]` are well formed, there are as many names as
/// definitions, and each definition defines the name in its place.
pub proof fn lemma_defined_names(items: Seq<DatumView>, k: int, end: int, j: int)
    requires
        0 <= k <= j < end <= items.len(),
        spec_defined_names(items, k, end) is Ok,
    ensures
        spec_defined_names(items, k, end)->Ok_0.len() == end - k,
        spec_definition(items[j]) matches Some((name, _)) && name == spec_defined_names(
            items,
            k,
            end,
        )->Ok_0[j - k],
    decreases end - k,
{
    lemma_defined_names_len(items, k + 1, end);
    if k < j {
        lemma_defined_names(items, k + 1, end, j);
    }
}

/// Where the definitions `items[k..end]` are well formed, there are as many names as
/// definitions.
pub proof fn lemma_defined_names_len(items: Seq<DatumView>, k: int, end: int)
    requires
        0 <= k <= end <= items.len(),
        spec_defined_names(items, k, end) is Ok || k == end,
    ensures
        spec_defined_names(items, k, end) is Ok,
        spec_defined_names(items, k, end)->Ok_0.len() == end - k,
    decreases end - k,
{
    if k < end {
        lemma_defined_names_len(items, k + 1, end);
    }
}

/// The formal arguments that stand behind the name in the head `hs` of a definition
/// of a procedure, which goes on with `tail` where it is dotted.
fn formals_of_head(hs: &Vec<Datum>, tail: Option<&Datum>) -> (formals: Datum)
    requires
        hs@.len() >= 1,
    ensures
        formals@ == rest_of_list(
            datum_views(hs@),
            match tail {
                Some(t) => Some(t@),
                None => None,
            },
            1,
        ),
{
    let formals = match tail {
        None => Datum::List(clone_range(hs, 1, hs.len())),
        Some(t) => {
            if hs.len() == 1 {
                t.clone()
            } else {
                Datum::DottedPair(clone_range(hs, 1, hs.len()), Box::new(t.clone()))
            }
        },
    };
    proof {
        lemma_datum_view(formals);
    }
    formals
}

/// What the form `d` says as a definition: the name, and the formal arguments where
/// it defines a procedure.
fn parse_definition(d: &Datum) -> (r: Option<(&String, Option<Datum>)>)
    ensures
        match r {
            Some((name, Some(formals))) => spec_definition(d@) == Some(
                (name@, Some(formals@)),
            ),
            Some((name, None)) => spec_definition(d@) == Some(
                (name@, None::<DatumView>),
            ),
            None => spec_definition(d@) is None,
        },
{
    proof {
        lemma_datum_view(*d);
    }
    let xs = match d {
        Datum::List(xs) => xs,
        _ => {
            return None;
        },
    };
    if xs.len() < 3 {
        return None;
    }
    proof {
        lemma_datum_view(xs@[1]);
    }
    match &xs[1] {
        Datum::Identifier(name) => {
            if xs.len() == 3 {
                Some((name, None))
            } else {
                None
            }
        },
        Datum::List(hs) => {
            if hs.len() >= 1 {
                match &hs[0] {
                    Datum::Identifier(name) => Some((name, Some(formals_of_head(hs, None)))),
                    _ => None,
                }
            } else {
                None
            }
        },
        Datum::DottedPair(hs, tail) => {
            if hs.len() >= 1 {
                match &hs[0] {
                    Datum::Identifier(name) => Some(
                        (name, Some(formals_of_head(hs, Some(&**tail)))),
                    ),
                    _ => None,
                }
            } else {
                None
            }
        },
        _ => None,
    }
}

/// Binds the names that the definitions `items[start..end]` define in `scope`.
fn bind_defined_names(items: &Vec<Datum>, start: usize, end: usize, scope: &mut Scope) -> (r:
    Result<(), CompilerError>)
    requires
        start <= end <= items@.len(),
    ensures
        match r {
            Ok(()) => spec_defined_names(datum_views(items@), start as int, end as int) is Ok
                && final(scope)@ == (ScopeView {
                variables: old(scope)@.variables + spec_defined_names(
                    datum_views(items@),
                    start as int,
                    end as int,
                )->Ok_0.to_set(),
                ..old(scope)@
            }),
            Err(e) => spec_defined_names(datum_views(items@), start as int, end as int) == Err::<
                Seq<Seq<char>>,
                CompilerErrorView,
            >(e@),
        },
{
    let ghost data = datum_views(items@);
    let ghost before = scope@;
    let ghost mut names: Seq<Seq<char>> = Seq::empty();
    let mut k: usize = start;
    proof {
        assert(names.to_set() =~= Set::<Seq<char>>::empty());
        assert(before.variables + Set::<Seq<char>>::empty() =~= before.variables);
        let all = spec_defined_names(data, start as int, end as int);
        if all is Ok {
            assert(names + all->Ok_0 =~= all->Ok_0);
        }
    }
    while k < end
        invariant
            start <= k <= end <= items@.len(),
            data == datum_views(items@),
            before == old(scope)@,
            scope@ == (ScopeView { variables: before.variables + names.to_set(), ..before }),
            spec_defined_names(data, k as int, end as int) is Err ==> spec_defined_names(
                data,
                start as int,
                end as int,
            ) == spec_defined_names(data, k as int, end as int),
            spec_defined_names(data, k as int, end as int) is Ok ==> spec_defined_names(
                data,
                start as int,
                end as int,
            ) == Ok::<Seq<Seq<char>>, CompilerErrorView>(
                names + spec_defined_names(data, k as int, end as int)->Ok_0,
            ),
        decreases end - k,
    {
        let name = match parse_definition(&items[k]) {
            Some((name, _)) => name,
            None => {
                return Err(malformed_form(SyntaxErrorKind::MalformedBody));
            },
        };
        match scope.bind_variable(name.clone()) {
            Ok(()) => {},
            Err(e) => {
                return Err(e);
            },
        }
        proof {
            let so_far = names;
            names = so_far.push(name@);
            so_far.lemma_push_to_set_commute(name@);
            assert(before.variables + so_far.to_set().insert(name@) =~= (before.variables
                + so_far.to_set()).insert(name@));
            let rest = spec_defined_names(data, k + 1, end as int);
            if rest is Ok {
                assert(so_far.push(name@) + rest->Ok_0 =~= so_far + (seq![name@] + rest->Ok_0));
            }
        }
        k += 1;
    }
    proof {
        assert(names + Seq::<Seq<char>>::empty() =~= names);
    }
    Ok(())
}

/// Reads the datum `datum` as an expression in the chain of scopes `chain`, the
/// innermost scope first. Uses of macros are expanded while there is `fuel`, and
/// `counter` is the number that the next expansion takes.
pub fn resolve<'a>(datum: &Datum, chain: &[&'a Scope], fuel: usize, counter: &mut usize) -> (r:
    Result<Expression, CompilerError>)
    ensures
        resolved(r, *final(counter)) == spec_resolve(
            datum@,
            scope_views(chain@),
            fuel as nat,
            *old(counter),
        ),
    decreases fuel, datum, 0int,
{
    proof {
        lemma_datum_view(*datum);
    }
    match datum {
        Datum::Identifier(name) => {
            if is_keyword(name.as_str()) {
                Err(CompilerError::SyntaxError(SyntaxErrorKind::ReservedWord, name.clone()))
            } else {
                Ok(Expression::Variable(Variable { name: name.clone() }))
            }
        },
        Datum::Boolean(b) => Ok(Expression::SelfEvaluating(SelfEvaluating::Boolean(*b))),
        Datum::Number(n) => Ok(Expression::SelfEvaluating(SelfEvaluating::Number(n.clone()))),
        Datum::Character(c) => Ok(Expression::SelfEvaluating(SelfEvaluating::Character(*c))),
        Datum::String(s) => Ok(Expression::SelfEvaluating(SelfEvaluating::String(s.clone()))),
        Datum::Quote(inner) => Ok(Expression::Quotation((**inner).clone())),
        Datum::List(items) => resolve_form(items, chain, fuel, counter),
        _ => Err(malformed_form(SyntaxErrorKind::NotAnExpression)),
    }
}

/// Reads the form with the elements `items` as an expression in the chain of scopes
/// `chain`, the innermost scope first.
pub fn resolve_form<'a>(
    items: &Vec<Datum>,
    chain: &[&'a Scope],
    fuel: usize,
    counter: &mut usize,
) -> (r: Result<Expression, CompilerError>)
    ensures
        resolved(r, *final(counter)) == spec_resolve_form(
            datum_views(items@),
            scope_views(chain@),
            fuel as nat,
            *old(counter),
        ),
    decreases fuel, items, items@.len() + 4,
{
    if items.len() == 0 {
        return Err(malformed_form(SyntaxErrorKind::NotAnExpression));
    }
    match &items[0] {
        Datum::Identifier(head) => {
            let word = head.as_str();
            if same_str(word, "quote") {
                if items.len() == 2 {
                    Ok(Expression::Quotation(items[1].clone()))
                } else {
                    Err(malformed_form(SyntaxErrorKind::MalformedQuote))
                }
            } else if same_str(word, "set!") {
                resolve_assignment(items, chain, fuel, counter)
            } else if same_str(word, "if") {
                resolve_conditional(items, chain, fuel, counter)
            } else if same_str(word, "lambda") {
                resolve_lambda(items, chain, fuel, counter)
            } else if same_str(word, "let-syntax") || same_str(word, "letrec-syntax") {
                resolve_let_syntax(items, chain, fuel, counter)
            } else if is_keyword(word) {
                Err(CompilerError::SyntaxError(SyntaxErrorKind::NotAnExpression, head.clone()))
            } else {
                match resolve_name(chain, word) {
                    Lookup::Macro(transformer, depth) => resolve_use(
                        head,
                        transformer,
                        depth,
                        items,
                        chain,
                        fuel,
                        counter,
                    ),
                    _ => resolve_call(items, chain, fuel, counter),
                }
            }
        },
        _ => resolve_call(items, chain, fuel, counter),
    }
}

/// Reads the form `(set! variable expression)`.
fn resolve_assignment<'a>(
    items: &Vec<Datum>,
    chain: &[&'a Scope],
    fuel: usize,
    counter: &mut usize,
) -> (r: Result<Expression, CompilerError>)
    ensures
        resolved(r, *final(counter)) == spec_resolve_assignment(
            datum_views(items@),
            scope_views(chain@),
            fuel as nat,
            *old(counter),
        ),
    decreases fuel, items, items@.len() + 2,
{
    if items.len() != 3 {
        return Err(malformed_form(SyntaxErrorKind::MalformedAssignment));
    }
    match &items[1] {
        Datum::Identifier(name) => {
            let variable = Variable { name: name.clone() };
            let expression = resolve(&items[2], chain, fuel, counter)?;
            Ok(Expression::Assignment(variable, Box::new(expression)))
        },
        _ => Err(malformed_form(SyntaxErrorKind::MalformedAssignment)),
    }
}

/// Where forms are read as expressions without an error, there are as many
/// expressions as forms.
pub proof fn lemma_resolve_from_len(
    items: Seq<DatumView>,
    k: int,
    end: int,
    part: Part,
    chain: Seq<ScopeView>,
    fuel: nat,
    counter: usize,
)
    requires
        0 <= k <= end <= items.len(),
        spec_resolve_from(items, k, end, part, chain, fuel, counter).result is Ok,
    ensures
        spec_resolve_from(items, k, end, part, chain, fuel, counter).result->Ok_0.len() == end
            - k,
    decreases end - k,
{
    if k < end {
        let first = match part {
            Part::Whole => spec_resolve(items[k], chain, fuel, counter),
            Part::Value => spec_resolve_value(items[k], chain, fuel, counter),
        };
        lemma_resolve_from_len(items, k + 1, end, part, chain, fuel, first.counter);
    }
}

/// Reads the forms `items[start..end]` as expressions, from left to right.
fn resolve_from<'a>(
    items: &Vec<Datum>,
    start: usize,
    end: usize,
    chain: &[&'a Scope],
    fuel: usize,
    counter: &mut usize,
) -> (r: Result<Vec<Expression>, CompilerError>)
    requires
        start <= end <= items@.len(),
    ensures
        resolved_all(r, *final(counter)) == spec_resolve_from(
            datum_views(items@),
            start as int,
            end as int,
            Part::Whole,
            scope_views(chain@),
            fuel as nat,
            *old(counter),
        ),
    decreases fuel, items, end - start,
{
    let ghost data = datum_views(items@);
    let ghost scopes = scope_views(chain@);
    let ghost whole = spec_resolve_from(
        data,
        start as int,
        end as int,
        Part::Whole,
        scopes,
        fuel as nat,
        *counter,
    );
    let mut es: Vec<Expression> = Vec::new();
    let mut k: usize = start;
    proof {
        if whole.result is Ok {
            assert(expression_views(es@) + whole.result->Ok_0 =~= whole.result->Ok_0);
        }
    }
    while k < end
        invariant
            start <= k <= end <= items@.len(),
            data == datum_views(items@),
            scopes == scope_views(chain@),
            whole == spec_resolve_from(
                data,
                start as int,
                end as int,
                Part::Whole,
                scopes,
                fuel as nat,
                *old(counter),
            ),
            ({
                let rest = spec_resolve_from(
                    data,
                    k as int,
                    end as int,
                    Part::Whole,
                    scopes,
                    fuel as nat,
                    *counter,
                );
                &&& whole.counter == rest.counter
                &&& rest.result is Err ==> whole.result == rest.result
                &&& rest.result is Ok ==> whole.result is Ok && whole.result->Ok_0
                    == expression_views(es@) + rest.result->Ok_0
            }),
        decreases end - k,
    {
        let ghost so_far = expression_views(es@);
        let ghost before = *counter;
        match resolve(&items[k], chain, fuel, counter) {
            Ok(e) => {
                proof {
                    let rest = spec_resolve_from(
                        data,
                        k + 1,
                        end as int,
                        Part::Whole,
                        scopes,
                        fuel as nat,
                        *counter,
                    );
                    assert(expression_views(es@.push(e)) =~= so_far.push(e@));
                    if rest.result is Ok {
                        assert(so_far.push(e@) + rest.result->Ok_0 =~= so_far + (seq![e@]
                            + rest.result->Ok_0));
                    }
                }
                es.push(e);
            },
            Err(e) => {
                return Err(e);
            },
        }
        k += 1;
    }
    proof {
        assert(expression_views(es@) + Seq::<ExpressionView>::empty() =~= expression_views(es@));
    }
    Ok(es)
}

/// Reads the form `(if test consequent)` or `(if test consequent alternate)`.
fn resolve_conditional<'a>(
    items: &Vec<Datum>,
    chain: &[&'a Scope],
    fuel: usize,
    counter: &mut usize,
) -> (r: Result<Expression, CompilerError>)
    ensures
        resolved(r, *final(counter)) == spec_resolve_conditional(
            datum_views(items@),
            scope_views(chain@),
            fuel as nat,
            *old(counter),
        ),
    decreases fuel, items, items@.len() + 2,
{
    if items.len() != 3 && items.len() != 4 {
        return Err(malformed_form(SyntaxErrorKind::MalformedConditional));
    }
    proof {
        let parts = spec_resolve_from(
            datum_views(items@),
            1,
            items@.len() as int,
            Part::Whole,
            scope_views(chain@),
            fuel as nat,
            *counter,
        );
        if parts.result is Ok {
            lemma_resolve_from_len(
                datum_views(items@),
                1,
                items@.len() as int,
                Part::Whole,
                scope_views(chain@),
                fuel as nat,
                *counter,
            );
        }
    }
    let mut es = resolve_from(items, 1, items.len(), chain, fuel, counter)?;
    let ghost all = expression_views(es@);
    let alternate = if items.len() == 4 {
        match es.pop() {
            Some(e) => Some(Box::new(e)),
            None => None,
        }
    } else {
        None
    };
    let consequent = es.pop();
    let test = es.pop();
    match (test, consequent) {
        (Some(t), Some(c)) => {
            assert(t@ == all[0]);
            assert(c@ == all[1]);
            Ok(Expression::Conditional(Box::new(t), Box::new(c), alternate))
        },
        _ => Err(malformed_form(SyntaxErrorKind::MalformedConditional)),
    }
}

/// Reads the form with the elements `items` as a procedure call.
fn resolve_call<'a>(
    items: &Vec<Datum>,
    chain: &[&'a Scope],
    fuel: usize,
    counter: &mut usize,
) -> (r: Result<Expression, CompilerError>)
    requires
        items@.len() > 0,
    ensures
        resolved(r, *final(counter)) == spec_resolve_call(
            datum_views(items@),
            scope_views(chain@),
            fuel as nat,
            *old(counter),
        ),
    decreases fuel, items, items@.len() + 2,
{
    proof {
        let parts = spec_resolve_from(
            datum_views(items@),
            0,
            items@.len() as int,
            Part::Whole,
            scope_views(chain@),
            fuel as nat,
            *counter,
        );
        if parts.result is Ok {
            lemma_resolve_from_len(
                datum_views(items@),
                0,
                items@.len() as int,
                Part::Whole,
                scope_views(chain@),
                fuel as nat,
                *counter,
            );
        }
    }
    let mut es = resolve_from(items, 0, items.len(), chain, fuel, counter)?;
    let ghost all = expression_views(es@);
    let operator = es.remove(0);
    assert(expression_views(es@) =~= all.subrange(1, all.len() as int));
    let call = Expression::ProcedureCall(Box::new(operator), es);
    proof {
        lemma_expression_view(call);
    }
    Ok(call)
}

/// Whether one of the scopes `chain[..to]` binds `name`.
fn bound_within<'a>(chain: &[&'a Scope], name: &str, to: usize) -> (b: bool)
    requires
        to <= chain@.len(),
    ensures
        b == spec_bound_within(scope_views(chain@), name@, 0, to as int),
{
    let mut k: usize = 0;
    while k < to
        invariant
            k <= to <= chain@.len(),
            spec_bound_within(scope_views(chain@), name@, 0, to as int) == spec_bound_within(
                scope_views(chain@),
                name@,
                k as int,
                to as int,
            ),
        decreases to - k,
    {
        let scope: &'a Scope = chain[k];
        if scope.has_variable(name) || scope.find_macro(name).is_some() {
            return true;
        }
        k += 1;
    }
    false
}

/// The first of the identifiers `names` that the template writes as it stands and
/// that one of the scopes `chain[..to]` binds.
fn find_captured<'a, 'b>(
    names: &'b Vec<String>,
    env: &Vec<Bound>,
    binders: &Vec<String>,
    chain: &[&'a Scope],
    to: usize,
) -> (r: Option<&'b String>)
    requires
        to <= chain@.len(),
    ensures
        match r {
            Some(name) => spec_captured(
                texts(names@),
                0,
                bound_views(env@),
                texts(binders@),
                scope_views(chain@),
                to as int,
            ) == Some(name@),
            None => spec_captured(
                texts(names@),
                0,
                bound_views(env@),
                texts(binders@),
                scope_views(chain@),
                to as int,
            ) is None,
        },
{
    let mut k: usize = 0;
    while k < names.len()
        invariant
            k <= names@.len(),
            to <= chain@.len(),
            spec_captured(
                texts(names@),
                0,
                bound_views(env@),
                texts(binders@),
                scope_views(chain@),
                to as int,
            ) == spec_captured(
                texts(names@),
                k as int,
                bound_views(env@),
                texts(binders@),
                scope_views(chain@),
                to as int,
            ),
        decreases names@.len() - k,
    {
        let name = &names[k];
        let free = find_binding(env, name).is_none() && !has_name(binders, name) && !is_keyword(
            name.as_str(),
        );
        if free && bound_within(chain, name.as_str(), to) {
            return Some(name);
        }
        k += 1;
    }
    None
}

/// Reads the use of the macro `keyword`, which the scope at the index `depth` of the
/// chain binds to `transformer`.
fn resolve_use<'a>(
    keyword: &String,
    transformer: &SyntaxRules,
    depth: usize,
    items: &Vec<Datum>,
    chain: &[&'a Scope],
    fuel: usize,
    counter: &mut usize,
) -> (r: Result<Expression, CompilerError>)
    requires
        items@.len() > 0,
        depth < chain@.len(),
    ensures
        resolved(r, *final(counter)) == spec_resolve_use(
            keyword@,
            transformer@,
            depth as int,
            datum_views(items@),
            scope_views(chain@),
            fuel as nat,
            *old(counter),
        ),
    decreases fuel, items, items@.len() + 2,
{
    let args = clone_range(items, 1, items.len());
    if fuel == 0 || *counter == usize::MAX {
        return Ok(Expression::MacroUse(keyword.clone(), args));
    }
    let (index, env) = match select_rule(transformer, &args) {
        Some(selected) => selected,
        None => {
            return Err(
                CompilerError::SyntaxError(SyntaxErrorKind::NoMatchingRule, keyword.clone()),
            );
        },
    };
    let template = &transformer.rules[index].template;
    let binders = template_binders(template);
    let names = template_identifiers(template);
    match find_captured(&names, &env, &binders, chain, depth) {
        Some(name) => {
            return Err(
                CompilerError::SyntaxError(SyntaxErrorKind::CapturedIdentifier, name.clone()),
            );
        },
        None => {},
    }
    let written = write_template(template, &env, keyword, *counter)?;
    *counter = *counter + 1;
    resolve(&written, chain, fuel - 1, counter)
}

/// Reads the value of the definition `d` as an expression, and gives it with the
/// name that is defined.
fn resolve_value<'a>(d: &Datum, chain: &[&'a Scope], fuel: usize, counter: &mut usize) -> (r:
    Result<(String, Expression), CompilerError>)
    ensures
        ({
            let value = spec_resolve_value(d@, scope_views(chain@), fuel as nat, *old(counter));
            &&& value.counter == *final(counter)
            &&& match r {
                Ok((name, e)) => {
                    &&& value.result == Ok::<ExpressionView, CompilerErrorView>(e@)
                    &&& spec_definition(d@) matches Some((defined, _)) && defined == name@
                },
                Err(e) => value.result == Err::<ExpressionView, CompilerErrorView>(e@),
            }
        }),
    decreases fuel, d, 0int,
{
    proof {
        lemma_datum_view(*d);
    }
    let xs = match d {
        Datum::List(xs) => xs,
        _ => {
            return Err(malformed_form(SyntaxErrorKind::MalformedBody));
        },
    };
    match parse_definition(d) {
        Some((name, None)) => {
            let e = resolve(&xs[2], chain, fuel, counter)?;
            Ok((name.clone(), e))
        },
        Some((name, Some(formals))) => {
            let e = resolve_procedure(xs, &formals, chain, fuel, counter)?;
            Ok((name.clone(), e))
        },
        None => Err(malformed_form(SyntaxErrorKind::MalformedBody)),
    }
}

/// Reads the values of the definitions `items[start..end]` as expressions, from left
/// to right, and gives the definitions.
fn resolve_definitions<'a>(
    items: &Vec<Datum>,
    start: usize,
    end: usize,
    chain: &[&'a Scope],
    fuel: usize,
    counter: &mut usize,
) -> (r: Result<Vec<Definition>, CompilerError>)
    requires
        start <= end <= items@.len(),
        spec_defined_names(datum_views(items@), start as int, end as int) is Ok,
    ensures
        ({
            let values = spec_resolve_from(
                datum_views(items@),
                start as int,
                end as int,
                Part::Value,
                scope_views(chain@),
                fuel as nat,
                *old(counter),
            );
            let names = spec_defined_names(datum_views(items@), start as int, end as int)->Ok_0;
            &&& values.counter == *final(counter)
            &&& match r {
                Ok(ds) => values.result is Ok && definition_views(ds@) == definitions_of(
                    names,
                    values.result->Ok_0,
                ),
                Err(e) => values.result == Err::<Seq<ExpressionView>, CompilerErrorView>(e@),
            }
        }),
    decreases fuel, items, end - start,
{
    let ghost data = datum_views(items@);
    let ghost scopes = scope_views(chain@);
    let ghost names = spec_defined_names(data, start as int, end as int)->Ok_0;
    let ghost whole = spec_resolve_from(
        data,
        start as int,
        end as int,
        Part::Value,
        scopes,
        fuel as nat,
        *counter,
    );
    let ghost mut values: Seq<ExpressionView> = Seq::empty();
    let mut ds: Vec<Definition> = Vec::new();
    let mut k: usize = start;
    proof {
        lemma_defined_names_len(data, start as int, end as int);
        if whole.result is Ok {
            assert(values + whole.result->Ok_0 =~= whole.result->Ok_0);
        }
    }
    while k < end
        invariant
            start <= k <= end <= items@.len(),
            data == datum_views(items@),
            scopes == scope_views(chain@),
            spec_defined_names(data, start as int, end as int) is Ok,
            names == spec_defined_names(data, start as int, end as int)->Ok_0,
            names.len() == end - start,
            whole == spec_resolve_from(
                data,
                start as int,
                end as int,
                Part::Value,
                scopes,
                fuel as nat,
                *old(counter),
            ),
            ds@.len() == k - start,
            values.len() == k - start,
            forall|j: int|
                0 <= j < k - start ==> (#[trigger] ds@[j])@ == (DefinitionView {
                    variable: names[j],
                    expression: values[j],
                }),
            ({
                let rest = spec_resolve_from(
                    data,
                    k as int,
                    end as int,
                    Part::Value,
                    scopes,
                    fuel as nat,
                    *counter,
                );
                &&& whole.counter == rest.counter
                &&& rest.result is Err ==> whole.result == rest.result
                &&& rest.result is Ok ==> whole.result is Ok && whole.result->Ok_0 == values
                    + rest.result->Ok_0
            }),
        decreases end - k,
    {
        proof {
            lemma_datum_view(items@[k as int]);
            lemma_defined_names(data, start as int, end as int, k as int);
        }
        let ghost so_far = values;
        match resolve_value(&items[k], chain, fuel, counter) {
            Ok((name, e)) => {
                proof {
                    let rest = spec_resolve_from(
                        data,
                        k + 1,
                        end as int,
                        Part::Value,
                        scopes,
                        fuel as nat,
                        *counter,
                    );
                    values = so_far.push(e@);
                    if rest.result is Ok {
                        assert(so_far.push(e@) + rest.result->Ok_0 =~= so_far + (seq![e@]
                            + rest.result->Ok_0));
                    }
                }
                ds.push(Definition { variable: Variable { name }, expression: e });
            },
            Err(e) => {
                return Err(e);
            },
        }
        k += 1;
    }
    proof {
        assert(values + Seq::<ExpressionView>::empty() =~= values);
        assert(definition_views(ds@) =~= definitions_of(names, values));
    }
    Ok(ds)
}

/// The model of a body that was read or not, with the counter behind it.
pub open spec fn resolved_body(r: Result<LambdaBody, CompilerError>, counter: usize) -> ResolvedBody {
    ResolvedBody {
        result: match r {
            Ok(b) => Ok(
                LambdaBodyView {
                    definitions: definition_views(b.definitions@),
                    commands: expression_views(b.commands@),
                    result: Box::new(b.result@),
                },
            ),
            Err(e) => Err(e@),
        },
        counter,
    }
}

/// Reads the forms `items[2..]` as a body in the scope `scope`, to which the names
/// that the body defines are added.
fn resolve_body<'a>(
    items: &Vec<Datum>,
    scope: Scope,
    chain: &[&'a Scope],
    fuel: usize,
    counter: &mut usize,
) -> (r: Result<LambdaBody, CompilerError>)
    ensures
        resolved_body(r, *final(counter)) == spec_resolve_body(
            datum_views(items@),
            scope@,
            scope_views(chain@),
            fuel as nat,
            *old(counter),
        ),
    decreases fuel, items, items@.len() + 1,
{
    if items.len() < 3 {
        return Err(malformed_form(SyntaxErrorKind::MalformedBody));
    }
    let ghost data = datum_views(items@);
    let ghost base = scope@;
    let mut scope = scope;
    let end = find_definitions_end(items, 2);
    if end >= items.len() || any_definition(items, end) {
        return Err(malformed_form(SyntaxErrorKind::MalformedBody));
    }
    bind_defined_names(items, 2, end, &mut scope)?;
    let ghost names = spec_defined_names(data, 2, end as int)->Ok_0;
    assert(scope@ == body_scope(base, names));
    let inner = extend_chain(chain, &scope);
    let definitions = resolve_definitions(items, 2, end, inner.as_slice(), fuel, counter)?;
    proof {
        let rest = spec_resolve_from(
            data,
            end as int,
            items@.len() as int,
            Part::Whole,
            scope_views(inner@),
            fuel as nat,
            *counter,
        );
        if rest.result is Ok {
            lemma_resolve_from_len(
                data,
                end as int,
                items@.len() as int,
                Part::Whole,
                scope_views(inner@),
                fuel as nat,
                *counter,
            );
        }
    }
    let mut commands = resolve_from(items, end, items.len(), inner.as_slice(), fuel, counter)?;
    let ghost all = expression_views(commands@);
    match commands.pop() {
        Some(result) => {
            assert(expression_views(commands@) =~= all.drop_last());
            Ok(LambdaBody { definitions, commands, result: Box::new(result) })
        },
        None => Err(malformed_form(SyntaxErrorKind::MalformedBody)),
    }
}

/// Reads the form `(lambda formals body ...)`.
fn resolve_lambda<'a>(
    items: &Vec<Datum>,
    chain: &[&'a Scope],
    fuel: usize,
    counter: &mut usize,
) -> (r: Result<Expression, CompilerError>)
    ensures
        resolved(r, *final(counter)) == spec_resolve_lambda(
            datum_views(items@),
            scope_views(chain@),
            fuel as nat,
            *old(counter),
        ),
    decreases fuel, items, items@.len() + 3,
{
    if items.len() < 3 {
        return Err(malformed_form(SyntaxErrorKind::MalformedLambda));
    }
    resolve_procedure(items, &items[1], chain, fuel, counter)
}

/// Reads the `lambda` with the formal arguments that `formals` writes and the body
/// `items[2..]`.
fn resolve_procedure<'a>(
    items: &Vec<Datum>,
    formals: &Datum,
    chain: &[&'a Scope],
    fuel: usize,
    counter: &mut usize,
) -> (r: Result<Expression, CompilerError>)
    ensures
        resolved(r, *final(counter)) == spec_resolve_procedure(
            datum_views(items@),
            formals@,
            scope_views(chain@),
            fuel as nat,
            *old(counter),
        ),
    decreases fuel, items, items@.len() + 2,
{
    let mut scope = Scope::new();
    let args = parse_formals(formals, &mut scope)?;
    proof {
        assert(scope@.variables =~= formal_names(args@).to_set());
        assert(scope@ == formals_scope(args@));
    }
    let body = resolve_body(items, scope, chain, fuel, counter)?;
    let lambda = Expression::Lambda(args, body);
    proof {
        lemma_expression_view(lambda);
    }
    Ok(lambda)
}

/// Binds the keywords of the bindings `bs` to their transformers in `scope`.
fn parse_syntax_bindings(bs: &Vec<Datum>, scope: &mut Scope) -> (r: Result<(), CompilerError>)
    ensures
        match r {
            Ok(()) => spec_syntax_bindings(datum_views(bs@), 0, old(scope)@.macros) == Ok::<
                Map<Seq<char>, SyntaxRulesView>,
                CompilerErrorView,
            >(final(scope)@.macros) && final(scope)@.variables == old(scope)@.variables,
            Err(e) => spec_syntax_bindings(datum_views(bs@), 0, old(scope)@.macros) == Err::<
                Map<Seq<char>, SyntaxRulesView>,
                CompilerErrorView,
            >(e@),
        },
{
    let ghost data = datum_views(bs@);
    let ghost before = scope@;
    let mut k: usize = 0;
    while k < bs.len()
        invariant
            k <= bs@.len(),
            data == datum_views(bs@),
            before == old(scope)@,
            scope@.variables == before.variables,
            spec_syntax_bindings(data, 0, before.macros) == spec_syntax_bindings(
                data,
                k as int,
                scope@.macros,
            ),
        decreases bs@.len() - k,
    {
        proof {
            lemma_datum_view(bs@[k as int]);
        }
        match &bs[k] {
            Datum::List(xs) => {
                if xs.len() != 2 {
                    return Err(malformed_form(SyntaxErrorKind::MalformedSyntaxBinding));
                }
                match &xs[0] {
                    Datum::Identifier(keyword) => {
                        let transformer = parse_syntax_rules(&xs[1])?;
                        scope.bind_macro(keyword.clone(), transformer);
                    },
                    _ => {
                        return Err(malformed_form(SyntaxErrorKind::MalformedSyntaxBinding));
                    },
                }
            },
            _ => {
                return Err(malformed_form(SyntaxErrorKind::MalformedSyntaxBinding));
            },
        }
        k += 1;
    }
    Ok(())
}

/// Reads the form `(let-syntax (binding ...) body ...)` or the same with
/// `letrec-syntax`.
fn resolve_let_syntax<'a>(
    items: &Vec<Datum>,
    chain: &[&'a Scope],
    fuel: usize,
    counter: &mut usize,
) -> (r: Result<Expression, CompilerError>)
    ensures
        resolved(r, *final(counter)) == spec_resolve_let_syntax(
            datum_views(items@),
            scope_views(chain@),
            fuel as nat,
            *old(counter),
        ),
    decreases fuel, items, items@.len() + 2,
{
    if items.len() < 3 {
        return Err(malformed_form(SyntaxErrorKind::MalformedSyntaxBinding));
    }
    proof {
        lemma_datum_view(items@[1]);
    }
    let bindings = match &items[1] {
        Datum::List(bindings) => bindings,
        _ => {
            return Err(malformed_form(SyntaxErrorKind::MalformedSyntaxBinding));
        },
    };
    let mut scope = Scope::new();
    parse_syntax_bindings(bindings, &mut scope)?;
    proof {
        assert(scope@ == (ScopeView { variables: Set::empty(), macros: scope@.macros }));
    }
    let body = resolve_body(items, scope, chain, fuel, counter)?;
    let no_args: Vec<Variable> = Vec::new();
    let no_operands: Vec<Expression> = Vec::new();
    let lambda = Expression::Lambda(LambdaArgs::Fixed(no_args), body);
    proof {
        lemma_expression_view(lambda);
        assert(variable_names(no_args@) =~= Seq::<Seq<char>>::empty());
        assert(expression_views(no_operands@) =~= Seq::<ExpressionView>::empty());
    }
    let call = Expression::ProcedureCall(Box::new(lambda), no_operands);
    proof {
        lemma_expression_view(call);
    }
    Ok(call)
}

// ---------------------------------------------------------------------------------
// Expressions with their scopes
// ---------------------------------------------------------------------------------

/// An expression with the scopes that it was read in.
#[derive(Debug)]
pub struct ScopedExpression<'a> {
    /// The expression.
    pub expression: Expression,
    /// The scope of the expression itself.
    pub current_scope: Scope,
    /// The scopes around it, the innermost first.
    pub parent_scope: Vec<&'a Scope>,
}

impl Expression {
    /// The expression with a scope of its own that binds nothing, in the scopes
    /// `parent_scope`.
    pub fn scopify_with_empty_scope<'a>(self, parent_scope: &[&'a Scope]) -> (r: ScopedExpression<
        'a,
    >)
        ensures
            r.expression == self,
            r.current_scope@.variables == Set::<Seq<char>>::empty(),
            r.current_scope@.macros == Map::<Seq<char>, SyntaxRulesView>::empty(),
            r.parent_scope@ == parent_scope@,
    {
        let current_scope = Scope::new();
        let mut parents: Vec<&'a Scope> = Vec::new();
        let mut i: usize = 0;
        while i < parent_scope.len()
            invariant
                i <= parent_scope@.len(),
                parents@ == parent_scope@.subrange(0, i as int),
            decreases parent_scope@.len() - i,
        {
            parents.push(parent_scope[i]);
            assert(parents@ =~= parent_scope@.subrange(0, i + 1));
            i += 1;
        }
        assert(parents@ =~= parent_scope@);
        ScopedExpression { expression: self, current_scope, parent_scope: parents }
    }
}

/// Whether `r` is the expression or the error `expected`, the expression with an
/// empty scope of its own in the scopes `parents`.
pub open spec fn scoped_result_is(
    r: Result<ScopedExpression, CompilerError>,
    expected: Result<ExpressionView, CompilerErrorView>,
    parents: Seq<&Scope>,
) -> bool {
    match r {
        Ok(scoped) => {
            &&& expected == Ok::<ExpressionView, CompilerErrorView>(scoped.expression@)
            &&& scoped.current_scope@.variables == Set::<Seq<char>>::empty()
            &&& scoped.current_scope@.macros == Map::<Seq<char>, SyntaxRulesView>::empty()
            &&& scoped.parent_scope@ == parents
        },
        Err(e) => expected == Err::<ExpressionView, CompilerErrorView>(e@),
    }
}

/// Reads the datum `datum` as an expression in the scopes `parent_scope`, the
/// innermost first. Uses of macros stay in the expression as they are.
pub fn parse_scoped_expression<'a>(datum: Datum, parent_scope: &[&'a Scope]) -> (r: Result<
    ScopedExpression<'a>,
    CompilerError,
>)
    ensures
        scoped_result_is(
            r,
            spec_resolve(datum@, scope_views(parent_scope@), 0, 0).result,
            parent_scope@,
        ),
{
    let mut counter: usize = 0;
    let expression = resolve(&datum, parent_scope, 0, &mut counter)?;
    Ok(expression.scopify_with_empty_scope(parent_scope))
}

/// Reads the form with the elements `contents` as an expression in the scopes
/// `parent_scope`, the innermost first. Uses of macros stay in the expression as they
/// are.
pub fn parse_scoped_list<'a>(contents: Vec<Datum>, parent_scope: &[&'a Scope]) -> (r: Result<
    ScopedExpression<'a>,
    CompilerError,
>)
    ensures
        scoped_result_is(
            r,
            spec_resolve_form(datum_views(contents@), scope_views(parent_scope@), 0, 0).result,
            parent_scope@,
        ),
{
    let mut counter: usize = 0;
    let expression = resolve_form(&contents, parent_scope, 0, &mut counter)?;
    Ok(expression.scopify_with_empty_scope(parent_scope))
}

// ---------------------------------------------------------------------------------
// Variables that nothing binds
// ---------------------------------------------------------------------------------

/// Whether the variable `name` is bound: it is one of the variables `locals` of the
/// forms around it, or the chain of scopes says that it is a variable.
pub open spec fn is_bound(chain: Seq<ScopeView>, locals: Seq<Seq<char>>, name: Seq<char>) -> bool {
    locals.contains(name) || spec_resolve_name(chain, name, 0) is Variable
}

/// The names that a body defines, in order.
pub open spec fn defined_names(definitions: Seq<DefinitionView>) -> Seq<Seq<char>> {
    Seq::new(definitions.len(), |k: int| definitions[k].variable)
}

/// The first variable in the expression `e`, in the order in which the expression is
/// written, that is used or assigned to and that nothing binds, if there is one. The
/// variables of a `lambda` and the names that its body defines are bound in all of
/// its body. Nothing is said of a use of a macro that has not been expanded, nor of
/// what is quoted.
pub open spec fn spec_unbound(e: ExpressionView, chain: Seq<ScopeView>, locals: Seq<Seq<char>>) -> Option<
    Seq<char>,
>
    decreases e, 0int,
{
    match e {
        ExpressionView::Variable(name) => if is_bound(chain, locals, name) {
            None
        } else {
            Some(name)
        },
        ExpressionView::SelfEvaluating(_) => None,
        ExpressionView::Quotation(_) => None,
        ExpressionView::ProcedureCall(operator, operands) => match spec_unbound(
            *operator,
            chain,
            locals,
        ) {
            Some(name) => Some(name),
            None => spec_unbound_from(operands, 0, chain, locals),
        },
        ExpressionView::Lambda(args, body) => {
            let inner = locals + formal_names(args) + defined_names(body.definitions);
            match spec_unbound_values(body.definitions, 0, chain, inner) {
                Some(name) => Some(name),
                None => match spec_unbound_from(body.commands, 0, chain, inner) {
                    Some(name) => Some(name),
                    None => spec_unbound(*body.result, chain, inner),
                },
            }
        },
        ExpressionView::Conditional(test, consequent, alternate) => match spec_unbound(
            *test,
            chain,
            locals,
        ) {
            Some(name) => Some(name),
            None => match spec_unbound(*consequent, chain, locals) {
                Some(name) => Some(name),
                None => match alternate {
                    Some(e) => spec_unbound(*e, chain, locals),
                    None => None,
                },
            },
        },
        ExpressionView::Assignment(name, value) => if is_bound(chain, locals, name) {
            spec_unbound(*value, chain, locals)
        } else {
            Some(name)
        },
        ExpressionView::MacroUse(_, _) => None,
    }
}

/// The first variable that nothing binds in the expressions `es[k..]`.
pub open spec fn spec_unbound_from(
    es: Seq<ExpressionView>,
    k: int,
    chain: Seq<ScopeView>,
    locals: Seq<Seq<char>>,
) -> Option<Seq<char>>
    decreases es, es.len() - k,
{
    if 0 <= k < es.len() {
        match spec_unbound(es[k], chain, locals) {
            Some(name) => Some(name),
            None => spec_unbound_from(es, k + 1, chain, locals),
        }
    } else {
        None
    }
}

/// The first variable that nothing binds in the values of the definitions `ds[k..]`.
pub open spec fn spec_unbound_values(
    ds: Seq<DefinitionView>,
    k: int,
    chain: Seq<ScopeView>,
    locals: Seq<Seq<char>>,
) -> Option<Seq<char>>
    decreases ds, ds.len() - k,
{
    if 0 <= k < ds.len() {
        match spec_unbound(ds[k].expression, chain, locals) {
            Some(name) => Some(name),
            None => spec_unbound_values(ds, k + 1, chain, locals),
        }
    } else {
        None
    }
}

/// The model of a name that was found or not.
pub open spec fn name_found(r: Option<String>) -> Option<Seq<char>> {
    match r {
        Some(name) => Some(name@),
        None => None,
    }
}

/// Whether the variable `name` is bound.
fn is_bound_variable<'a>(chain: &[&'a Scope], locals: &Vec<String>, name: &String) -> (b: bool)
    ensures
        b == is_bound(scope_views(chain@), texts(locals@), name@),
{
    if has_name(locals, name) {
        return true;
    }
    match resolve_name(chain, name.as_str()) {
        Lookup::Variable => true,
        _ => false,
    }
}

/// The first variable that nothing binds in the expressions `es`.
fn unbound_from<'a>(es: &Vec<Expression>, chain: &[&'a Scope], locals: &Vec<String>) -> (r: Option<
    String,
>)
    ensures
        name_found(r) == spec_unbound_from(
            expression_views(es@),
            0,
            scope_views(chain@),
            texts(locals@),
        ),
    decreases es,
{
    let mut k: usize = 0;
    while k < es.len()
        invariant
            k <= es@.len(),
            spec_unbound_from(expression_views(es@), 0, scope_views(chain@), texts(locals@))
                == spec_unbound_from(
                expression_views(es@),
                k as int,
                scope_views(chain@),
                texts(locals@),
            ),
        decreases es@.len() - k,
    {
        match unbound_in(&es[k], chain, locals) {
            Some(name) => {
                return Some(name);
            },
            None => {},
        }
        k += 1;
    }
    None
}

/// The first variable that nothing binds in the values of the definitions `ds`.
fn unbound_values<'a>(ds: &Vec<Definition>, chain: &[&'a Scope], locals: &Vec<String>) -> (r:
    Option<String>)
    ensures
        name_found(r) == spec_unbound_values(
            definition_views(ds@),
            0,
            scope_views(chain@),
            texts(locals@),
        ),
    decreases ds,
{
    let mut k: usize = 0;
    while k < ds.len()
        invariant
            k <= ds@.len(),
            spec_unbound_values(definition_views(ds@), 0, scope_views(chain@), texts(locals@))
                == spec_unbound_values(
                definition_views(ds@),
                k as int,
                scope_views(chain@),
                texts(locals@),
            ),
        decreases ds@.len() - k,
    {
        assert(definition_views(ds@)[k as int].expression == ds@[k as int].expression@);
        match unbound_in(&ds[k].expression, chain, locals) {
            Some(name) => {
                return Some(name);
            },
            None => {},
        }
        k += 1;
    }
    None
}

/// Adds a copy of `name` to `names`.
fn push_name(names: &mut Vec<String>, name: &String)
    ensures
        texts(final(names)@) == texts(old(names)@).push(name@),
{
    let ghost before = texts(names@);
    names.push(name.clone());
    assert(texts(names@) =~= before.push(name@));
}

/// Adds the names of the variables `vs` to `names`.
fn push_variables(names: &mut Vec<String>, vs: &Vec<Variable>)
    ensures
        texts(final(names)@) == texts(old(names)@) + variable_names(vs@),
{
    let ghost before = texts(names@);
    let mut j: usize = 0;
    assert(before + variable_names(vs@).take(0) =~= before);
    while j < vs.len()
        invariant
            j <= vs@.len(),
            texts(names@) == before + variable_names(vs@).take(j as int),
        decreases vs@.len() - j,
    {
        push_name(names, &vs[j].name);
        assert((before + variable_names(vs@).take(j as int)).push(vs@[j as int].name@) =~= before
            + variable_names(vs@).take(j + 1));
        j += 1;
    }
    assert(variable_names(vs@).take(vs@.len() as int) =~= variable_names(vs@));
}

/// The variables `locals`, the formal arguments `args` and the names that
/// `definitions` define, in this order.
fn names_within(locals: &Vec<String>, args: &LambdaArgs, definitions: &Vec<Definition>) -> (r:
    Vec<String>)
    ensures
        texts(r@) == texts(locals@) + formal_names(args@) + defined_names(
            definition_views(definitions@),
        ),
{
    let ghost first = texts(locals@);
    let mut names: Vec<String> = Vec::new();
    let mut i: usize = 0;
    assert(texts(names@) =~= first.take(0));
    while i < locals.len()
        invariant
            i <= locals@.len(),
            first == texts(locals@),
            texts(names@) == first.take(i as int),
        decreases locals@.len() - i,
    {
        push_name(&mut names, &locals[i]);
        assert(first.take(i as int).push(locals@[i as int]@) =~= first.take(i + 1));
        i += 1;
    }
    assert(first.take(locals@.len() as int) =~= first);
    match args {
        LambdaArgs::Fixed(vs) => {
            push_variables(&mut names, vs);
        },
        LambdaArgs::Rest(v) => {
            push_name(&mut names, &v.name);
            assert(first.push(v.name@) =~= first + seq![v.name@]);
        },
        LambdaArgs::FixedAndRest(vs, v) => {
            push_variables(&mut names, vs);
            push_name(&mut names, &v.name);
            assert((first + variable_names(vs@)).push(v.name@) =~= first + variable_names(
                vs@,
            ).push(v.name@));
        },
    }
    let ghost second = first + formal_names(args@);
    let ghost defined = defined_names(definition_views(definitions@));
    let mut k: usize = 0;
    assert(second + defined.take(0) =~= second);
    while k < definitions.len()
        invariant
            k <= definitions@.len(),
            defined == defined_names(definition_views(definitions@)),
            texts(names@) == second + defined.take(k as int),
        decreases definitions@.len() - k,
    {
        push_name(&mut names, &definitions[k].variable.name);
        assert(definition_views(definitions@)[k as int].variable
            == definitions@[k as int].variable.name@);
        assert((second + defined.take(k as int)).push(defined[k as int]) =~= second + defined.take(
            k + 1,
        ));
        k += 1;
    }
    assert(defined.take(definitions@.len() as int) =~= defined);
    names
}

/// The first variable in the expression `e` that nothing binds, where `locals` are
/// the variables of the forms around the expression and `chain` are the scopes around
/// those, the innermost first. Who wants an unbound variable to
/// be an error where expressions are built asks this of what [`resolve`] gives.
pub fn unbound_in<'a>(e: &Expression, chain: &[&'a Scope], locals: &Vec<String>) -> (r: Option<
    String,
>)
    ensures
        name_found(r) == spec_unbound(e@, scope_views(chain@), texts(locals@)),
    decreases e,
{
    proof {
        lemma_expression_view(*e);
    }
    match e {
        Expression::Variable(v) => {
            if is_bound_variable(chain, locals, &v.name) {
                None
            } else {
                Some(v.name.clone())
            }
        },
        Expression::SelfEvaluating(_) => None,
        Expression::Quotation(_) => None,
        Expression::ProcedureCall(operator, operands) => {
            match unbound_in(operator, chain, locals) {
                Some(name) => Some(name),
                None => unbound_from(operands, chain, locals),
            }
        },
        Expression::Lambda(args, body) => {
            let inner = names_within(locals, args, &body.definitions);
            match unbound_values(&body.definitions, chain, &inner) {
                Some(name) => Some(name),
                None => match unbound_from(&body.commands, chain, &inner) {
                    Some(name) => Some(name),
                    None => unbound_in(&body.result, chain, &inner),
                },
            }
        },
        Expression::Conditional(test, consequent, alternate) => {
            match unbound_in(test, chain, locals) {
                Some(name) => Some(name),
                None => match unbound_in(consequent, chain, locals) {
                    Some(name) => Some(name),
                    None => match alternate {
                        Some(e) => unbound_in(e, chain, locals),
                        None => None,
                    },
                },
            }
        },
        Expression::Assignment(v, value) => {
            if is_bound_variable(chain, locals, &v.name) {
                unbound_in(value, chain, locals)
            } else {
                Some(v.name.clone())
            }
        },
        Expression::MacroUse(_, _) => None,
    }
}

} // verus!
