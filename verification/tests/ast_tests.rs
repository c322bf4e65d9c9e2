use oxyscheme::ast::{
    is_keyword, parse_scoped_expression, parse_scoped_list, resolve, resolve_name, unbound_in,
    Definition, Expression, LambdaArgs, LambdaBody, Lookup, Scope, SelfEvaluating, Variable,
};
use oxyscheme::lexer::LispNum;
use oxyscheme::parser::Datum;
use oxyscheme::syntax_rules::{Pattern, SyntaxRule, SyntaxRules, Template};
use oxyscheme::{CompilerError, SyntaxErrorKind};

fn id(name: &str) -> Datum {
    Datum::Identifier(name.to_string())
}

fn integer(n: i32) -> Datum {
    Datum::Number(LispNum::Integer(n))
}

fn list(items: Vec<Datum>) -> Datum {
    Datum::List(items)
}

fn var(name: &str) -> Variable {
    Variable {
        name: name.to_string(),
    }
}

fn variable(name: &str) -> Expression {
    Expression::Variable(var(name))
}

fn number(n: i32) -> Expression {
    Expression::SelfEvaluating(SelfEvaluating::Number(LispNum::Integer(n)))
}

fn call(operator: Expression, operands: Vec<Expression>) -> Expression {
    Expression::ProcedureCall(Box::new(operator), operands)
}

/// The expression for `d` at the top level, macros not expanded.
fn top(d: Datum) -> Result<Expression, CompilerError> {
    parse_scoped_expression(d, &[]).map(|scoped| scoped.expression)
}

/// The kind and the name of a syntax error.
fn syntax_error(r: Result<Expression, CompilerError>) -> (SyntaxErrorKind, String) {
    match r {
        Err(CompilerError::SyntaxError(kind, name)) => (kind, name),
        other => panic!("no syntax error: {:?}", other),
    }
}

/// `(swap! a b)` gives `((lambda (tmp) (set! a b) (set! b tmp)) a)`.
fn swap() -> SyntaxRules {
    let t = |name: &str| Template::Identifier(name.to_string());
    SyntaxRules {
        identifiers: Vec::new(),
        rules: vec![SyntaxRule {
            pattern: Pattern::List(vec![
                Pattern::Identifier("_".to_string()),
                Pattern::Identifier("a".to_string()),
                Pattern::Identifier("b".to_string()),
            ]),
            template: Template::List(vec![
                Template::List(vec![
                    t("lambda"),
                    Template::List(vec![t("tmp")]),
                    Template::List(vec![t("set!"), t("a"), t("b")]),
                    Template::List(vec![t("set!"), t("b"), t("tmp")]),
                ]),
                t("a"),
            ]),
        }],
    }
}

/// `(forever x)` gives `(forever x)`.
fn forever() -> SyntaxRules {
    SyntaxRules {
        identifiers: Vec::new(),
        rules: vec![SyntaxRule {
            pattern: Pattern::List(vec![
                Pattern::Identifier("_".to_string()),
                Pattern::Identifier("x".to_string()),
            ]),
            template: Template::List(vec![
                Template::Identifier("forever".to_string()),
                Template::Identifier("x".to_string()),
            ]),
        }],
    }
}

#[test]
fn test_assignment() {
    let input_datum = Datum::List(vec![
        Datum::Identifier("set!".to_string()),
        Datum::Identifier("x".to_string()),
        Datum::Number(LispNum::Integer(1)),
    ]);
    let parent_scope = &[];
    parse_scoped_expression(input_datum, parent_scope).unwrap();
}

#[test]
fn assignment_to_a_free_variable_is_read() {
    let input = list(vec![id("set!"), id("x"), integer(1)]);
    let scoped = parse_scoped_expression(input, &[]).unwrap();
    assert_eq!(
        scoped.expression,
        Expression::Assignment(var("x"), Box::new(number(1)))
    );
    assert_eq!(scoped.current_scope, Scope::new());
    assert!(scoped.parent_scope.is_empty());
    assert!(matches!(resolve_name(&[], "x"), Lookup::Free));
    let mut global = Scope::new();
    global.bind_variable("x".to_string()).unwrap();
    assert!(matches!(resolve_name(&[&global], "x"), Lookup::Variable));
    assert!(matches!(resolve_name(&[&global], "y"), Lookup::Free));
    let input = list(vec![id("set!"), id("x"), integer(1)]);
    let scoped = parse_scoped_expression(input, &[&global]).unwrap();
    assert_eq!(scoped.parent_scope.len(), 1);
}

#[test]
fn malformed_assignments() {
    for form in [
        vec![id("set!")],
        vec![id("set!"), id("x")],
        vec![id("set!"), id("x"), integer(1), integer(2)],
        vec![id("set!"), integer(1), integer(2)],
        vec![id("set!"), list(vec![id("x")]), integer(2)],
    ] {
        assert_eq!(
            syntax_error(top(list(form))),
            (SyntaxErrorKind::MalformedAssignment, String::new())
        );
    }
    assert_eq!(
        syntax_error(top(list(vec![id("set!"), id("x"), id("if")]))),
        (SyntaxErrorKind::ReservedWord, "if".to_string())
    );
}

#[test]
fn atoms_and_variables() {
    assert_eq!(top(id("x")).unwrap(), variable("x"));
    assert_eq!(top(integer(5)).unwrap(), number(5));
    assert_eq!(
        top(Datum::Boolean(true)).unwrap(),
        Expression::SelfEvaluating(SelfEvaluating::Boolean(true))
    );
    assert_eq!(
        top(Datum::Character('c')).unwrap(),
        Expression::SelfEvaluating(SelfEvaluating::Character('c'))
    );
    assert_eq!(
        top(Datum::String("s".to_string())).unwrap(),
        Expression::SelfEvaluating(SelfEvaluating::String("s".to_string()))
    );
    assert_eq!(
        top(Datum::Number(LispNum::Float("2.5".to_string()))).unwrap(),
        Expression::SelfEvaluating(SelfEvaluating::Number(LispNum::Float("2.5".to_string())))
    );
}

#[test]
fn reserved_words_are_no_variables() {
    for word in [
        "lambda",
        "if",
        "quote",
        "begin",
        "set!",
        "let-syntax",
        "letrec-syntax",
        "syntax-rules",
        "define",
        "define-syntax",
    ] {
        assert!(is_keyword(word));
        assert_eq!(
            syntax_error(top(id(word))),
            (SyntaxErrorKind::ReservedWord, word.to_string())
        );
        let mut scope = Scope::new();
        assert!(matches!(
            scope.bind_variable(word.to_string()),
            Err(CompilerError::SyntaxError(SyntaxErrorKind::ReservedWord, name)) if name == word
        ));
        assert!(!scope.has_variable(word));
    }
    for word in ["lambda2", "IF", "", "else", "let"] {
        assert!(!is_keyword(word));
    }
}

#[test]
fn quotations_keep_their_datum() {
    let quoted = list(vec![id("if"), list(vec![id("lambda")]), integer(1)]);
    assert_eq!(
        top(list(vec![id("quote"), quoted.clone()])).unwrap(),
        Expression::Quotation(quoted.clone())
    );
    assert_eq!(
        top(Datum::Quote(Box::new(quoted.clone()))).unwrap(),
        Expression::Quotation(quoted)
    );
    assert_eq!(
        syntax_error(top(list(vec![id("quote")]))),
        (SyntaxErrorKind::MalformedQuote, String::new())
    );
    assert_eq!(
        syntax_error(top(list(vec![id("quote"), integer(1), integer(2)]))),
        (SyntaxErrorKind::MalformedQuote, String::new())
    );
}

#[test]
fn data_that_are_no_expressions() {
    for d in [
        list(vec![]),
        Datum::Vector(vec![integer(1)]),
        Datum::DottedPair(vec![id("f")], Box::new(id("x"))),
        Datum::Backquote(Box::new(id("x"))),
        Datum::Unquote(Box::new(id("x"))),
        Datum::UnquoteSplice(Box::new(id("x"))),
    ] {
        assert_eq!(
            syntax_error(top(d)),
            (SyntaxErrorKind::NotAnExpression, String::new())
        );
    }
    for word in ["begin", "define", "syntax-rules", "define-syntax"] {
        assert_eq!(
            syntax_error(top(list(vec![id(word), id("x"), integer(1)]))),
            (SyntaxErrorKind::NotAnExpression, word.to_string())
        );
    }
}

#[test]
fn conditionals() {
    assert_eq!(
        top(list(vec![id("if"), id("a"), integer(1), integer(2)])).unwrap(),
        Expression::Conditional(
            Box::new(variable("a")),
            Box::new(number(1)),
            Some(Box::new(number(2)))
        )
    );
    assert_eq!(
        top(list(vec![id("if"), id("a"), integer(1)])).unwrap(),
        Expression::Conditional(Box::new(variable("a")), Box::new(number(1)), None)
    );
    for form in [
        vec![id("if")],
        vec![id("if"), id("a")],
        vec![id("if"), id("a"), integer(1), integer(2), integer(3)],
    ] {
        assert_eq!(
            syntax_error(top(list(form))),
            (SyntaxErrorKind::MalformedConditional, String::new())
        );
    }
    assert_eq!(
        syntax_error(top(list(vec![id("if"), id("a"), list(vec![]), id("quote")]))),
        (SyntaxErrorKind::NotAnExpression, String::new())
    );
}

#[test]
fn procedure_calls_read_from_left_to_right() {
    assert_eq!(
        top(list(vec![id("f"), integer(1), list(vec![id("g"), id("x")])])).unwrap(),
        call(
            variable("f"),
            vec![number(1), call(variable("g"), vec![variable("x")])]
        )
    );
    assert_eq!(top(list(vec![id("f")])).unwrap(), call(variable("f"), vec![]));
    assert_eq!(
        top(list(vec![list(vec![id("f")]), integer(1)])).unwrap(),
        call(call(variable("f"), vec![]), vec![number(1)])
    );
    assert_eq!(
        top(list(vec![integer(1), integer(2)])).unwrap(),
        call(number(1), vec![number(2)])
    );
    assert_eq!(
        syntax_error(top(list(vec![id("f"), id("if"), list(vec![])]))),
        (SyntaxErrorKind::ReservedWord, "if".to_string())
    );
    assert_eq!(
        syntax_error(top(list(vec![list(vec![]), id("if")]))),
        (SyntaxErrorKind::NotAnExpression, String::new())
    );
}

#[test]
fn lambda_with_each_kind_of_formals() {
    let body = |args| {
        Expression::Lambda(
            args,
            LambdaBody {
                definitions: vec![],
                commands: vec![],
                result: Box::new(variable("x")),
            },
        )
    };
    assert_eq!(
        top(list(vec![id("lambda"), list(vec![id("x"), id("y")]), id("x")])).unwrap(),
        body(LambdaArgs::Fixed(vec![var("x"), var("y")]))
    );
    assert_eq!(
        top(list(vec![id("lambda"), list(vec![]), id("x")])).unwrap(),
        body(LambdaArgs::Fixed(vec![]))
    );
    assert_eq!(
        top(list(vec![id("lambda"), id("args"), id("x")])).unwrap(),
        body(LambdaArgs::Rest(var("args")))
    );
    assert_eq!(
        top(list(vec![
            id("lambda"),
            Datum::DottedPair(vec![id("x"), id("y")], Box::new(id("z"))),
            id("x"),
        ]))
        .unwrap(),
        body(LambdaArgs::FixedAndRest(vec![var("x"), var("y")], var("z")))
    );
}

#[test]
fn malformed_lambdas() {
    for form in [
        vec![id("lambda")],
        vec![id("lambda"), list(vec![id("x")])],
        vec![id("lambda"), integer(1), id("x")],
        vec![id("lambda"), list(vec![id("x"), integer(1)]), id("x")],
        vec![id("lambda"), list(vec![list(vec![id("x")])]), id("x")],
        vec![
            id("lambda"),
            Datum::DottedPair(vec![id("x")], Box::new(integer(1))),
            id("x"),
        ],
        vec![id("lambda"), Datum::Vector(vec![id("x")]), id("x")],
    ] {
        assert_eq!(
            syntax_error(top(list(form))),
            (SyntaxErrorKind::MalformedLambda, String::new())
        );
    }
    for form in [
        vec![id("lambda"), id("define"), id("x")],
        vec![id("lambda"), list(vec![id("x"), id("define")]), id("x")],
        vec![
            id("lambda"),
            Datum::DottedPair(vec![id("x")], Box::new(id("define"))),
            id("x"),
        ],
    ] {
        assert_eq!(
            syntax_error(top(list(form))),
            (SyntaxErrorKind::ReservedWord, "define".to_string())
        );
    }
    assert_eq!(
        syntax_error(top(list(vec![
            id("lambda"),
            list(vec![id("if"), integer(1)]),
            id("x")
        ]))),
        (SyntaxErrorKind::ReservedWord, "if".to_string())
    );
}

#[test]
fn body_is_definitions_commands_and_a_result() {
    let define = |name: &str, value: Datum| list(vec![id("define"), id(name), value]);
    assert_eq!(
        top(list(vec![
            id("lambda"),
            list(vec![id("x")]),
            define("a", integer(1)),
            define("b", id("a")),
            list(vec![id("f"), id("a")]),
            list(vec![id("set!"), id("x"), id("b")]),
            id("x"),
        ]))
        .unwrap(),
        Expression::Lambda(
            LambdaArgs::Fixed(vec![var("x")]),
            LambdaBody {
                definitions: vec![
                    Definition {
                        variable: var("a"),
                        expression: number(1)
                    },
                    Definition {
                        variable: var("b"),
                        expression: variable("a")
                    },
                ],
                commands: vec![
                    call(variable("f"), vec![variable("a")]),
                    Expression::Assignment(var("x"), Box::new(variable("b"))),
                ],
                result: Box::new(variable("x")),
            }
        )
    );
    for body in [
        vec![define("a", integer(1))],
        vec![id("x"), define("a", integer(1))],
        vec![define("a", integer(1)), id("x"), define("b", integer(1)), id("x")],
        vec![list(vec![id("define"), id("a")]), id("x")],
        vec![list(vec![id("define"), id("a"), integer(1), integer(2)]), id("x")],
        vec![list(vec![id("define"), integer(1), integer(2)]), id("x")],
        vec![list(vec![id("define"), list(vec![id("f"), id("y")])]), id("x")],
        vec![list(vec![id("define"), list(vec![]), id("y")]), id("x")],
        vec![
            list(vec![id("define"), list(vec![integer(1), id("y")]), id("y")]),
            id("x"),
        ],
        vec![
            list(vec![
                id("define"),
                Datum::DottedPair(vec![], Box::new(id("y"))),
                id("y"),
            ]),
            id("x"),
        ],
        vec![list(vec![id("define")]), id("x")],
    ] {
        let mut form = vec![id("lambda"), list(vec![id("x")])];
        form.extend(body);
        assert_eq!(
            syntax_error(top(list(form))),
            (SyntaxErrorKind::MalformedBody, String::new())
        );
    }
    assert_eq!(
        syntax_error(top(list(vec![
            id("lambda"),
            list(vec![]),
            define("quote", integer(1)),
            id("x"),
        ]))),
        (SyntaxErrorKind::ReservedWord, "quote".to_string())
    );
    assert_eq!(
        syntax_error(top(list(vec![
            id("lambda"),
            list(vec![]),
            define("a", list(vec![])),
            list(vec![id("define"), id("b")]),
            id("x"),
        ]))),
        (SyntaxErrorKind::MalformedBody, String::new())
    );
    assert_eq!(
        syntax_error(top(list(vec![
            id("lambda"),
            list(vec![]),
            define("a", list(vec![])),
            id("if"),
        ]))),
        (SyntaxErrorKind::NotAnExpression, String::new())
    );
}

#[test]
fn scopes_bind_and_shadow() {
    let mut outer = Scope::new();
    outer.bind_macro("m".to_string(), swap());
    outer.bind_variable("v".to_string()).unwrap();
    let mut inner = Scope::new();
    inner.bind_variable("m".to_string()).unwrap();
    assert!(outer.find_macro("m").is_some());
    assert!(outer.find_macro("v").is_none());
    assert!(inner.has_variable("m"));
    assert!(!inner.has_variable("v"));
    assert!(matches!(resolve_name(&[&outer], "m"), Lookup::Macro(t, 0) if *t == swap()));
    assert!(matches!(resolve_name(&[&inner, &outer], "m"), Lookup::Variable));
    assert!(matches!(resolve_name(&[&outer, &inner], "m"), Lookup::Macro(_, 0)));
    assert!(matches!(resolve_name(&[&Scope::new(), &outer], "m"), Lookup::Macro(_, 1)));
    assert!(matches!(resolve_name(&[&outer, &inner], "v"), Lookup::Variable));
    assert!(matches!(resolve_name(&[&outer, &inner], "w"), Lookup::Free));
    let mut both = Scope::new();
    both.bind_macro("m".to_string(), swap());
    both.bind_macro("m".to_string(), forever());
    assert!(matches!(both.find_macro("m"), Some(t) if *t == forever()));
    both.bind_variable("m".to_string()).unwrap();
    assert!(matches!(resolve_name(&[&both], "m"), Lookup::Variable));
}

#[test]
fn uses_of_macros_stay_without_fuel() {
    let mut global = Scope::new();
    global.bind_macro("swap!".to_string(), swap());
    let form = list(vec![id("f"), list(vec![id("swap!"), id("x"), id("y")])]);
    let scoped = parse_scoped_expression(form, &[&global]).unwrap();
    assert_eq!(
        scoped.expression,
        call(
            variable("f"),
            vec![Expression::MacroUse(
                "swap!".to_string(),
                vec![id("x"), id("y")]
            )]
        )
    );
    let scoped =
        parse_scoped_list(vec![id("swap!"), id("x"), id("y")], &[&global]).unwrap();
    assert_eq!(
        scoped.expression,
        Expression::MacroUse("swap!".to_string(), vec![id("x"), id("y")])
    );
    let shadowed = list(vec![
        id("lambda"),
        list(vec![id("swap!")]),
        list(vec![id("swap!"), id("x"), id("y")]),
    ]);
    assert_eq!(
        parse_scoped_expression(shadowed, &[&global]).unwrap().expression,
        Expression::Lambda(
            LambdaArgs::Fixed(vec![var("swap!")]),
            LambdaBody {
                definitions: vec![],
                commands: vec![],
                result: Box::new(call(
                    variable("swap!"),
                    vec![variable("x"), variable("y")]
                )),
            }
        )
    );
}

#[test]
fn uses_of_macros_are_expanded_with_fuel() {
    let mut global = Scope::new();
    global.bind_macro("swap!".to_string(), swap());
    let expansion = |first: &str, second: &str, number: usize| {
        let tmp = format!("tmp#{}", number);
        call(
            Expression::Lambda(
                LambdaArgs::Fixed(vec![var(&tmp)]),
                LambdaBody {
                    definitions: vec![],
                    commands: vec![Expression::Assignment(
                        var(first),
                        Box::new(variable(second)),
                    )],
                    result: Box::new(Expression::Assignment(
                        var(second),
                        Box::new(variable(&tmp)),
                    )),
                },
            ),
            vec![variable(first)],
        )
    };
    let form = list(vec![
        id("f"),
        list(vec![id("swap!"), id("tmp"), id("other")]),
        list(vec![id("swap!"), id("x"), id("tmp")]),
    ]);
    let mut counter = 5;
    let expression = resolve(&form, &[&global], 1, &mut counter).unwrap();
    assert_eq!(counter, 7);
    assert_eq!(
        expression,
        call(
            variable("f"),
            vec![expansion("tmp", "other", 5), expansion("x", "tmp", 6)]
        )
    );
}

#[test]
fn fuel_bounds_the_expansions_in_a_row() {
    let mut global = Scope::new();
    global.bind_macro("forever".to_string(), forever());
    let form = list(vec![id("forever"), integer(1)]);
    for fuel in [0, 1, 5] {
        let mut counter = 0;
        assert_eq!(
            resolve(&form, &[&global], fuel, &mut counter).unwrap(),
            Expression::MacroUse("forever".to_string(), vec![integer(1)])
        );
        assert_eq!(counter, fuel);
    }
    let mut counter = usize::MAX;
    assert_eq!(
        resolve(&form, &[&global], 3, &mut counter).unwrap(),
        Expression::MacroUse("forever".to_string(), vec![integer(1)])
    );
    assert_eq!(counter, usize::MAX);
}

#[test]
fn errors_of_expansions_name_the_macro() {
    let mut global = Scope::new();
    global.bind_macro("swap!".to_string(), swap());
    let mut counter = 0;
    assert_eq!(
        syntax_error(resolve(
            &list(vec![id("swap!"), id("x")]),
            &[&global],
            1,
            &mut counter
        )),
        (SyntaxErrorKind::NoMatchingRule, "swap!".to_string())
    );
    assert_eq!(counter, 0);
    assert_eq!(
        syntax_error(resolve(
            &list(vec![id("swap!"), id("x"), integer(1)]),
            &[&global],
            1,
            &mut counter
        )),
        (SyntaxErrorKind::MalformedAssignment, String::new())
    );
    assert_eq!(counter, 1);
}

/// The first datum that the source text writes.
fn read(text: &str) -> Datum {
    let lines: Vec<Result<String, String>> =
        text.lines().map(|line| Ok(line.to_string())).collect();
    let tokens = oxyscheme::reader::without_blanks(&oxyscheme::reader::read_tokens(&lines));
    oxyscheme::reader::DatumIterator::new(tokens)
        .next()
        .unwrap()
        .unwrap()
}

#[test]
fn let_syntax_binds_macros_for_its_body() {
    let form = read(
        "(let-syntax ((swap! (syntax-rules ()
                               ((_ a b) ((lambda (tmp) (set! a b) (set! b tmp)) a)))))
           (define tmp 1)
           (swap! tmp other)
           tmp)",
    );
    let mut counter = 0;
    let expression = resolve(&form, &[], 4, &mut counter).unwrap();
    assert_eq!(counter, 1);
    assert_eq!(
        expression,
        call(
            Expression::Lambda(
                LambdaArgs::Fixed(vec![]),
                LambdaBody {
                    definitions: vec![Definition {
                        variable: var("tmp"),
                        expression: number(1)
                    }],
                    commands: vec![call(
                        Expression::Lambda(
                            LambdaArgs::Fixed(vec![var("tmp#0")]),
                            LambdaBody {
                                definitions: vec![],
                                commands: vec![Expression::Assignment(
                                    var("tmp"),
                                    Box::new(variable("other"))
                                )],
                                result: Box::new(Expression::Assignment(
                                    var("other"),
                                    Box::new(variable("tmp#0"))
                                )),
                            }
                        ),
                        vec![variable("tmp")]
                    )],
                    result: Box::new(variable("tmp")),
                }
            ),
            vec![]
        )
    );
    let unexpanded = top(form).unwrap();
    match unexpanded {
        Expression::ProcedureCall(operator, _) => match *operator {
            Expression::Lambda(_, body) => assert_eq!(
                body.commands,
                vec![Expression::MacroUse(
                    "swap!".to_string(),
                    vec![id("tmp"), id("other")]
                )]
            ),
            other => panic!("no lambda: {:?}", other),
        },
        other => panic!("no call: {:?}", other),
    }
}

#[test]
fn macros_that_use_themselves_are_expanded_in_turn() {
    let form = read(
        "(letrec-syntax ((my-or (syntax-rules ()
                                  ((_) #f)
                                  ((_ e) e)
                                  ((_ e r ...) ((lambda (t) (if t t (my-or r ...))) e)))))
           (my-or a b c))",
    );
    let inner = |number: usize, first: &str, rest: Expression| {
        let t = format!("t#{}", number);
        call(
            Expression::Lambda(
                LambdaArgs::Fixed(vec![var(&t)]),
                LambdaBody {
                    definitions: vec![],
                    commands: vec![],
                    result: Box::new(Expression::Conditional(
                        Box::new(variable(&t)),
                        Box::new(variable(&t)),
                        Some(Box::new(rest)),
                    )),
                },
            ),
            vec![variable(first)],
        )
    };
    let body_result = |e: Expression| match e {
        Expression::ProcedureCall(operator, _) => match *operator {
            Expression::Lambda(_, body) => *body.result,
            other => panic!("no lambda: {:?}", other),
        },
        other => panic!("no call: {:?}", other),
    };
    let mut counter = 0;
    let expression = resolve(&form, &[], 3, &mut counter).unwrap();
    assert_eq!(counter, 3);
    assert_eq!(
        body_result(expression),
        inner(0, "a", inner(1, "b", variable("c")))
    );
    let mut counter = 0;
    let expression = resolve(&form, &[], 2, &mut counter).unwrap();
    assert_eq!(counter, 2);
    assert_eq!(
        body_result(expression),
        inner(
            0,
            "a",
            inner(
                1,
                "b",
                Expression::MacroUse("my-or".to_string(), vec![id("c")])
            )
        )
    );
}

#[test]
fn malformed_let_syntax() {
    for text in [
        "(let-syntax)",
        "(let-syntax ())",
        "(let-syntax x y)",
        "(let-syntax (x) y)",
        "(let-syntax ((x)) y)",
        "(let-syntax ((1 (syntax-rules ()))) y)",
        "(letrec-syntax ((x (syntax-rules ()) z)) y)",
    ] {
        assert_eq!(
            syntax_error(top(read(text))),
            (SyntaxErrorKind::MalformedSyntaxBinding, String::new()),
            "on {}",
            text
        );
    }
    for text in [
        "(let-syntax ((x 1)) y)",
        "(let-syntax ((x (syntax-rules))) y)",
        "(let-syntax ((x (syntax-rules (1)))) y)",
        "(let-syntax ((x (syntax-rules () (a)))) y)",
        "(let-syntax ((x (syntax-rules () ((... a) b)))) y)",
        "(let-syntax ((x (lambda () 1))) y)",
    ] {
        assert_eq!(
            syntax_error(top(read(text))),
            (SyntaxErrorKind::MalformedSyntaxRules, String::new()),
            "on {}",
            text
        );
    }
    assert_eq!(
        syntax_error(top(read("(let-syntax () (define x 1))"))),
        (SyntaxErrorKind::MalformedBody, String::new())
    );
    assert_eq!(
        top(read("(let-syntax () 1)")).unwrap(),
        call(
            Expression::Lambda(
                LambdaArgs::Fixed(vec![]),
                LambdaBody {
                    definitions: vec![],
                    commands: vec![],
                    result: Box::new(number(1)),
                }
            ),
            vec![]
        )
    );
}

#[test]
fn identifiers_of_a_template_are_not_caught_where_it_is_used() {
    let captured = read(
        "(let-syntax ((m (syntax-rules () ((_ x) (f x)))))
           ((lambda (f) (m 1)) 2))",
    );
    let mut counter = 0;
    assert_eq!(
        syntax_error(resolve(&captured, &[], 1, &mut counter)),
        (SyntaxErrorKind::CapturedIdentifier, "f".to_string())
    );
    assert_eq!(counter, 0);
    assert!(top(captured).is_ok());
    let by_a_definition = read(
        "(let-syntax ((m (syntax-rules () ((_ x) (f x)))))
           (lambda () (define f 1) (m 1)))",
    );
    assert_eq!(
        syntax_error(resolve(&by_a_definition, &[], 1, &mut counter)),
        (SyntaxErrorKind::CapturedIdentifier, "f".to_string())
    );
    let by_a_macro = read(
        "(let-syntax ((m (syntax-rules () ((_ x) (f x)))))
           (let-syntax ((f (syntax-rules ())))
             (m 1)))",
    );
    assert_eq!(
        syntax_error(resolve(&by_a_macro, &[], 1, &mut counter)),
        (SyntaxErrorKind::CapturedIdentifier, "f".to_string())
    );
    let free = read(
        "((lambda (f)
            (let-syntax ((m (syntax-rules () ((_ x) (f x)))))
              ((lambda (g x) (m x)) 2 3)))
          car)",
    );
    let mut counter = 0;
    assert!(resolve(&free, &[], 1, &mut counter).is_ok());
    assert_eq!(counter, 1);
    let same_scope = read(
        "(let-syntax ((m (syntax-rules () ((_ x) (f x)))))
           (define f car)
           (m 1))",
    );
    assert!(resolve(&same_scope, &[], 1, &mut counter).is_ok());
    let given_by_the_use = read(
        "(let-syntax ((m (syntax-rules () ((_ f x) (f x)))))
           ((lambda (f) (m f 1)) 2))",
    );
    assert!(resolve(&given_by_the_use, &[], 1, &mut counter).is_ok());
}

#[test]
fn definitions_of_procedures() {
    let body = |result: &str| LambdaBody {
        definitions: vec![],
        commands: vec![],
        result: Box::new(variable(result)),
    };
    assert_eq!(
        top(read(
            "(lambda ()
               (define (f x y) (g x) y)
               (define (g . rest) rest)
               (define (h a . rest) a)
               (define k f)
               (f 1 2))"
        ))
        .unwrap(),
        Expression::Lambda(
            LambdaArgs::Fixed(vec![]),
            LambdaBody {
                definitions: vec![
                    Definition {
                        variable: var("f"),
                        expression: Expression::Lambda(
                            LambdaArgs::Fixed(vec![var("x"), var("y")]),
                            LambdaBody {
                                definitions: vec![],
                                commands: vec![call(variable("g"), vec![variable("x")])],
                                result: Box::new(variable("y")),
                            }
                        ),
                    },
                    Definition {
                        variable: var("g"),
                        expression: Expression::Lambda(
                            LambdaArgs::Rest(var("rest")),
                            body("rest")
                        ),
                    },
                    Definition {
                        variable: var("h"),
                        expression: Expression::Lambda(
                            LambdaArgs::FixedAndRest(vec![var("a")], var("rest")),
                            body("a")
                        ),
                    },
                    Definition {
                        variable: var("k"),
                        expression: variable("f"),
                    },
                ],
                commands: vec![],
                result: Box::new(call(variable("f"), vec![number(1), number(2)])),
            }
        )
    );
    assert_eq!(
        syntax_error(top(read("(lambda () (define (f x 1) x) f)"))),
        (SyntaxErrorKind::MalformedLambda, String::new())
    );
    assert_eq!(
        syntax_error(top(read("(lambda () (define (f if) 1) f)"))),
        (SyntaxErrorKind::ReservedWord, "if".to_string())
    );
    assert_eq!(
        syntax_error(top(read("(lambda () (define (if x) 1) f)"))),
        (SyntaxErrorKind::ReservedWord, "if".to_string())
    );
    assert_eq!(
        syntax_error(top(read("(lambda () (define (f x) (define y 1)) f)"))),
        (SyntaxErrorKind::MalformedBody, String::new())
    );
}

#[test]
fn expression_with_an_empty_scope_of_its_own() {
    let mut global = Scope::new();
    global.bind_variable("x".to_string()).unwrap();
    let mut local = Scope::new();
    local.bind_variable("y".to_string()).unwrap();
    let scoped = number(1).scopify_with_empty_scope(&[&global, &local]);
    assert_eq!(scoped.expression, number(1));
    assert_eq!(scoped.current_scope, Scope::new());
    assert_eq!(scoped.parent_scope, vec![&global, &local]);
    let mut counter = 9;
    assert_eq!(
        oxyscheme::ast::resolve_form(&vec![id("f"), id("x")], &[&global], 0, &mut counter)
            .unwrap(),
        call(variable("f"), vec![variable("x")])
    );
    assert_eq!(counter, 9);
}

#[test]
fn assignment_to_a_free_variable_under_either_policy() {
    let assignment = || list(vec![id("set!"), id("x"), integer(1)]);
    let expression = parse_scoped_expression(assignment(), &[]).unwrap().expression;
    assert_eq!(
        unbound_in(&expression, &[], &Vec::new()),
        Some("x".to_string())
    );
    let mut global = Scope::new();
    global.bind_variable("x".to_string()).unwrap();
    let expression = parse_scoped_expression(assignment(), &[&global])
        .unwrap()
        .expression;
    assert_eq!(unbound_in(&expression, &[&global], &Vec::new()), None);
    assert_eq!(
        unbound_in(&expression, &[], &vec!["y".to_string(), "x".to_string()]),
        None
    );
}

#[test]
fn first_variable_that_nothing_binds() {
    let mut global = Scope::new();
    global.bind_variable("+".to_string()).unwrap();
    global.bind_variable("car".to_string()).unwrap();
    global.bind_macro("m".to_string(), swap());
    let unbound = |text: &str| {
        let expression = top(read(text)).unwrap();
        unbound_in(&expression, &[&global], &Vec::new())
    };
    assert_eq!(unbound("car"), None);
    assert_eq!(unbound("cdr"), Some("cdr".to_string()));
    assert_eq!(unbound("m"), Some("m".to_string()));
    assert_eq!(unbound("42"), None);
    assert_eq!(unbound("'(a b c)"), None);
    assert_eq!(unbound("(quote a)"), None);
    assert_eq!(unbound("(+ 1 (car x) y)"), Some("x".to_string()));
    assert_eq!(unbound("(f car)"), Some("f".to_string()));
    assert_eq!(unbound("(if a b c)"), Some("a".to_string()));
    assert_eq!(unbound("(if car b c)"), Some("b".to_string()));
    assert_eq!(unbound("(if car car c)"), Some("c".to_string()));
    assert_eq!(unbound("(if car car)"), None);
    assert_eq!(unbound("(set! car y)"), Some("y".to_string()));
    assert_eq!(unbound("(set! z car)"), Some("z".to_string()));
    assert_eq!(unbound("(lambda (x y) (+ x y))"), None);
    assert_eq!(unbound("(lambda (x . y) (+ x y z))"), Some("z".to_string()));
    assert_eq!(unbound("(lambda args (car args))"), None);
    assert_eq!(unbound("((lambda (x) x) x)"), Some("x".to_string()));
    assert_eq!(
        unbound("(lambda (x) (define (even n) (odd n)) (define (odd n) (even x)) (even q) x)"),
        Some("q".to_string())
    );
    assert_eq!(
        unbound("(lambda () (define a b) (define b 1) c)"),
        Some("c".to_string())
    );
    assert_eq!(unbound("(lambda () (define a u) 1)"), Some("u".to_string()));
    assert_eq!(unbound("(lambda (x) (lambda (y) (x y z)))"), Some("z".to_string()));
    assert_eq!(unbound("(lambda (m) (m 1 2))"), None);
}
