use oxyscheme::lexer::LispNum;
use oxyscheme::parser::Datum;
use oxyscheme::syntax_rules::{
    atom_equal, expand, find_binding, instantiate, make_fresh_name, match_pattern, match_use, parse_pattern, parse_syntax_rules,
    parse_template, select_rule, template_identifiers, write_template,
    pattern_variables, template_binders, template_mentions, Binding, Bound, Pattern, SyntaxRule,
    SyntaxRules, Template,
};
use oxyscheme::{CompilerError, SyntaxErrorKind};

fn id(name: &str) -> Datum {
    Datum::Identifier(name.to_string())
}

fn integer(n: i32) -> Datum {
    Datum::Number(LispNum::Integer(n))
}

fn list(items: Vec<Datum>) -> Datum {
    Datum::List(items)
}

fn pid(name: &str) -> Pattern {
    Pattern::Identifier(name.to_string())
}

fn tid(name: &str) -> Template {
    Template::Identifier(name.to_string())
}

fn repeated(t: Template) -> Template {
    Template::Ellipsis(Box::new(t))
}

fn bound(name: &str, binding: Binding) -> Bound {
    Bound {
        name: name.to_string(),
        binding,
    }
}

fn one(d: Datum) -> Binding {
    Binding::One(d)
}

fn no_literals() -> Vec<String> {
    Vec::new()
}

/// `(my-or)` gives `#f`, `(my-or e)` gives `e`, and `(my-or e r ...)` gives
/// `((lambda (tmp) (if tmp tmp (my-or r ...))) e)`.
fn my_or() -> SyntaxRules {
    SyntaxRules {
        identifiers: Vec::new(),
        rules: vec![
            SyntaxRule {
                pattern: Pattern::List(vec![pid("_")]),
                template: Template::Datum(Datum::Boolean(false)),
            },
            SyntaxRule {
                pattern: Pattern::List(vec![pid("_"), pid("e")]),
                template: tid("e"),
            },
            SyntaxRule {
                pattern: Pattern::EllipsisList(
                    vec![pid("_"), pid("e")],
                    Box::new(pid("r")),
                    vec![],
                ),
                template: Template::List(vec![
                    Template::List(vec![
                        tid("lambda"),
                        Template::List(vec![tid("tmp")]),
                        Template::List(vec![
                            tid("if"),
                            tid("tmp"),
                            tid("tmp"),
                            Template::List(vec![tid("my-or"), repeated(tid("r"))]),
                        ]),
                    ]),
                    tid("e"),
                ]),
            },
        ],
    }
}

#[test]
fn variable_matches_anything() {
    let d = list(vec![id("a"), integer(1)]);
    assert_eq!(
        match_pattern(&pid("x"), &d, &no_literals()),
        Some(vec![bound("x", one(d.clone()))])
    );
}

#[test]
fn literal_matches_itself_only() {
    let literals = vec!["else".to_string()];
    assert_eq!(match_pattern(&pid("else"), &id("else"), &literals), Some(vec![]));
    assert_eq!(match_pattern(&pid("else"), &id("other"), &literals), None);
    assert_eq!(match_pattern(&pid("else"), &integer(1), &literals), None);
}

#[test]
fn atoms_match_their_equals() {
    let p = Pattern::Datum(integer(1));
    assert_eq!(match_pattern(&p, &integer(1), &no_literals()), Some(vec![]));
    assert_eq!(match_pattern(&p, &integer(2), &no_literals()), None);
    assert_eq!(match_pattern(&p, &id("x"), &no_literals()), None);
    assert!(atom_equal(
        &Datum::String("s".to_string()),
        &Datum::String("s".to_string())
    ));
    assert!(atom_equal(&Datum::Character('c'), &Datum::Character('c')));
    assert!(atom_equal(&Datum::Boolean(true), &Datum::Boolean(true)));
    assert!(atom_equal(
        &Datum::Number(LispNum::Float("1.5".to_string())),
        &Datum::Number(LispNum::Float("1.5".to_string()))
    ));
    assert!(!atom_equal(&Datum::Character('c'), &Datum::Character('d')));
    assert!(!atom_equal(&list(vec![]), &list(vec![])));
    assert!(!atom_equal(&id("a"), &id("a")));
}

#[test]
fn lists_and_vectors_match_element_by_element() {
    let p = Pattern::List(vec![pid("a"), Pattern::Vector(vec![pid("b"), pid("c")])]);
    let d = list(vec![integer(1), Datum::Vector(vec![integer(2), integer(3)])]);
    assert_eq!(
        match_pattern(&p, &d, &no_literals()),
        Some(vec![
            bound("a", one(integer(1))),
            bound("b", one(integer(2))),
            bound("c", one(integer(3))),
        ])
    );
    assert_eq!(
        match_pattern(&p, &list(vec![integer(1)]), &no_literals()),
        None
    );
    assert_eq!(
        match_pattern(&p, &list(vec![integer(1), list(vec![integer(2), integer(3)])]), &no_literals()),
        None
    );
    assert_eq!(
        match_pattern(&Pattern::List(vec![]), &list(vec![]), &no_literals()),
        Some(vec![])
    );
}

#[test]
fn pair_matches_what_is_left_with_its_tail() {
    let p = Pattern::Pair(vec![pid("a")], Box::new(pid("rest")));
    assert_eq!(
        match_pattern(&p, &list(vec![integer(1), integer(2), integer(3)]), &no_literals()),
        Some(vec![
            bound("a", one(integer(1))),
            bound("rest", one(list(vec![integer(2), integer(3)]))),
        ])
    );
    assert_eq!(
        match_pattern(&p, &list(vec![integer(1)]), &no_literals()),
        Some(vec![bound("a", one(integer(1))), bound("rest", one(list(vec![])))])
    );
    assert_eq!(
        match_pattern(
            &p,
            &Datum::DottedPair(vec![integer(1)], Box::new(integer(2))),
            &no_literals()
        ),
        Some(vec![bound("a", one(integer(1))), bound("rest", one(integer(2)))])
    );
    assert_eq!(
        match_pattern(
            &p,
            &Datum::DottedPair(vec![integer(1), integer(2)], Box::new(integer(3))),
            &no_literals()
        ),
        Some(vec![
            bound("a", one(integer(1))),
            bound(
                "rest",
                one(Datum::DottedPair(vec![integer(2)], Box::new(integer(3))))
            ),
        ])
    );
    assert_eq!(match_pattern(&p, &list(vec![]), &no_literals()), None);
    assert_eq!(match_pattern(&p, &integer(1), &no_literals()), None);
}

#[test]
fn ellipsis_binds_once_for_each_element() {
    let p = Pattern::EllipsisList(vec![pid("_")], Box::new(pid("name")), vec![]);
    for k in 0..5 {
        let args: Vec<Datum> = (0..k).map(integer).collect();
        let bindings = match_use(&p, &args, &no_literals()).unwrap();
        assert_eq!(
            bindings,
            vec![bound(
                "name",
                Binding::Many(args.iter().map(|d| one(d.clone())).collect())
            )]
        );
        match &bindings[0].binding {
            Binding::Many(bs) => assert_eq!(bs.len(), k as usize),
            Binding::One(_) => panic!("bound once"),
        }
    }
}

#[test]
fn ellipsis_leaves_the_last_patterns_their_elements() {
    let p = Pattern::EllipsisList(vec![pid("a")], Box::new(pid("m")), vec![pid("y"), pid("z")]);
    let d = list(vec![integer(1), integer(2), integer(3), integer(4), integer(5)]);
    assert_eq!(
        match_pattern(&p, &d, &no_literals()),
        Some(vec![
            bound("a", one(integer(1))),
            bound("m", Binding::Many(vec![one(integer(2)), one(integer(3))])),
            bound("y", one(integer(4))),
            bound("z", one(integer(5))),
        ])
    );
    assert_eq!(
        match_pattern(&p, &list(vec![integer(1), integer(2), integer(3)]), &no_literals()),
        Some(vec![
            bound("a", one(integer(1))),
            bound("m", Binding::Many(vec![])),
            bound("y", one(integer(2))),
            bound("z", one(integer(3))),
        ])
    );
    assert_eq!(
        match_pattern(&p, &list(vec![integer(1), integer(2)]), &no_literals()),
        None
    );
}

#[test]
fn ellipsis_over_a_pattern_with_parts() {
    let p = Pattern::EllipsisVector(
        vec![],
        Box::new(Pattern::List(vec![pid("k"), pid("v")])),
        vec![],
    );
    let d = Datum::Vector(vec![
        list(vec![id("a"), integer(1)]),
        list(vec![id("b"), integer(2)]),
    ]);
    assert_eq!(
        match_pattern(&p, &d, &no_literals()),
        Some(vec![
            bound("k", Binding::Many(vec![one(id("a")), one(id("b"))])),
            bound("v", Binding::Many(vec![one(integer(1)), one(integer(2))])),
        ])
    );
    let bad = Datum::Vector(vec![list(vec![id("a"), integer(1)]), id("b")]);
    assert_eq!(match_pattern(&p, &bad, &no_literals()), None);
    assert_eq!(
        match_pattern(&p, &Datum::Vector(vec![]), &no_literals()),
        Some(vec![
            bound("k", Binding::Many(vec![])),
            bound("v", Binding::Many(vec![])),
        ])
    );
}

#[test]
fn variables_of_a_pattern_in_order() {
    let p = Pattern::EllipsisList(
        vec![pid("_"), Pattern::Pair(vec![pid("a")], Box::new(pid("b")))],
        Box::new(Pattern::Vector(vec![pid("c"), pid("else"), Pattern::Datum(integer(1))])),
        vec![pid("d")],
    );
    assert_eq!(
        pattern_variables(&p, &vec!["else".to_string()]),
        vec!["_", "a", "b", "c", "d"]
    );
}

#[test]
fn use_matches_without_its_keyword() {
    let p = Pattern::List(vec![Pattern::Datum(integer(0)), pid("a"), pid("b")]);
    assert_eq!(
        match_use(&p, &vec![integer(1), integer(2)], &no_literals()),
        Some(vec![bound("a", one(integer(1))), bound("b", one(integer(2)))])
    );
    assert_eq!(match_use(&p, &vec![integer(1)], &no_literals()), None);
    assert_eq!(match_use(&pid("x"), &vec![], &no_literals()), None);
    assert_eq!(
        match_use(&Pattern::List(vec![]), &vec![], &no_literals()),
        None
    );
    let pair = Pattern::Pair(vec![pid("_"), pid("a")], Box::new(pid("rest")));
    assert_eq!(
        match_use(&pair, &vec![integer(1), integer(2), integer(3)], &no_literals()),
        Some(vec![
            bound("a", one(integer(1))),
            bound("rest", one(list(vec![integer(2), integer(3)]))),
        ])
    );
}

#[test]
fn template_writes_bindings_and_identifiers() {
    let env = vec![
        bound("x", one(integer(7))),
        bound("x", one(integer(8))),
        bound("ys", Binding::Many(vec![one(integer(1)), one(integer(2))])),
    ];
    let none: Vec<String> = Vec::new();
    assert_eq!(instantiate(&tid("x"), &env, &none, 0), Some(integer(7)));
    assert_eq!(instantiate(&tid("free"), &env, &none, 0), Some(id("free")));
    assert_eq!(instantiate(&tid("ys"), &env, &none, 0), None);
    assert_eq!(
        instantiate(&Template::Datum(Datum::Character('c')), &env, &none, 0),
        Some(Datum::Character('c'))
    );
    assert_eq!(
        instantiate(
            &Template::List(vec![tid("f"), repeated(tid("ys")), tid("x")]),
            &env,
            &none,
            0
        ),
        Some(list(vec![id("f"), integer(1), integer(2), integer(7)]))
    );
    assert_eq!(
        instantiate(
            &Template::Vector(vec![repeated(Template::List(vec![tid("x"), tid("ys")]))]),
            &env,
            &none,
            0
        ),
        Some(Datum::Vector(vec![
            list(vec![integer(7), integer(1)]),
            list(vec![integer(7), integer(2)]),
        ]))
    );
    assert_eq!(instantiate(&repeated(tid("ys")), &env, &none, 0), None);
    assert!(matches!(find_binding(&env, &"x".to_string()), Some(Binding::One(d)) if *d == integer(7)));
    assert!(find_binding(&env, &"z".to_string()).is_none());
}

#[test]
fn dotted_template_goes_on_with_its_tail() {
    let env = vec![
        bound("rest", one(list(vec![integer(2), integer(3)]))),
        bound("atom", one(integer(9))),
        bound("pair", one(Datum::DottedPair(vec![integer(4)], Box::new(integer(5))))),
    ];
    let none: Vec<String> = Vec::new();
    let with_tail = |tail: &str| Template::Pair(vec![tid("a")], Box::new(tid(tail)));
    assert_eq!(
        instantiate(&with_tail("rest"), &env, &none, 0),
        Some(list(vec![id("a"), integer(2), integer(3)]))
    );
    assert_eq!(
        instantiate(&with_tail("atom"), &env, &none, 0),
        Some(Datum::DottedPair(vec![id("a")], Box::new(integer(9))))
    );
    assert_eq!(
        instantiate(&with_tail("pair"), &env, &none, 0),
        Some(Datum::DottedPair(vec![id("a"), integer(4)], Box::new(integer(5))))
    );
    assert_eq!(
        instantiate(&Template::Pair(vec![], Box::new(tid("atom"))), &env, &none, 0),
        Some(integer(9))
    );
}

#[test]
fn ellipsis_needs_variables_bound_equally_often() {
    let env = vec![
        bound("a", Binding::Many(vec![one(integer(1)), one(integer(2))])),
        bound("b", Binding::Many(vec![one(integer(3))])),
        bound("c", one(integer(4))),
    ];
    let none: Vec<String> = Vec::new();
    let both = Template::List(vec![repeated(Template::List(vec![tid("a"), tid("b")]))]);
    assert_eq!(instantiate(&both, &env, &none, 0), None);
    let unbound = Template::List(vec![repeated(tid("c"))]);
    assert_eq!(instantiate(&unbound, &env, &none, 0), None);
    let nested = Template::List(vec![repeated(repeated(tid("a")))]);
    assert_eq!(instantiate(&nested, &env, &none, 0), None);
}

#[test]
fn nested_ellipsis_is_written_level_by_level() {
    let p = Pattern::EllipsisList(
        vec![pid("_")],
        Box::new(Pattern::EllipsisList(vec![pid("k")], Box::new(pid("v")), vec![])),
        vec![],
    );
    let args = vec![
        list(vec![id("a"), integer(1), integer(2)]),
        list(vec![id("b")]),
        list(vec![id("c"), integer(3)]),
    ];
    let env = match_use(&p, &args, &no_literals()).unwrap();
    let t = Template::List(vec![repeated(Template::Vector(vec![
        tid("k"),
        repeated(tid("v")),
    ]))]);
    assert_eq!(
        instantiate(&t, &env, &Vec::new(), 0),
        Some(list(vec![
            Datum::Vector(vec![id("a"), integer(1), integer(2)]),
            Datum::Vector(vec![id("b")]),
            Datum::Vector(vec![id("c"), integer(3)]),
        ]))
    );
}

#[test]
fn fresh_names_are_base_mark_and_number() {
    assert_eq!(make_fresh_name(&"tmp".to_string(), 0), "tmp#0");
    assert_eq!(make_fresh_name(&"tmp".to_string(), 7), "tmp#7");
    assert_eq!(make_fresh_name(&"x".to_string(), 10), "x#10");
    assert_eq!(make_fresh_name(&"".to_string(), 9876543210), "#9876543210");
    assert_eq!(
        make_fresh_name(&"a#1".to_string(), usize::MAX),
        format!("a#1#{}", usize::MAX)
    );
}

#[test]
fn template_binds_what_lambda_and_define_bind() {
    let t = Template::List(vec![
        tid("begin"),
        Template::List(vec![
            tid("lambda"),
            Template::Pair(vec![tid("a"), tid("b")], Box::new(tid("c"))),
            Template::List(vec![tid("define"), tid("d"), tid("e")]),
            tid("a"),
        ]),
        Template::List(vec![tid("f"), tid("g")]),
        Template::List(vec![tid("lambda")]),
    ]);
    assert_eq!(template_binders(&t), vec!["a", "b", "c", "d"]);
    assert!(template_mentions(&t, &"g".to_string()));
    assert!(!template_mentions(&t, &"h".to_string()));
}

#[test]
fn first_matching_rule_is_taken() {
    let rules = my_or();
    let keyword = "my-or".to_string();
    assert_eq!(
        expand(&rules, &keyword, &vec![], 0).unwrap(),
        Datum::Boolean(false)
    );
    assert_eq!(expand(&rules, &keyword, &vec![id("x")], 0).unwrap(), id("x"));
    assert_eq!(
        expand(&rules, &keyword, &vec![id("x"), id("y"), id("z")], 3).unwrap(),
        list(vec![
            list(vec![
                id("lambda"),
                list(vec![id("tmp#3")]),
                list(vec![
                    id("if"),
                    id("tmp#3"),
                    id("tmp#3"),
                    list(vec![id("my-or"), id("y"), id("z")]),
                ]),
            ]),
            id("x"),
        ])
    );
}

#[test]
fn expansions_keep_their_names_apart() {
    let rules = my_or();
    let keyword = "my-or".to_string();
    let bound_name = |d: &Datum| match d {
        Datum::List(call) => match &call[0] {
            Datum::List(lambda) => match &lambda[1] {
                Datum::List(formals) => formals[0].clone(),
                _ => panic!(),
            },
            _ => panic!(),
        },
        _ => panic!(),
    };
    let first = expand(&rules, &keyword, &vec![id("tmp"), id("other")], 0).unwrap();
    let second = expand(&rules, &keyword, &vec![integer(1), id("tmp")], 1).unwrap();
    assert_ne!(bound_name(&first), id("tmp"));
    assert_ne!(bound_name(&second), id("tmp"));
    assert_ne!(bound_name(&first), bound_name(&second));
    assert_eq!(
        first,
        list(vec![
            list(vec![
                id("lambda"),
                list(vec![id("tmp#0")]),
                list(vec![
                    id("if"),
                    id("tmp#0"),
                    id("tmp#0"),
                    list(vec![id("my-or"), id("other")]),
                ]),
            ]),
            id("tmp"),
        ])
    );
}

#[test]
fn no_rule_and_no_way_to_write() {
    let rules = SyntaxRules {
        identifiers: vec!["=>".to_string()],
        rules: vec![
            SyntaxRule {
                pattern: Pattern::List(vec![pid("_"), pid("a"), pid("=>"), pid("b")]),
                template: Template::List(vec![tid("b"), tid("a")]),
            },
            SyntaxRule {
                pattern: Pattern::EllipsisList(vec![pid("_")], Box::new(pid("a")), vec![]),
                template: tid("a"),
            },
        ],
    };
    let keyword = "m".to_string();
    assert_eq!(
        expand(&rules, &keyword, &vec![integer(1), id("=>"), id("f")], 0).unwrap(),
        list(vec![id("f"), integer(1)])
    );
    assert!(matches!(
        expand(&rules, &keyword, &vec![integer(1), id("then"), id("f")], 0),
        Err(CompilerError::SyntaxError(SyntaxErrorKind::EllipsisMismatch, name)) if name == "m"
    ));
    let strict = SyntaxRules {
        identifiers: Vec::new(),
        rules: vec![SyntaxRule {
            pattern: Pattern::List(vec![pid("_"), pid("a")]),
            template: tid("a"),
        }],
    };
    assert!(matches!(
        expand(&strict, &keyword, &vec![], 0),
        Err(CompilerError::SyntaxError(SyntaxErrorKind::NoMatchingRule, name)) if name == "m"
    ));
    let empty = SyntaxRules {
        identifiers: Vec::new(),
        rules: Vec::new(),
    };
    assert!(matches!(
        expand(&empty, &keyword, &vec![], 0),
        Err(CompilerError::SyntaxError(SyntaxErrorKind::NoMatchingRule, _))
    ));
}

fn ellipsis() -> Datum {
    id("...")
}

#[test]
fn patterns_as_they_are_written() {
    assert_eq!(parse_pattern(&id("x")), Some(pid("x")));
    assert_eq!(parse_pattern(&integer(1)), Some(Pattern::Datum(integer(1))));
    assert_eq!(
        parse_pattern(&Datum::String("s".to_string())),
        Some(Pattern::Datum(Datum::String("s".to_string())))
    );
    assert_eq!(
        parse_pattern(&list(vec![id("_"), id("a"), list(vec![])])),
        Some(Pattern::List(vec![pid("_"), pid("a"), Pattern::List(vec![])]))
    );
    assert_eq!(
        parse_pattern(&list(vec![id("_"), id("a"), id("b"), ellipsis(), id("c")])),
        Some(Pattern::EllipsisList(
            vec![pid("_"), pid("a")],
            Box::new(pid("b")),
            vec![pid("c")]
        ))
    );
    assert_eq!(
        parse_pattern(&Datum::Vector(vec![list(vec![id("k"), id("v")]), ellipsis()])),
        Some(Pattern::EllipsisVector(
            vec![],
            Box::new(Pattern::List(vec![pid("k"), pid("v")])),
            vec![]
        ))
    );
    assert_eq!(
        parse_pattern(&Datum::Vector(vec![id("a"), integer(2)])),
        Some(Pattern::Vector(vec![pid("a"), Pattern::Datum(integer(2))]))
    );
    assert_eq!(
        parse_pattern(&Datum::DottedPair(vec![id("a")], Box::new(id("b")))),
        Some(Pattern::Pair(vec![pid("a")], Box::new(pid("b"))))
    );
    for bad in [
        ellipsis(),
        list(vec![ellipsis(), id("a")]),
        list(vec![id("a"), ellipsis(), ellipsis()]),
        list(vec![id("a"), ellipsis(), id("b"), ellipsis()]),
        Datum::DottedPair(vec![id("a"), ellipsis()], Box::new(id("b"))),
        Datum::DottedPair(vec![id("a")], Box::new(ellipsis())),
        Datum::Quote(Box::new(id("a"))),
        list(vec![id("a"), Datum::Unquote(Box::new(id("b")))]),
    ] {
        assert_eq!(parse_pattern(&bad), None, "on {:?}", bad);
    }
}

#[test]
fn templates_as_they_are_written() {
    assert_eq!(parse_template(&id("x")), Some(tid("x")));
    assert_eq!(
        parse_template(&Datum::Character('c')),
        Some(Template::Datum(Datum::Character('c')))
    );
    assert_eq!(
        parse_template(&list(vec![
            id("f"),
            id("a"),
            ellipsis(),
            list(vec![id("b"), id("c")]),
            ellipsis(),
            id("d"),
        ])),
        Some(Template::List(vec![
            tid("f"),
            repeated(tid("a")),
            repeated(Template::List(vec![tid("b"), tid("c")])),
            tid("d"),
        ]))
    );
    assert_eq!(
        parse_template(&Datum::Vector(vec![id("a"), ellipsis()])),
        Some(Template::Vector(vec![repeated(tid("a"))]))
    );
    assert_eq!(
        parse_template(&Datum::DottedPair(
            vec![id("a"), ellipsis()],
            Box::new(id("b"))
        )),
        Some(Template::Pair(vec![repeated(tid("a"))], Box::new(tid("b"))))
    );
    assert_eq!(
        parse_template(&Datum::Quote(Box::new(list(vec![id("a"), ellipsis()])))),
        Some(Template::List(vec![
            tid("quote"),
            Template::List(vec![repeated(tid("a"))]),
        ]))
    );
    for bad in [
        ellipsis(),
        list(vec![ellipsis()]),
        list(vec![id("a"), ellipsis(), ellipsis()]),
        Datum::DottedPair(vec![id("a")], Box::new(ellipsis())),
        Datum::Backquote(Box::new(id("a"))),
        list(vec![Datum::UnquoteSplice(Box::new(id("a")))]),
    ] {
        assert_eq!(parse_template(&bad), None, "on {:?}", bad);
    }
}

#[test]
fn transformers_as_they_are_written() {
    let written = list(vec![
        id("syntax-rules"),
        list(vec![id("=>"), id("else")]),
        list(vec![list(vec![id("_")]), Datum::Boolean(false)]),
        list(vec![
            list(vec![id("_"), id("e"), id("r"), ellipsis()]),
            list(vec![id("f"), id("e"), list(vec![id("r"), ellipsis()])]),
        ]),
    ]);
    assert_eq!(
        parse_syntax_rules(&written).unwrap(),
        SyntaxRules {
            identifiers: vec!["=>".to_string(), "else".to_string()],
            rules: vec![
                SyntaxRule {
                    pattern: Pattern::List(vec![pid("_")]),
                    template: Template::Datum(Datum::Boolean(false)),
                },
                SyntaxRule {
                    pattern: Pattern::EllipsisList(
                        vec![pid("_"), pid("e")],
                        Box::new(pid("r")),
                        vec![]
                    ),
                    template: Template::List(vec![
                        tid("f"),
                        tid("e"),
                        Template::List(vec![repeated(tid("r"))]),
                    ]),
                },
            ],
        }
    );
    assert_eq!(
        parse_syntax_rules(&list(vec![id("syntax-rules"), list(vec![])])).unwrap(),
        SyntaxRules {
            identifiers: vec![],
            rules: vec![],
        }
    );
    for bad in [
        id("syntax-rules"),
        list(vec![]),
        list(vec![id("syntax-rules")]),
        list(vec![id("syntax-rule"), list(vec![])]),
        list(vec![id("syntax-rules"), id("x")]),
        list(vec![id("syntax-rules"), list(vec![integer(1)])]),
        list(vec![id("syntax-rules"), list(vec![]), id("rule")]),
        list(vec![id("syntax-rules"), list(vec![]), list(vec![id("p")])]),
        list(vec![
            id("syntax-rules"),
            list(vec![]),
            list(vec![id("p"), id("t"), id("u")]),
        ]),
        list(vec![
            id("syntax-rules"),
            list(vec![]),
            list(vec![id("p"), ellipsis()]),
        ]),
    ] {
        assert!(
            matches!(
                parse_syntax_rules(&bad),
                Err(CompilerError::SyntaxError(SyntaxErrorKind::MalformedSyntaxRules, name)) if name.is_empty()
            ),
            "on {:?}",
            bad
        );
    }
}

#[test]
fn quotations_are_written_as_they_stand() {
    let t = Template::List(vec![
        tid("lambda"),
        Template::List(vec![tid("tmp")]),
        Template::List(vec![tid("quote"), Template::List(vec![tid("tmp"), tid("x")])]),
        Template::List(vec![tid("f"), tid("tmp")]),
    ]);
    assert_eq!(template_binders(&t), vec!["tmp"]);
    assert_eq!(template_identifiers(&t), vec!["lambda", "tmp", "f", "tmp"]);
    let env = vec![bound("x", one(integer(1)))];
    assert_eq!(
        write_template(&t, &env, &"m".to_string(), 4).unwrap(),
        list(vec![
            id("lambda"),
            list(vec![id("tmp#4")]),
            list(vec![id("quote"), list(vec![id("tmp"), integer(1)])]),
            list(vec![id("f"), id("tmp#4")]),
        ])
    );
    let quoted = Template::List(vec![
        tid("quote"),
        Template::List(vec![tid("lambda"), Template::List(vec![tid("y")]), tid("y")]),
    ]);
    assert!(template_binders(&quoted).is_empty());
    assert_eq!(
        write_template(&quoted, &env, &"m".to_string(), 0).unwrap(),
        list(vec![
            id("quote"),
            list(vec![id("lambda"), list(vec![id("y")]), id("y")]),
        ])
    );
}

#[test]
fn names_of_the_use_do_not_catch_identifiers_of_the_template() {
    let rules = SyntaxRules {
        identifiers: Vec::new(),
        rules: vec![SyntaxRule {
            pattern: Pattern::List(vec![pid("_"), pid("var"), pid("val")]),
            template: Template::List(vec![
                Template::List(vec![
                    tid("lambda"),
                    Template::List(vec![tid("var")]),
                    Template::List(vec![tid("helper"), tid("var")]),
                ]),
                tid("val"),
            ]),
        }],
    };
    let keyword = "with".to_string();
    assert_eq!(
        expand(&rules, &keyword, &vec![id("x"), integer(5)], 0).unwrap(),
        list(vec![
            list(vec![
                id("lambda"),
                list(vec![id("x")]),
                list(vec![id("helper"), id("x")]),
            ]),
            integer(5),
        ])
    );
    assert!(matches!(
        expand(&rules, &keyword, &vec![id("helper"), integer(5)], 0),
        Err(CompilerError::SyntaxError(SyntaxErrorKind::CapturedIdentifier, name)) if name == "helper"
    ));
    assert_eq!(
        expand(&rules, &keyword, &vec![id("x"), id("helper")], 0).unwrap(),
        list(vec![
            list(vec![
                id("lambda"),
                list(vec![id("x")]),
                list(vec![id("helper"), id("x")]),
            ]),
            id("helper"),
        ])
    );
    let formals = SyntaxRules {
        identifiers: Vec::new(),
        rules: vec![SyntaxRule {
            pattern: Pattern::EllipsisList(vec![pid("_")], Box::new(pid("v")), vec![]),
            template: Template::List(vec![
                tid("lambda"),
                Template::List(vec![repeated(tid("v"))]),
                Template::List(vec![tid("list"), repeated(tid("v"))]),
            ]),
        }],
    };
    assert!(expand(&formals, &keyword, &vec![id("a"), id("b")], 0).is_ok());
    assert!(matches!(
        expand(&formals, &keyword, &vec![id("a"), id("list")], 0),
        Err(CompilerError::SyntaxError(SyntaxErrorKind::CapturedIdentifier, name)) if name == "list"
    ));
}

#[test]
fn the_first_matching_rule_is_selected() {
    let rules = my_or();
    assert_eq!(select_rule(&rules, &vec![]), Some((0, vec![])));
    assert_eq!(
        select_rule(&rules, &vec![id("x")]),
        Some((1, vec![bound("e", one(id("x")))]))
    );
    assert_eq!(
        select_rule(&rules, &vec![id("x"), id("y")]),
        Some((
            2,
            vec![
                bound("e", one(id("x"))),
                bound("r", Binding::Many(vec![one(id("y"))])),
            ]
        ))
    );
    let none = SyntaxRules {
        identifiers: Vec::new(),
        rules: Vec::new(),
    };
    assert_eq!(select_rule(&none, &vec![]), None);
}
