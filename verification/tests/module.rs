use std::hash::Hasher;
use cao_lang::compiler::card::{Card, CardBody, CompositeCard, Function, UnaryExpression};
use cao_lang::compiler::module::{CaoProgram, CardFetchError, CardIndex, Module, SwapError};

fn prog() -> Module {
    let functions = vec![(
        "main".to_string(),
        Function::default().with_card(Card::new(CardBody::CompositeCard(Box::new(CompositeCard {
            ty: "".to_string(),
            cards: vec![
                Card::string_card("poggers".to_owned()),
                Card::string_card("poggers".to_owned()),
                Card::string_card("poggers".to_owned()),
            ],
        })))),
    )];
    CaoProgram {
        imports: Default::default(),
        submodules: Default::default(),
        functions,
    }
}

fn index(function: usize, indices: &[u32]) -> CardIndex {
    let mut idx = CardIndex::function(function);
    for i in indices {
        idx.push_subindex(*i);
    }
    idx
}

#[test]
fn module_card_fetch_test() {
    let m = prog();

    let comp_card = m
        .get_card(&CardIndex::new(0, 0))
        .expect("failed to fetch card");

    assert!(matches!(comp_card.body, CardBody::CompositeCard { .. }));

    let nested_card = m
        .get_card(&index(0, &[0, 1]))
        .expect("failed to fetch nested card");

    assert!(matches!(nested_card.body, CardBody::StringLiteral(_)));
}

#[test]
fn remove_card_from_compositve_test() {
    let functions = vec![(
        "main".to_string(),
        Function::default().with_card(Card::new(CardBody::CompositeCard(Box::new(CompositeCard {
            ty: "".to_string(),
            cards: vec![
                Card::string_card("winnie".to_owned()),
                Card::string_card("pooh".to_owned()),
                Card::string_card("tiggers".to_owned()),
            ],
        })))),
    )];
    let mut prog = CaoProgram {
        imports: Default::default(),
        submodules: Default::default(),
        functions,
    };

    let removed = prog.remove_card(&index(0, &[0, 1])).unwrap();

    match removed.body {
        CardBody::StringLiteral(s) => assert_eq!(s, "pooh"),
        _ => panic!(),
    }
}

#[test]
fn remove_card_from_ifelse_test() {
    let functions = vec![(
        "main".to_string(),
        Function::default().with_card(Card::new(CardBody::IfElse(Box::new([
            Card::new(CardBody::ScalarNil),
            Card::string_card("winnie".to_string()),
            Card::string_card("pooh".to_string()),
        ])))),
    )];
    let mut prog = CaoProgram {
        imports: Default::default(),
        submodules: Default::default(),
        functions,
    };

    let removed = prog.remove_card(&index(0, &[0, 2])).unwrap();

    match removed.body {
        CardBody::StringLiteral(s) => assert_eq!(s, "pooh"),
        _ => panic!(),
    }

    let ifelse = prog.get_card(&CardIndex::new(0, 0)).unwrap();
    match &ifelse.body {
        CardBody::IfElse(children) => {
            assert!(matches!(children[2].body, CardBody::ScalarNil));
        }
        _ => panic!(),
    }
}

#[test]
fn insert_card_test() {
    let mut program = CaoProgram::default();
    program
        .functions
        .push(("poggers".to_string(), Default::default()));

    program
        .insert_card(&CardIndex::new(0, 0), Card::new(CardBody::CreateTable))
        .unwrap();
    program
        .insert_card(
            &CardIndex::new(0, 1),
            Card::composite_card("pog".to_string(), vec![]),
        )
        .unwrap();
    program
        .insert_card(
            &CardIndex::new(0, 1).with_sub_index(0),
            Card::new(CardBody::Abort),
        )
        .unwrap();

    // the program now reads:
    // poggers: [CreateTable, CompositeCard "pog" [Abort]]
    assert!(program.submodules.is_empty());
    assert!(program.imports.is_empty());
    assert_eq!(program.functions.len(), 1);
    let (name, function) = &program.functions[0];
    assert_eq!(name, "poggers");
    assert!(function.arguments.is_empty());
    assert_eq!(function.cards.len(), 2);
    assert!(matches!(function.cards[0].body, CardBody::CreateTable));
    match &function.cards[1].body {
        CardBody::CompositeCard(c) => {
            assert_eq!(c.ty, "pog");
            assert_eq!(c.cards.len(), 1);
            assert!(matches!(c.cards[0].body, CardBody::Abort));
        }
        _ => panic!(),
    }
}

fn nested_program() -> CaoProgram {
    let mut program = CaoProgram::default();
    program.submodules.push((
        "foo".to_string(),
        CaoProgram {
            submodules: vec![(
                "bar".to_string(),
                CaoProgram {
                    functions: vec![(
                        "poggers".to_string(),
                        Function {
                            arguments: vec![
                                String::from("winnie"),
                                String::from("pooh"),
                                String::from("tiggers"),
                            ],
                            cards: vec![],
                        },
                    )],
                    ..Default::default()
                },
            )],
            ..Default::default()
        },
    ));
    program
}

#[test]
fn lookup_jump_target_test() {
    let program = nested_program();

    let function = program.lookup_function("foo.bar.poggers").unwrap();

    assert_eq!(
        function.arguments,
        &[
            String::from("winnie"),
            String::from("pooh"),
            String::from("tiggers"),
        ]
    );
}

#[test]
fn lookup_jump_target_invalid_submodule_is_none_test() {
    let program = nested_program();

    let function = program.lookup_function("foo.baz.poggers");
    assert!(function.is_none());
}

#[test]
fn lookup_jump_target_invalid_function_is_none_test() {
    let program = nested_program();

    let function = program.lookup_function("foo.bar.poogers");
    assert!(function.is_none());
}

#[test]
fn fetch_errors() {
    let mut m = prog();
    assert_eq!(m.get_card(&CardIndex::new(1, 0)).unwrap_err(), CardFetchError::FunctionNotFound);
    assert_eq!(m.get_card(&CardIndex::function(0)).unwrap_err(), CardFetchError::InvalidIndex);
    assert_eq!(
        m.get_card(&CardIndex::new(0, 3)).unwrap_err(),
        CardFetchError::CardNotFound { depth: 0 }
    );
    assert_eq!(
        m.get_card(&index(0, &[0, 5])).unwrap_err(),
        CardFetchError::CardNotFound { depth: 1 }
    );
    assert_eq!(
        m.remove_card(&index(0, &[0, 1, 0])).unwrap_err(),
        CardFetchError::CardNotFound { depth: 2 }
    );
    let old = m.replace_card(&index(0, &[0, 2]), Card::scalar_int(3)).unwrap();
    assert!(matches!(old.body, CardBody::StringLiteral(_)));
    assert!(matches!(m.get_card(&index(0, &[0, 2])).unwrap().body, CardBody::ScalarInt(3)));
    assert!(m.lookup_submodule("").is_none());
    let nested = nested_program();
    assert!(nested.lookup_submodule("foo.bar").is_some());
    assert!(nested.lookup_function("poggers").is_none());
}

fn nested_not_module() -> Module {
    Module {
        submodules: vec![],
        functions: vec![(
            "main".into(),
            Function::default().with_card(Card::new(CardBody::Not(UnaryExpression {
                card: Box::new(Card::scalar_int(42)),
            }))),
        )],
        ..Default::default()
    }
}

#[test]
fn test_swap_lhs_childof_rhs_fails() {
    let mut m = nested_not_module();

    let err = m
        .swap_cards(
            &CardIndex::function(0).with_sub_index(0).with_sub_index(0),
            &CardIndex::function(0).with_sub_index(0),
        )
        .unwrap_err();

    assert!(matches!(err, SwapError::InvalidSwap));
}

#[test]
fn test_swap_rhs_childof_lhs_fails() {
    let mut m = nested_not_module();

    let err = m
        .swap_cards(
            &CardIndex::function(0).with_sub_index(0),
            &CardIndex::function(0).with_sub_index(0).with_sub_index(0),
        )
        .unwrap_err();

    assert!(matches!(err, SwapError::InvalidSwap));
}

#[test]
fn test_swap() {
    let mut m = Module {
        submodules: vec![],
        functions: vec![
            (
                "main".into(),
                Function::default()
                    .with_card(Card::scalar_int(42))
                    .with_card(Card::scalar_int(5)),
            ),
            (
                "other".into(),
                Function::default()
                    .with_card(Card::scalar_int(5))
                    .with_card(Card::scalar_int(42)),
            ),
        ],
        ..Default::default()
    };

    m.swap_cards(
        &CardIndex::function(0).with_sub_index(0),
        &CardIndex::function(1).with_sub_index(0),
    )
    .unwrap();

    let f = m
        .get_card(&CardIndex::function(0).with_sub_index(0))
        .unwrap();

    assert!(matches!(&f.body, &CardBody::ScalarInt(5)));

    let f = m
        .get_card(&CardIndex::function(0).with_sub_index(1))
        .unwrap();

    assert!(matches!(&f.body, &CardBody::ScalarInt(5)));

    let f = m
        .get_card(&CardIndex::function(1).with_sub_index(0))
        .unwrap();

    assert!(matches!(&f.body, &CardBody::ScalarInt(42)));

    let f = m
        .get_card(&CardIndex::function(1).with_sub_index(1))
        .unwrap();

    assert!(matches!(&f.body, &CardBody::ScalarInt(42)));

    assert_eq!(m.functions.len(), 2);
}

#[test]
fn swap_reports_missing_lower_index() {
    let mut m = nested_not_module();
    let err = m
        .swap_cards(
            &CardIndex::function(3).with_sub_index(0),
            &CardIndex::function(0).with_sub_index(5),
        )
        .unwrap_err();
    match err {
        SwapError::FetchError(idx, CardFetchError::CardNotFound { depth: 0 }) => {
            assert_eq!(idx, CardIndex::function(0).with_sub_index(5));
        }
        other => panic!("unexpected {:?}", other),
    }
}

#[test]
fn swap_refuses_missing_upper_index() {
    let mut m = nested_not_module();
    m.functions[0].1.cards.clear();
    m.functions[0].1.cards.push(Card::scalar_int(1));
    let err = m
        .swap_cards(
            &CardIndex::function(0).with_sub_index(0),
            &CardIndex::function(0).with_sub_index(7),
        )
        .unwrap_err();
    assert!(matches!(err, SwapError::InvalidSwap));
    let c = m.get_card(&CardIndex::function(0).with_sub_index(0)).unwrap();
    assert!(matches!(c.body, CardBody::ScalarInt(1)));
}

#[test]
fn swap_nested_cards_of_one_function() {
    let mut m = Module {
        submodules: vec![],
        functions: vec![(
            "main".into(),
            Function::default()
                .with_card(Card::new(CardBody::Not(UnaryExpression {
                    card: Box::new(Card::scalar_int(1)),
                })))
                .with_card(Card::scalar_int(2)),
        )],
        ..Default::default()
    };
    m.swap_cards(
        &CardIndex::function(0).with_sub_index(1),
        &CardIndex::function(0).with_sub_index(0).with_sub_index(0),
    )
    .unwrap();
    let inner = m
        .get_card(&CardIndex::function(0).with_sub_index(0).with_sub_index(0))
        .unwrap();
    assert!(matches!(inner.body, CardBody::ScalarInt(2)));
    let top = m.get_card(&CardIndex::function(0).with_sub_index(1)).unwrap();
    assert!(matches!(top.body, CardBody::ScalarInt(1)));
}

#[test]
fn card_index_order() {
    let a = CardIndex::function(0).with_sub_index(0);
    let b = CardIndex::function(0).with_sub_index(0).with_sub_index(0);
    let c = CardIndex::function(0).with_sub_index(1);
    let d = CardIndex::function(1);
    assert!(a < b);
    assert!(b < c);
    assert!(c < d);
    assert!(!(b < a));
    assert_eq!(a.partial_cmp(&a.clone()), Some(std::cmp::Ordering::Equal));
    let mut v = vec![d.clone(), c.clone(), b.clone(), a.clone()];
    v.sort();
    assert_eq!(v, vec![a, b, c, d]);
}

#[test]
fn keys_hash_covers_functions_cards_and_submodules() {
    let sub = Module {
        submodules: vec![],
        functions: vec![("inner".into(), Function::default().with_card(Card::scalar_int(3)))],
        imports: vec![],
    };
    let m = Module {
        submodules: vec![("child".into(), sub)],
        functions: vec![(
            "main".into(),
            Function::default()
                .with_card(Card::scalar_int(1))
                .with_card(Card::string_card("x".to_owned())),
        )],
        imports: vec![],
    };
    let mut h = std::collections::hash_map::DefaultHasher::new();
    for w in ["main", "ScalarInt", "StringLiteral", "child", "inner", "ScalarInt"] {
        h.write(w.as_bytes());
    }
    assert_eq!(m.compute_keys_hash(), h.finish());
    assert_ne!(m.compute_keys_hash(), Module::default().compute_keys_hash());
}

#[test]
fn lookup_function_mut_changes_the_named_function() {
    let mut program = nested_program();
    {
        let f = program.lookup_function_mut("foo.bar.poggers").unwrap();
        f.arguments.push("eeyore".to_string());
    }
    let f = program.lookup_function("foo.bar.poggers").unwrap();
    assert_eq!(f.arguments.len(), 4);
    assert_eq!(f.arguments[3], "eeyore");
    assert!(program.lookup_function_mut("foo.baz.poggers").is_none());
    assert!(program.lookup_function_mut("nope").is_none());
}

#[test]
fn lookup_submodule_mut_changes_the_named_submodule() {
    let mut program = nested_program();
    {
        let m = program.lookup_submodule_mut("foo.bar").unwrap();
        m.imports.push("x.y".to_string());
    }
    assert_eq!(program.lookup_submodule("foo.bar").unwrap().imports, vec!["x.y".to_string()]);
    assert!(program.lookup_submodule("foo").unwrap().imports.is_empty());
    assert!(program.lookup_submodule_mut("foo.baz").is_none());
}

#[test]
fn card_index_text() {
    assert_eq!(CardIndex::function(3).to_string(), "3");
    let idx = CardIndex::function(0).with_sub_index(12).with_sub_index(7);
    assert_eq!(idx.to_string(), "0.12.7");
}

#[test]
fn card_index_levels() {
    let mut idx = CardIndex::new(1, 4);
    assert!(idx.is_top_level_card());
    assert_eq!(idx.begin(), Ok(4));
    idx.push_subindex(2);
    assert!(!idx.is_top_level_card());
    assert_eq!(idx.current_index(), 2);
    idx.set_current_index(7);
    assert_eq!(idx.to_string(), "1.4.7");
    let idx = idx.with_current_index(3);
    assert_eq!(idx.to_string(), "1.4.3");
    let mut idx = idx;
    idx.pop_subindex();
    idx.pop_subindex();
    assert_eq!(idx.begin(), Err(CardFetchError::InvalidIndex));
    assert_eq!(idx.current_index(), 0);
    let mut fi = cao_lang::compiler::module::FunctionCardIndex::new(0);
    fi.push_sub_index(5);
    assert_eq!(fi.depth(), 2);
}

#[test]
fn get_card_mut_changes_that_card() {
    let mut m = prog();
    let idx = CardIndex::new(0, 0).with_sub_index(1);
    *m.get_card_mut(&idx).unwrap() = Card::scalar_int(3);
    assert!(matches!(m.get_card(&idx).unwrap().body, CardBody::ScalarInt(3)));
    assert!(matches!(
        m.get_card(&CardIndex::new(0, 0).with_sub_index(0)).unwrap().body,
        CardBody::StringLiteral(_)
    ));
    assert_eq!(
        m.get_card_mut(&CardIndex::new(0, 0).with_sub_index(9)).err(),
        Some(CardFetchError::CardNotFound { depth: 1 })
    );
}

#[test]
fn names_of_functions_and_modules() {
    use_is_name_valid();
}

fn use_is_name_valid() {
    let f = cao_lang::compiler::module::is_name_valid;
    assert!(f("foo_1"));
    assert!(f("é"));
    assert!(!f(""));
    assert!(!f("super"));
    assert!(f("superb"));
    assert!(!f("a.b"));
    assert!(!f("a b"));
}
